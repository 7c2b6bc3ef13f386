//! A shim in front of ripgrep.
//!
//! A search for code is answered by ripgrep and filtered by ast-grep: ripgrep's matches are the
//! answer, and those are hidden that ast-grep looked at and did not find to be code. Every other
//! search goes to ripgrep as it is.
//!
//! This crate holds what the shim decides: what a command line asks for ([`args`], [`flags`]),
//! whether a pattern is code ([`pattern`]), what the two tools reported ([`found`], [`json`]), which
//! matches to show ([`lang`], [`filter`], [`render`]), what comes next ([`pipeline`], [`home`]), and
//! the statistics ([`stats`], [`savings`], [`table`], [`report`]). Running programs, printing and
//! logging is left to its callers.
//!
//! The modules whose names end in `_laws` state what holds of every call.

pub mod args;
pub mod args_laws;
pub mod call_laws;
pub mod chars;
pub mod filter;
pub mod filter_laws;
pub mod flags;
pub mod flags_laws;
pub mod found;
pub mod found_laws;
pub mod home;
pub mod home_laws;
pub mod json;
pub mod lang;
pub mod layout;
pub mod layout_laws;
pub mod order;
pub mod order_laws;
pub mod paths;
pub mod paths_laws;
pub mod pattern;
pub mod pattern_laws;
pub mod pipeline;
pub mod pipeline_laws;
pub mod rank;
pub mod render;
pub mod render_laws;
pub mod report;
pub mod savings;
pub mod savings_laws;
pub mod stats;
pub mod stats_laws;
pub mod sums;
pub mod table;
pub mod table_laws;
pub mod text;
pub mod text_laws;
pub mod view_laws;
