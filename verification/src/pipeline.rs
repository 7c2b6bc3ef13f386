//! What is done with a call, step by step.
//!
//! The steps that run programs, print and log are the caller's. Each function here takes what came
//! of the last of them and says what comes next: hand the call on to ripgrep, run ripgrep and keep
//! its matches, have ast-grep look at them, or print an answer and stop.

use crate::args;
use crate::args::{
    is_stream_filter, parse_rg_invocation, strip_shim_flags, Invocation, RgInvocation,
};
use crate::filter;
use crate::filter::{filter_matches, FilterOutcome, PathSet};
use crate::found;
use crate::found::{AgMatch, Captured, Hit, Node, RgCapture, RgMatch};
use crate::home;
use crate::home::called_by_own_name;
use crate::lang;
use crate::lang::{group_files_by_lang, LangGroups};
use crate::layout;
use crate::layout::push_decimal;
use crate::order;
use crate::order::sort_texts;
use crate::paths;
use crate::paths::norm_path;
use crate::pattern;
use crate::pattern::{classify, translate_pattern};
use crate::render;
use crate::render::{match_files, render_output, OutputMode};
use crate::text;
use crate::text::{copy_strings, join_texts, listed, same_text};
use vstd::prelude::*;
use vstd::string::*;

verus! {

/// What a command line asks for.
#[derive(Debug, Clone, Copy, PartialEq, Eq, Structural)]
pub enum Route {
    /// One of the shim's own commands.
    Manage,
    /// The shim's own help.
    Help,
    /// The shim's own version.
    Version,
    /// Nothing for the shim: everything goes to ripgrep as it is.
    Forward,
    /// A search.
    Search,
}

/// Whether a word is the name of one of the shim's own commands.
pub open spec fn own_command(word: Seq<char>) -> bool {
    word == "stats"@ || word == "report"@ || word == "prune"@ || word == "reset"@
}

/// What a command line, with the program's name at its start, asks for. ripgrep keeps its own help
/// and version where the shim is called by its name.
pub open spec fn route_of(argv: Seq<Seq<char>>) -> Route {
    let help = argv.contains("--help"@) || argv.contains("-h"@);
    if argv.len() > 1 && own_command(argv[1]) {
        Route::Manage
    } else if home::by_own_name(argv) && (help || argv.len() <= 1 || argv[1] == "help"@) {
        Route::Help
    } else if home::by_own_name(argv) && (argv.contains("--version"@) || argv.contains("-V"@)
        || argv[1] == "version"@) {
        Route::Version
    } else if argv.len() <= 1 || help {
        Route::Forward
    } else {
        Route::Search
    }
}

/// What a command line, with the program's name at its start, asks for.
pub fn route(args: &Vec<String>) -> (r: Route)
    ensures
        r == route_of(text::texts(args@)),
{
    let ghost argv = text::texts(args@);
    let own = called_by_own_name(args.as_slice());
    let help = listed(args, "--help") || listed(args, "-h");
    if args.len() <= 1 {
        return if own {
            Route::Help
        } else {
            Route::Forward
        };
    }
    assert(argv[1] == args@[1]@);
    let word: &str = args[1].as_str();
    if same_text(word, "stats") || same_text(word, "report") || same_text(word, "prune")
        || same_text(word, "reset") {
        Route::Manage
    } else if own && (help || same_text(word, "help")) {
        Route::Help
    } else if own && (listed(args, "--version") || listed(args, "-V") || same_text(
        word,
        "version",
    )) {
        Route::Version
    } else if help {
        Route::Forward
    } else {
        Route::Search
    }
}

/// An entry of the log.
#[verifier::ext_equal]
pub struct Entry {
    pub event: Seq<char>,
    pub pattern: Seq<char>,
    pub reason: Seq<char>,
    pub lang: Seq<char>,
    pub matches: nat,
}

/// An entry of the log: what became of a search, and why.
#[derive(Debug)]
pub struct LogEntry {
    pub event: String,
    pub pattern: String,
    pub reason: String,
    pub lang: String,
    pub matches: u64,
}

impl View for LogEntry {
    type V = Entry;

    open spec fn view(&self) -> Entry {
        Entry {
            event: self.event@,
            pattern: self.pattern@,
            reason: self.reason@,
            lang: self.lang@,
            matches: self.matches as nat,
        }
    }
}

/// The entry for a search that went to ripgrep as it is.
pub open spec fn passthrough(pattern: Seq<char>, reason: Seq<char>) -> Entry {
    Entry { event: "passthrough"@, pattern, reason, lang: Seq::empty(), matches: 0 }
}

/// What comes after reading a search.
#[verifier::ext_equal]
pub enum Next {
    /// It goes to ripgrep as it is, with an entry for the log.
    Forward(Option<Entry>),
    /// ripgrep is run to search for a pattern, and its matches are kept.
    Capture(Seq<char>),
}

/// What comes after reading a search. `on_tty` says whether standard input is a terminal.
pub open spec fn planned(call: Invocation, on_tty: bool) -> Next {
    match call.pattern {
        None => Next::Forward(None),
        Some(p) => if call.reads_stdin {
            Next::Forward(Some(passthrough(p, "stdin_dash"@)))
        } else if !call.has_path && !on_tty {
            Next::Forward(Some(passthrough(p, "stream_stdin"@)))
        } else if call.unsupported is Some {
            Next::Forward(Some(passthrough(p, "unsupported_flag_"@ + call.unsupported->0)))
        } else if call.no_smart {
            Next::Forward(Some(passthrough(p, "no_smart"@)))
        } else if !pattern::structural(p) {
            Next::Forward(Some(passthrough(p, "not_structural"@)))
        } else {
            Next::Capture(p)
        },
    }
}

/// What comes after reading a search.
#[derive(Debug)]
pub enum Step {
    /// It goes to ripgrep as it is, with an entry for the log.
    Forward(Option<LogEntry>),
    /// ripgrep is run to search for a pattern, and its matches are kept.
    Capture(String),
}

impl View for Step {
    type V = Next;

    open spec fn view(&self) -> Next {
        match self {
            Step::Forward(Some(e)) => Next::Forward(Some(e@)),
            Step::Forward(None) => Next::Forward(None),
            Step::Capture(p) => Next::Capture(p@),
        }
    }
}

/// A search, as it was read: the call, the command line for ripgrep, and what comes next.
#[derive(Debug)]
pub struct SearchPlan {
    pub inv: RgInvocation,
    pub rg_args: Vec<String>,
    pub next: Step,
}

/// The entry for a search that went to ripgrep as it is.
fn log_passthrough(pattern: &str, reason: &str) -> (r: LogEntry)
    ensures
        r@ == passthrough(pattern@, reason@),
{
    let lang = String::new();
    assert(lang@ =~= Seq::<char>::empty());
    LogEntry {
        event: "passthrough".to_string(),
        pattern: pattern.to_string(),
        reason: reason.to_string(),
        lang,
        matches: 0,
    }
}

/// What comes after reading a search.
pub fn next_step(inv: &RgInvocation, on_tty: bool) -> (r: Step)
    ensures
        r@ == planned(inv@, on_tty),
{
    let p: &str = match &inv.pattern {
        Some(p) => p.as_str(),
        None => return Step::Forward(None),
    };
    if inv.reads_stdin {
        return Step::Forward(Some(log_passthrough(p, "stdin_dash")));
    }
    if is_stream_filter(inv.has_path, on_tty) {
        return Step::Forward(Some(log_passthrough(p, "stream_stdin")));
    }
    if let Some(flag) = &inv.unsupported {
        let mut reason: String = "unsupported_flag_".to_string();
        reason.append(flag.as_str());
        return Step::Forward(Some(log_passthrough(p, reason.as_str())));
    }
    if inv.no_smart {
        return Step::Forward(Some(log_passthrough(p, "no_smart")));
    }
    if !classify(p) {
        return Step::Forward(Some(log_passthrough(p, "not_structural")));
    }
    Step::Capture(p.to_string())
}

/// Reads a search, given without the program's name.
pub fn plan_search(args: &[String], on_tty: bool) -> (r: SearchPlan)
    ensures
        ({
            let argv = text::texts(args@);
            let call = args::invocation(argv);
            &&& r.inv@ == call
            &&& text::texts(r.rg_args@) == args::unlisted(argv, call.shim_flag_indices)
            &&& r.next@ == planned(call, on_tty)
        }),
{
    let inv: RgInvocation = parse_rg_invocation(args);
    let rg_args: Vec<String> = strip_shim_flags(args, inv.shim_flag_indices.as_slice());
    let next: Step = next_step(&inv, on_tty);
    SearchPlan { inv, rg_args, next }
}

/// The figures of a search that ast-grep filtered, over the files that it looked into: its own
/// matches and files, and those of ripgrep.
#[verifier::ext_equal]
pub struct Figures {
    pub pattern: Seq<char>,
    pub lang: Seq<char>,
    pub ag_matches: nat,
    pub ag_files: nat,
    pub rg_results: nat,
    pub rg_files: nat,
}

/// The figures of a search that ast-grep filtered.
#[derive(Debug)]
pub struct Comparison {
    pub pattern: String,
    pub lang: String,
    pub ag_matches: u64,
    pub ag_files: u64,
    pub rg_results: u64,
    pub rg_files: u64,
}

impl View for Comparison {
    type V = Figures;

    open spec fn view(&self) -> Figures {
        Figures {
            pattern: self.pattern@,
            lang: self.lang@,
            ag_matches: self.ag_matches as nat,
            ag_files: self.ag_files as nat,
            rg_results: self.rg_results as nat,
            rg_files: self.rg_files as nat,
        }
    }
}

/// How a search ends.
#[verifier::ext_equal]
pub struct End {
    /// A line for standard error.
    pub notice: Option<Seq<char>>,
    /// What goes to standard output.
    pub output: Seq<char>,
    /// The exit code.
    pub code: i32,
    /// The entry of the log.
    pub entry: Entry,
    /// The figures for the log.
    pub figures: Option<Figures>,
}

/// How a search ends.
#[derive(Debug)]
pub struct Ending {
    /// A line for standard error.
    pub notice: Option<String>,
    /// What goes to standard output.
    pub output: String,
    /// The exit code.
    pub code: i32,
    /// The entry of the log.
    pub entry: LogEntry,
    /// The figures for the log.
    pub figures: Option<Comparison>,
}

impl View for Ending {
    type V = End;

    open spec fn view(&self) -> End {
        End {
            notice: text::text_of(self.notice),
            output: self.output@,
            code: self.code,
            entry: self.entry@,
            figures: match self.figures {
                Some(f) => Some(f@),
                None => None,
            },
        }
    }
}

/// ripgrep's matches as they are, because ast-grep has nothing to say of them.
pub open spec fn unfiltered(
    pattern: Seq<char>,
    reason: Seq<char>,
    lang: Seq<char>,
    hits: Seq<Hit>,
    mode: OutputMode,
) -> End {
    End {
        notice: None,
        output: text::concat(render::output_lines(hits, mode)),
        code: 0,
        entry: Entry { event: "fallback"@, pattern, reason, lang, matches: hits.len() },
        figures: None,
    }
}

/// The answer where nothing matches.
pub open spec fn no_match(pattern: Seq<char>) -> End {
    End {
        notice: None,
        output: Seq::empty(),
        code: 1,
        entry: Entry {
            event: "no_match"@,
            pattern,
            reason: "rg_empty"@,
            lang: Seq::empty(),
            matches: 0,
        },
        figures: None,
    }
}

/// What comes after the capture run.
#[verifier::ext_equal]
pub enum After {
    /// The search goes to ripgrep as it is, with an entry for the log.
    Forward(Entry),
    /// The search ends.
    Stop(End),
    /// ast-grep looks for a pattern in the files of the matches, by language.
    Confirm {
        hits: Seq<Hit>,
        by_lang: Seq<(Seq<char>, Seq<Seq<char>>)>,
        sg_pattern: Seq<char>,
    },
}

/// What comes after the capture run of a search for `pattern`.
pub open spec fn after(pattern: Seq<char>, captured: Captured, mode: OutputMode) -> After {
    match captured {
        Captured::Failed => After::Forward(passthrough(pattern, "rg_failed"@)),
        Captured::Unparseable => After::Forward(passthrough(pattern, "rg_json_unparseable"@)),
        Captured::OverCap(hits) => After::Stop(
            unfiltered(pattern, "over_cap"@, Seq::empty(), hits, mode),
        ),
        Captured::Matches(hits) => {
            let by_lang = lang::grouped(order::sorted(render::files_of(hits)));
            if hits.len() == 0 {
                After::Stop(no_match(pattern))
            } else if by_lang.len() == 0 {
                After::Stop(
                    unfiltered(pattern, "no_searchable_language"@, Seq::empty(), hits, mode),
                )
            } else {
                After::Confirm { hits, by_lang, sg_pattern: pattern::translation(pattern) }
            }
        },
    }
}

/// What comes after the capture run.
#[derive(Debug)]
pub enum AfterCapture {
    /// The search goes to ripgrep as it is, with an entry for the log.
    Forward(LogEntry),
    /// The search ends.
    Stop(Ending),
    /// ast-grep looks for a pattern in the files of the matches, by language.
    Confirm { hits: Vec<RgMatch>, by_lang: LangGroups, sg_pattern: String },
}

impl View for AfterCapture {
    type V = After;

    open spec fn view(&self) -> After {
        match self {
            AfterCapture::Forward(e) => After::Forward(e@),
            AfterCapture::Stop(e) => After::Stop(e@),
            AfterCapture::Confirm { hits, by_lang, sg_pattern } => After::Confirm {
                hits: found::hits(hits@),
                by_lang: by_lang@,
                sg_pattern: sg_pattern@,
            },
        }
    }
}

/// ripgrep's matches as they are.
fn end_unfiltered(
    pattern: &str,
    reason: &str,
    lang: String,
    hits: &Vec<RgMatch>,
    mode: OutputMode,
) -> (r: Ending)
    ensures
        r@ == unfiltered(pattern@, reason@, lang@, found::hits(hits@), mode),
{
    Ending {
        notice: None,
        output: render_output(hits.as_slice(), mode),
        code: 0,
        entry: LogEntry {
            event: "fallback".to_string(),
            pattern: pattern.to_string(),
            reason: reason.to_string(),
            lang,
            matches: hits.len() as u64,
        },
        figures: None,
    }
}

/// A text without characters.
fn no_text() -> (r: String)
    ensures
        r@ == Seq::<char>::empty(),
{
    let r = String::new();
    assert(r@ =~= Seq::<char>::empty());
    r
}

/// What comes after the capture run of a search for `pattern`.
pub fn after_capture(pattern: &str, capture: RgCapture, mode: OutputMode) -> (r: AfterCapture)
    ensures
        r@ == after(pattern@, capture@, mode),
        r matches AfterCapture::Confirm { by_lang, .. } ==> by_lang.in_order(),
{
    match capture {
        RgCapture::Failed => AfterCapture::Forward(log_passthrough(pattern, "rg_failed")),
        RgCapture::Unparseable => AfterCapture::Forward(
            log_passthrough(pattern, "rg_json_unparseable"),
        ),
        RgCapture::OverCap(hits) => AfterCapture::Stop(
            end_unfiltered(pattern, "over_cap", no_text(), &hits, mode),
        ),
        RgCapture::Matches(hits) => {
            if hits.len() == 0 {
                return AfterCapture::Stop(
                    Ending {
                        notice: None,
                        output: no_text(),
                        code: 1,
                        entry: LogEntry {
                            event: "no_match".to_string(),
                            pattern: pattern.to_string(),
                            reason: "rg_empty".to_string(),
                            lang: no_text(),
                            matches: 0,
                        },
                        figures: None,
                    },
                );
            }
            let files: Vec<String> = sort_texts(match_files(hits.as_slice()).as_slice());
            let by_lang: LangGroups = group_files_by_lang(files.as_slice());
            if by_lang.is_empty() {
                return AfterCapture::Stop(
                    end_unfiltered(pattern, "no_searchable_language", no_text(), &hits, mode),
                );
            }
            AfterCapture::Confirm { hits, by_lang, sg_pattern: translate_pattern(pattern) }
        },
    }
}

/// ast-grep's command line, without the program's name: to look for a pattern in some files of a
/// language, and report in JSON.
pub open spec fn ast_grep_argv(
    sg_pattern: Seq<char>,
    lang: Seq<char>,
    files: Seq<Seq<char>>,
) -> Seq<Seq<char>> {
    seq!["run"@, "-p"@, sg_pattern, "-l"@, lang] + files + seq!["--json=stream"@]
}

/// ast-grep's command line, without the program's name.
pub fn ast_grep_args(sg_pattern: &str, lang: &str, files: &[String]) -> (r: Vec<String>)
    ensures
        text::texts(r@) == ast_grep_argv(sg_pattern@, lang@, text::texts(files@)),
{
    let mut out: Vec<String> = vec![
        "run".to_string(),
        "-p".to_string(),
        sg_pattern.to_string(),
        "-l".to_string(),
        lang.to_string(),
    ];
    let ghost head = text::texts(out@);
    assert(head =~= seq!["run"@, "-p"@, sg_pattern@, "-l"@, lang@]);
    let mut more: Vec<String> = copy_strings(files);
    let ghost listed = text::texts(more@);
    out.append(&mut more);
    assert(text::texts(out@) =~= head + listed);
    out.push("--json=stream".to_string());
    assert(text::texts(out@) =~= head + listed + seq!["--json=stream"@]);
    out
}

/// The normal paths of the matches in files that ast-grep looked into.
pub open spec fn searched_paths(hits: Seq<Hit>, files: Set<Seq<char>>) -> Seq<Seq<char>>
    decreases hits.len(),
{
    if hits.len() == 0 {
        Seq::empty()
    } else if filter::searched(hits.last(), files) {
        searched_paths(hits.drop_last(), files).push(paths::normal(hits.last().file))
    } else {
        searched_paths(hits.drop_last(), files)
    }
}

/// The line that says how many matches are hidden.
pub open spec fn hidden_notice(n: nat) -> Seq<char> {
    "\x1b[36msmart-rg: "@ + layout::decimal(n) + " match"@ + (if n == 1 {
        ""@
    } else {
        "es"@
    }) + " not confirmed as structural by ast-grep \u{2014} rerun with --no-smart\x1b[0m"@
}

/// How a search ends that ast-grep was asked about: `nodes` is what it reported, `files` are the
/// normal paths of the files that it looked into, and `langs` are the languages in which it
/// reported something. Where it confirmed no match at all, ripgrep's matches are the answer.
pub open spec fn concluded(
    pattern: Seq<char>,
    sg_pattern: Seq<char>,
    hits: Seq<Hit>,
    nodes: Seq<Node>,
    files: Set<Seq<char>>,
    langs: Seq<Seq<char>>,
    mode: OutputMode,
) -> End {
    let label = text::join(langs, ","@);
    let shown = filter::kept(hits, nodes, files);
    let looked_at = filter::searched_count(hits, files);
    let confirmed = filter::confirmed_count(hits, nodes, files);
    if confirmed == 0 {
        unfiltered(pattern, "ast_grep_empty"@, label, hits, mode)
    } else {
        End {
            notice: if looked_at > confirmed {
                Some(hidden_notice((looked_at - confirmed) as nat))
            } else {
                None
            },
            output: text::concat(render::output_lines(shown, mode)),
            code: 0,
            entry: Entry {
                event: "structural"@,
                pattern: sg_pattern,
                reason: "filtered"@,
                lang: label,
                matches: confirmed,
            },
            figures: Some(
                Figures {
                    pattern,
                    lang: label,
                    ag_matches: confirmed,
                    ag_files: order::sorted(searched_paths(shown, files)).len(),
                    rg_results: looked_at,
                    rg_files: order::sorted(searched_paths(hits, files)).len(),
                },
            ),
        }
    }
}

/// The number of files, among those that ast-grep looked into, that have a match.
fn count_searched(hits: &[RgMatch], searched: &PathSet) -> (r: u64)
    requires
        searched.well_formed(),
    ensures
        r == order::sorted(searched_paths(found::hits(hits@), searched@)).len(),
{
    let ghost all = found::hits(hits@);
    let mut list: Vec<String> = Vec::new();
    let mut i: usize = 0;
    while i < hits.len()
        invariant
            searched.well_formed(),
            all == found::hits(hits@),
            i <= hits@.len(),
            text::texts(list@) =~= searched_paths(all.take(i as int), searched@),
        decreases hits@.len() - i,
    {
        let path: &str = norm_path(hits[i].file.as_str());
        let ghost before = text::texts(list@);
        assert(all.take(i + 1).drop_last() =~= all.take(i as int));
        assert(all.take(i + 1).last() == hits@[i as int]@);
        if searched.contains(path) {
            list.push(path.to_string());
            assert(text::texts(list@) =~= before.push(path@));
        }
        i += 1;
    }
    assert(all.take(i as int) =~= all);
    sort_texts(list.as_slice()).len() as u64
}

/// The line that says how many matches are hidden.
fn notice_of_hidden(n: usize) -> (r: String)
    ensures
        r@ == hidden_notice(n as nat),
{
    let mut out: String = "\x1b[36msmart-rg: ".to_string();
    push_decimal(&mut out, n as u64);
    out.append(" match");
    if n == 1 {
        out.append("");
    } else {
        out.append("es");
    }
    out.append(
        " not confirmed as structural by ast-grep \u{2014} rerun with --no-smart\x1b[0m",
    );
    out
}

/// How a search ends that ast-grep was asked about.
pub fn conclude(
    pattern: &str,
    sg_pattern: &str,
    hits: &Vec<RgMatch>,
    confirmations: (Vec<AgMatch>, PathSet, Vec<String>),
    mode: OutputMode,
) -> (r: Ending)
    requires
        confirmations.1.well_formed(),
    ensures
        r@ == concluded(
            pattern@,
            sg_pattern@,
            found::hits(hits@),
            found::nodes(confirmations.0@),
            confirmations.1@,
            text::texts(confirmations.2@),
            mode,
        ),
{
    let (ag, searched, langs) = confirmations;
    let label: String = join_texts(langs.as_slice(), ",");
    let out: FilterOutcome = filter_matches(hits.as_slice(), ag.as_slice(), &searched);
    if out.confirmed_hits == 0 {
        return end_unfiltered(pattern, "ast_grep_empty", label, hits, mode);
    }
    let notice: Option<String> = if out.suppressed > 0 {
        Some(notice_of_hidden(out.suppressed))
    } else {
        None
    };
    Ending {
        notice,
        output: render_output(out.kept.as_slice(), mode),
        code: 0,
        entry: LogEntry {
            event: "structural".to_string(),
            pattern: sg_pattern.to_string(),
            reason: "filtered".to_string(),
            lang: label.clone(),
            matches: out.confirmed_hits as u64,
        },
        figures: Some(
            Comparison {
                pattern: pattern.to_string(),
                lang: label,
                ag_matches: out.confirmed_hits as u64,
                ag_files: count_searched(out.kept.as_slice(), &searched),
                rg_results: out.searched_hits as u64,
                rg_files: count_searched(hits.as_slice(), &searched),
            },
        ),
    }
}

} // verus!
