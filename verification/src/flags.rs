//! What the shim has to know of ripgrep's flags.
//!
//! Three small tables: the flags whose meaning ast-grep cannot reproduce, the flags that take a
//! value, and the flags that only choose how the matches are printed. A flag in none of them is
//! passed on and otherwise ignored.

use crate::text::same_text;
use vstd::prelude::*;

verus! {

/// Long flags, without their dashes, that change which lines match, or the shape of the output,
/// in a way that ast-grep has no equivalent for.
pub open spec fn name_denied(name: Seq<char>) -> bool {
    ||| name == "invert-match"@
    ||| name == "files-without-match"@
    ||| name == "after-context"@
    ||| name == "before-context"@
    ||| name == "context"@
    ||| name == "only-matching"@
    ||| name == "max-count"@
    ||| name == "ignore-case"@
    ||| name == "smart-case"@
    ||| name == "iglob"@
    ||| name == "fixed-strings"@
    ||| name == "replace"@
    ||| name == "quiet"@
    ||| name == "json"@
    ||| name == "vimgrep"@
    ||| name == "passthru"@
}

/// Short flags with such a meaning.
pub open spec fn letter_denied(c: char) -> bool {
    c == 'v' || c == 'A' || c == 'B' || c == 'C' || c == 'o' || c == 'm' || c == 'i' || c == 'S'
        || c == 'F' || c == 'r' || c == 'q'
}

/// Long flags, without their dashes, whose value may stand in the next token.
pub open spec fn name_takes_value(name: Seq<char>) -> bool {
    ||| name == "regexp"@
    ||| name == "type"@
    ||| name == "type-not"@
    ||| name == "type-add"@
    ||| name == "type-clear"@
    ||| name == "glob"@
    ||| name == "iglob"@
    ||| name == "max-count"@
    ||| name == "max-depth"@
    ||| name == "maxdepth"@
    ||| name == "max-filesize"@
    ||| name == "max-columns"@
    ||| name == "after-context"@
    ||| name == "before-context"@
    ||| name == "context"@
    ||| name == "sort"@
    ||| name == "sortr"@
    ||| name == "color"@
    ||| name == "colors"@
    ||| name == "encoding"@
    ||| name == "threads"@
    ||| name == "field-match-separator"@
    ||| name == "field-context-separator"@
    ||| name == "context-separator"@
    ||| name == "path-separator"@
    ||| name == "line-separator"@
    ||| name == "ignore-file"@
    ||| name == "file"@
    ||| name == "replace"@
    ||| name == "pre"@
    ||| name == "pre-glob"@
    ||| name == "engine"@
    ||| name == "dfa-size-limit"@
    ||| name == "regex-size-limit"@
    ||| name == "hostname-bin"@
}

/// Short flags that take a value.
pub open spec fn letter_takes_value(c: char) -> bool {
    c == 'e' || c == 't' || c == 'T' || c == 'g' || c == 'm' || c == 'A' || c == 'B' || c == 'C'
        || c == 'M' || c == 'j' || c == 'f' || c == 'r' || c == 'E' || c == 'd'
}

/// Long flags, without their dashes, that choose how matches are printed. ripgrep lets each of
/// them win over `--json`.
pub open spec fn name_selects_output(name: Seq<char>) -> bool {
    ||| name == "count"@
    ||| name == "count-matches"@
    ||| name == "files-with-matches"@
    ||| name == "line-number"@
    ||| name == "no-line-number"@
    ||| name == "heading"@
    ||| name == "no-heading"@
    ||| name == "json"@
    ||| name == "files"@
    ||| name == "type-list"@
}

/// Short flags that choose how matches are printed.
pub open spec fn letter_selects_output(c: char) -> bool {
    c == 'c' || c == 'l' || c == 'n' || c == 'N'
}

/// Whether a long flag, without its dashes, has a meaning that ast-grep cannot reproduce.
pub fn unsupported_long(name: &str) -> (r: bool)
    ensures
        r == name_denied(name@),
{
    same_text(name, "invert-match")
        || same_text(name, "files-without-match")
        || same_text(name, "after-context")
        || same_text(name, "before-context")
        || same_text(name, "context")
        || same_text(name, "only-matching")
        || same_text(name, "max-count")
        || same_text(name, "ignore-case")
        || same_text(name, "smart-case")
        || same_text(name, "iglob")
        || same_text(name, "fixed-strings")
        || same_text(name, "replace")
        || same_text(name, "quiet")
        || same_text(name, "json")
        || same_text(name, "vimgrep")
        || same_text(name, "passthru")
}

/// Whether a short flag has a meaning that ast-grep cannot reproduce. Case matters: `-c` counts,
/// `-C` asks for context.
pub fn unsupported_short(c: char) -> (r: bool)
    ensures
        r == letter_denied(c),
{
    matches!(c, 'v' | 'A' | 'B' | 'C' | 'o' | 'm' | 'i' | 'S' | 'F' | 'r' | 'q')
}

/// Whether the value of a long flag, without its dashes, may stand in the next token.
pub fn long_takes_value(name: &str) -> (r: bool)
    ensures
        r == name_takes_value(name@),
{
    same_text(name, "regexp")
        || same_text(name, "type")
        || same_text(name, "type-not")
        || same_text(name, "type-add")
        || same_text(name, "type-clear")
        || same_text(name, "glob")
        || same_text(name, "iglob")
        || same_text(name, "max-count")
        || same_text(name, "max-depth")
        || same_text(name, "maxdepth")
        || same_text(name, "max-filesize")
        || same_text(name, "max-columns")
        || same_text(name, "after-context")
        || same_text(name, "before-context")
        || same_text(name, "context")
        || same_text(name, "sort")
        || same_text(name, "sortr")
        || same_text(name, "color")
        || same_text(name, "colors")
        || same_text(name, "encoding")
        || same_text(name, "threads")
        || same_text(name, "field-match-separator")
        || same_text(name, "field-context-separator")
        || same_text(name, "context-separator")
        || same_text(name, "path-separator")
        || same_text(name, "line-separator")
        || same_text(name, "ignore-file")
        || same_text(name, "file")
        || same_text(name, "replace")
        || same_text(name, "pre")
        || same_text(name, "pre-glob")
        || same_text(name, "engine")
        || same_text(name, "dfa-size-limit")
        || same_text(name, "regex-size-limit")
        || same_text(name, "hostname-bin")
}

/// Whether a short flag takes a value.
pub fn short_takes_value(c: char) -> (r: bool)
    ensures
        r == letter_takes_value(c),
{
    matches!(c, 'e' | 't' | 'T' | 'g' | 'm' | 'A' | 'B' | 'C' | 'M' | 'j' | 'f' | 'r' | 'E' | 'd')
}

/// Whether a long flag, without its dashes, chooses how matches are printed.
pub fn is_output_mode_long(name: &str) -> (r: bool)
    ensures
        r == name_selects_output(name@),
{
    same_text(name, "count")
        || same_text(name, "count-matches")
        || same_text(name, "files-with-matches")
        || same_text(name, "line-number")
        || same_text(name, "no-line-number")
        || same_text(name, "heading")
        || same_text(name, "no-heading")
        || same_text(name, "json")
        || same_text(name, "files")
        || same_text(name, "type-list")
}

/// Whether a short flag chooses how matches are printed.
pub fn is_output_mode_short(c: char) -> (r: bool)
    ensures
        r == letter_selects_output(c),
{
    matches!(c, 'c' | 'l' | 'n' | 'N')
}

} // verus!
