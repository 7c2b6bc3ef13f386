//! What a search pattern is: a regular expression, plain text, or a piece of code.
//!
//! A pattern is worth ast-grep's help when it is literal text, possibly with escaped punctuation,
//! and the text looks like code. Such a pattern is then turned into one of ast-grep's.

use crate::chars;
use crate::chars::is_name_char;
use crate::text;
use crate::text::{
    chars_of, has_char, has_piece, same_text, split_words, string_between, string_of, trimmed,
    without_char,
};
use vstd::prelude::*;
use vstd::string::*;

verus! {

/// The characters that mean something in a regular expression when they stand unescaped. The
/// parentheses and the dot are not among them: they are taken for code.
pub open spec fn metacharacter(c: char) -> bool {
    ||| c == '|'
    ||| c == '['
    ||| c == ']'
    ||| c == '*'
    ||| c == '+'
    ||| c == '?'
    ||| c == '{'
    ||| c == '}'
    ||| c == '^'
    ||| c == '$'
}

/// The text that a pattern stands for, where its only syntax is escaped punctuation. A backslash
/// in front of a letter or a digit is an assertion or a class, and one at the end escapes nothing.
pub open spec fn literal(pattern: Seq<char>) -> Option<Seq<char>>
    decreases pattern.len(),
{
    if pattern.len() == 0 {
        Some(pattern)
    } else if pattern[0] == '\\' {
        if pattern.len() == 1 || chars::alphanumeric(pattern[1]) {
            None
        } else {
            match literal(pattern.skip(2)) {
                Some(t) => Some(seq![pattern[1]] + t),
                None => None,
            }
        }
    } else if metacharacter(pattern[0]) {
        None
    } else {
        match literal(pattern.skip(1)) {
            Some(t) => Some(seq![pattern[0]] + t),
            None => None,
        }
    }
}

/// Whether some character of a text is in a class.
pub open spec fn some_char(s: Seq<char>, class: spec_fn(char) -> bool) -> bool {
    exists|i: int| 0 <= i < s.len() && class(#[trigger] s[i])
}

/// Whether every character of a text is in a class.
pub open spec fn every_char(s: Seq<char>, class: spec_fn(char) -> bool) -> bool {
    forall|i: int| 0 <= i < s.len() ==> class(#[trigger] s[i])
}

/// Whether a dot stands between two characters of a name. A dot at either end is that of a file
/// name.
pub open spec fn dot_inside(s: Seq<char>, i: int) -> bool {
    0 < i < s.len() - 1 && s[i] == '.' && chars::name_char(s[i - 1]) && chars::name_char(s[i + 1])
}

/// Whether a text holds an operator of code: a dot inside a name, `::`, `->` or a parenthesis.
pub open spec fn has_operator(s: Seq<char>) -> bool {
    ||| exists|i: int| #[trigger] dot_inside(s, i)
    ||| text::has_infix(s, "::"@)
    ||| text::has_infix(s, "->"@)
    ||| s.contains('(')
    ||| s.contains(')')
}

/// Whether a text mixes upper and lower case.
pub open spec fn mixed_case(s: Seq<char>) -> bool {
    some_char(s, |c: char| chars::uppercase(c)) && some_char(s, |c: char| chars::lowercase(c))
}

/// Whether a text has more than one byte in UTF-8.
pub open spec fn has_two_bytes(s: Seq<char>) -> bool {
    s.len() > 1 || (s.len() == 1 && s[0] as u32 >= 0x80)
}

/// Whether a text without white space around it looks like code.
pub open spec fn code_like(raw: Seq<char>) -> bool {
    &&& has_two_bytes(raw)
    &&& has_operator(raw) || (!raw.contains(' ') && (mixed_case(raw) || raw.contains('_')))
    &&& if raw.contains('(') && !raw.contains('|') && !raw.contains('[') {
        raw.last() == '(' || text::has_infix(raw, ".("@) || raw.contains(')')
    } else {
        has_operator(raw) || every_char(
            raw,
            |c: char| chars::name_char(c) || c == ' ' || c == '.',
        )
    }
}

/// Whether a pattern is a search for code.
pub open spec fn structural(pattern: Seq<char>) -> bool {
    match literal(pattern) {
        Some(t) => !t.contains('/') && code_like(text::trim(t)),
        None => false,
    }
}

/// The words that introduce the definition of a function.
pub open spec fn definition_word(w: Seq<char>) -> bool {
    w == "fn"@ || w == "function"@ || w == "func"@
}

/// Whether a text is the head of a function's definition: the keyword and a name behind it.
pub open spec fn definition(s: Seq<char>) -> bool {
    exists|i: int|
        0 <= i < text::words(s).len() - 1 && definition_word(#[trigger] text::words(s)[i])
}

/// A pattern without its backslashes and without the white space around it.
pub open spec fn unescaped(pattern: Seq<char>) -> Seq<char> {
    text::trim(text::without(pattern, '\\'))
}

/// The ast-grep pattern for a search for code. A call takes any arguments. The head of a
/// definition stays without its parenthesis: ast-grep then finds the function whatever it returns.
pub open spec fn translation(pattern: Seq<char>) -> Seq<char> {
    let raw = unescaped(pattern);
    if raw.len() > 0 && raw.last() == '(' {
        if definition(raw.drop_last()) {
            raw.drop_last()
        } else {
            raw.drop_last() + "($$$)"@
        }
    } else if raw.contains(' ') && every_char(raw, |c: char| chars::name_char(c) || c == ' ') {
        raw + " $$$($$$) { $$$ }"@
    } else if every_char(raw, |c: char| chars::name_char(c) || c == '.') {
        raw
    } else {
        pattern
    }
}

/// Whether a character means something in a regular expression.
fn is_metacharacter(c: char) -> (r: bool)
    ensures
        r == metacharacter(c),
{
    c == '|' || c == '[' || c == ']' || c == '*' || c == '+' || c == '?' || c == '{' || c == '}'
        || c == '^' || c == '$'
}

/// The text that a pattern stands for; nothing where it is a regular expression.
pub fn literal_form(pattern: &str) -> (r: Option<String>)
    ensures
        text::text_of(r) == literal(pattern@),
{
    let chars: Vec<char> = chars_of(pattern);
    let mut out = String::new();
    let mut i: usize = 0;
    let total: usize = chars.len();
    assert(chars@.skip(0) =~= chars@);
    while i < total
        invariant
            total == chars@.len(),
            chars@ == pattern@,
            i <= total,
            literal(pattern@) == match literal(chars@.skip(i as int)) {
                Some(t) => Some(out@ + t),
                None => None,
            },
        decreases total - i,
    {
        let c: char = chars[i];
        let ghost rest = chars@.skip(i as int);
        let ghost had = out@;
        assert(rest[0] == c);
        if c == '\\' {
            if i + 1 == total {
                return None;
            }
            let n: char = chars[i + 1];
            assert(rest[1] == n);
            if n.is_alphanumeric() {
                return None;
            }
            out.push(n);
            assert(rest.skip(2) =~= chars@.skip(i + 2));
            assert(forall|t: Seq<char>| had + (seq![n] + t) =~= #[trigger] (out@ + t));
            i += 2;
        } else {
            if is_metacharacter(c) {
                return None;
            }
            out.push(c);
            assert(rest.skip(1) =~= chars@.skip(i + 1));
            assert(forall|t: Seq<char>| had + (seq![c] + t) =~= #[trigger] (out@ + t));
            i += 1;
        }
    }
    assert(chars@.skip(i as int) =~= Seq::<char>::empty());
    assert(out@ + Seq::<char>::empty() =~= out@);
    Some(out)
}

/// Whether a text mixes upper and lower case.
fn mixes_case(chars: &Vec<char>) -> (r: bool)
    ensures
        r == mixed_case(chars@),
{
    let mut upper = false;
    let mut lower = false;
    let mut i: usize = 0;
    while i < chars.len()
        invariant
            i <= chars@.len(),
            upper == some_char(chars@.take(i as int), |c: char| chars::uppercase(c)),
            lower == some_char(chars@.take(i as int), |c: char| chars::lowercase(c)),
        decreases chars@.len() - i,
    {
        let c: char = chars[i];
        proof {
            lemma_some_char_push(chars@.take(i as int), c, |c: char| chars::uppercase(c));
            lemma_some_char_push(chars@.take(i as int), c, |c: char| chars::lowercase(c));
            assert(chars@.take(i + 1) =~= chars@.take(i as int).push(c));
        }
        if c.is_uppercase() {
            upper = true;
        }
        if c.is_lowercase() {
            lower = true;
        }
        i += 1;
    }
    assert(chars@.take(i as int) =~= chars@);
    upper && lower
}

proof fn lemma_some_char_push(s: Seq<char>, c: char, class: spec_fn(char) -> bool)
    ensures
        some_char(s.push(c), class) <==> some_char(s, class) || class(c),
{
    if some_char(s, class) {
        let i = choose|i: int| 0 <= i < s.len() && class(#[trigger] s[i]);
        assert(class(s.push(c)[i]));
    }
    if class(c) {
        assert(class(s.push(c)[s.len() as int]));
    }
    if some_char(s.push(c), class) {
        let i = choose|i: int| 0 <= i < s.push(c).len() && class(#[trigger] s.push(c)[i]);
        if i < s.len() {
            assert(class(s[i]));
        }
    }
}

/// Whether a dot stands inside a name.
fn has_dot_inside(chars: &Vec<char>) -> (r: bool)
    ensures
        r == exists|i: int| #[trigger] dot_inside(chars@, i),
{
    let total: usize = chars.len();
    let mut i: usize = 1;
    while i < total && i + 1 < total
        invariant
            total == chars@.len(),
            1 <= i,
            total > 0 ==> i <= total,
            forall|j: int| 0 < j < i ==> !dot_inside(chars@, j),
        decreases total - i,
    {
        if chars[i] == '.' && is_name_char(chars[i - 1]) && is_name_char(chars[i + 1]) {
            assert(dot_inside(chars@, i as int));
            return true;
        }
        i += 1;
    }
    false
}

/// Whether a text holds an operator of code.
fn holds_operator(chars: &Vec<char>) -> (r: bool)
    ensures
        r == has_operator(chars@),
{
    has_dot_inside(chars) || has_piece(chars, "::") || has_piece(chars, "->") || has_char(
        chars,
        '(',
    ) || has_char(chars, ')')
}

/// Whether a text is made of names and of the two characters `a` and `b`.
fn is_names_with(chars: &Vec<char>, a: char, b: char) -> (r: bool)
    ensures
        r == every_char(chars@, |c: char| chars::name_char(c) || c == a || c == b),
{
    let mut i: usize = 0;
    while i < chars.len()
        invariant
            i <= chars@.len(),
            forall|j: int|
                0 <= j < i ==> chars::name_char(#[trigger] chars@[j]) || chars@[j] == a || chars@[j]
                    == b,
        decreases chars@.len() - i,
    {
        let c: char = chars[i];
        if !is_name_char(c) && c != a && c != b {
            let ghost class = |c: char| chars::name_char(c) || c == a || c == b;
            assert(!class(chars@[i as int]));
            return false;
        }
        i += 1;
    }
    true
}

/// Whether a text without white space around it looks like code.
fn looks_like_code(raw: &Vec<char>) -> (r: bool)
    ensures
        r == code_like(raw@),
{
    let total: usize = raw.len();
    if total == 0 || (total == 1 && (raw[0] as u32) < 0x80) {
        return false;
    }
    let operator = holds_operator(raw);
    if !operator && (has_char(raw, ' ') || !(mixes_case(raw) || has_char(raw, '_'))) {
        return false;
    }
    if has_char(raw, '(') && !has_char(raw, '|') && !has_char(raw, '[') {
        return raw[total - 1] == '(' || has_piece(raw, ".(") || has_char(raw, ')');
    }
    operator || is_names_with(raw, ' ', '.')
}

/// Whether a pattern is a search for code, which ast-grep can help to answer.
pub fn classify(pattern: &str) -> (r: bool)
    ensures
        r == structural(pattern@),
{
    match literal_form(pattern) {
        Some(text) => {
            let chars: Vec<char> = chars_of(text.as_str());
            !has_char(&chars, '/') && looks_like_code(&trimmed(&chars))
        },
        None => false,
    }
}

/// Whether a text, the part of a pattern before a parenthesis, is the head of a function's
/// definition and no call.
pub fn is_fn_definition(stripped: &str) -> (r: bool)
    ensures
        r == definition(stripped@),
{
    let words: Vec<String> = split_words(&chars_of(stripped));
    let total: usize = words.len();
    let mut i: usize = 0;
    while i < total && i + 1 < total
        invariant
            total == words@.len(),
            text::texts(words@) == text::words(stripped@),
            i <= total,
            forall|j: int|
                0 <= j < i ==> !definition_word(#[trigger] text::words(stripped@)[j]),
        decreases total - i,
    {
        let w: &str = words[i].as_str();
        assert(text::words(stripped@)[i as int] == w@);
        if same_text(w, "fn") || same_text(w, "function") || same_text(w, "func") {
            return true;
        }
        i += 1;
    }
    false
}

/// The ast-grep pattern for a search for code.
pub fn translate_pattern(pattern: &str) -> (r: String)
    ensures
        r@ == translation(pattern@),
{
    let raw: Vec<char> = trimmed(&without_char(&chars_of(pattern), '\\'));
    let total: usize = raw.len();
    if total > 0 && raw[total - 1] == '(' {
        let mut stripped: String = string_between(&raw, 0, total - 1);
        assert(stripped@ == raw@.drop_last());
        if !is_fn_definition(stripped.as_str()) {
            stripped.append("($$$)");
        }
        return stripped;
    }
    let ghost plain = |c: char| chars::name_char(c) || c == ' ' || c == ' ';
    let ghost dotted = |c: char| chars::name_char(c) || c == '.' || c == '.';
    assert(plain =~= (|c: char| chars::name_char(c) || c == ' '));
    assert(dotted =~= (|c: char| chars::name_char(c) || c == '.'));
    if has_char(&raw, ' ') && is_names_with(&raw, ' ', ' ') {
        let mut out: String = string_of(&raw);
        out.append(" $$$($$$) { $$$ }");
        return out;
    }
    if is_names_with(&raw, '.', '.') {
        return string_of(&raw);
    }
    pattern.to_string()
}

} // verus!
