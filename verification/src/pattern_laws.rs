//! What holds of every pattern.

use crate::chars;
use crate::pattern;
use crate::text;
use crate::text_laws;
use vstd::prelude::*;

verus! {

/// A text with a backslash in front of every character that is neither a letter nor a digit.
pub open spec fn escaped(t: Seq<char>) -> Seq<char>
    decreases t.len(),
{
    if t.len() == 0 {
        t
    } else if chars::alphanumeric(t[0]) {
        seq![t[0]] + escaped(t.drop_first())
    } else {
        seq!['\\', t[0]] + escaped(t.drop_first())
    }
}

/// Escaping every punctuation mark of a text gives a pattern for that text, whatever the text
/// holds.
pub proof fn escaping_is_undone(t: Seq<char>)
    ensures
        pattern::literal(escaped(t)) == Some(t),
    decreases t.len(),
{
    if t.len() > 0 {
        let rest = escaped(t.drop_first());
        escaping_is_undone(t.drop_first());
        assert(seq![t[0]] + t.drop_first() =~= t);
        if chars::alphanumeric(t[0]) {
            assert((seq![t[0]] + rest).skip(1) =~= rest);
        } else {
            assert((seq!['\\', t[0]] + rest).skip(2) =~= rest);
        }
    }
}

/// A literal beginning is read on its own.
proof fn lemma_literal_front(a: Seq<char>, b: Seq<char>)
    requires
        pattern::literal(a) is Some,
    ensures
        pattern::literal(a + b) == match pattern::literal(b) {
            Some(t) => Some(pattern::literal(a)->0 + t),
            None => None,
        },
    decreases a.len(),
{
    let whole = a + b;
    if a.len() == 0 {
        assert(whole =~= b);
        if pattern::literal(b) is Some {
            assert(a + pattern::literal(b)->0 =~= pattern::literal(b)->0);
        }
    } else {
        let n: int = if a[0] == '\\' {
            2
        } else {
            1
        };
        assert(whole[0] == a[0]);
        if n == 2 {
            assert(whole[1] == a[1]);
        }
        assert(whole.skip(n) =~= a.skip(n) + b);
        lemma_literal_front(a.skip(n), b);
        if pattern::literal(b) is Some {
            let t = pattern::literal(b)->0;
            let rest = pattern::literal(a.skip(n))->0;
            assert(seq![a[n - 1]] + (rest + t) =~= seq![a[n - 1]] + rest + t);
        }
    }
}

/// An unescaped metacharacter makes a pattern a regular expression, wherever it stands: such a
/// pattern is never a search for code.
pub proof fn metacharacters_are_never_structural(a: Seq<char>, c: char, b: Seq<char>)
    requires
        pattern::literal(a) is Some,
        pattern::metacharacter(c),
    ensures
        !pattern::structural(a + (seq![c] + b)),
{
    lemma_literal_front(a, seq![c] + b);
}

/// So does a backslash in front of a letter or a digit, which is an assertion or a class.
pub proof fn classes_are_never_structural(a: Seq<char>, c: char, b: Seq<char>)
    requires
        pattern::literal(a) is Some,
        chars::alphanumeric(c),
    ensures
        !pattern::structural(a + (seq!['\\', c] + b)),
{
    lemma_literal_front(a, seq!['\\', c] + b);
}

/// Escaping a character that needs no escape changes nothing: `foo(` and `foo\(` are the same
/// search.
pub proof fn escapes_change_nothing(a: Seq<char>, c: char, b: Seq<char>)
    requires
        pattern::literal(a) is Some,
        !pattern::metacharacter(c),
        !chars::alphanumeric(c),
        c != '\\',
    ensures
        pattern::literal(a + (seq!['\\', c] + b)) == pattern::literal(a + (seq![c] + b)),
        pattern::structural(a + (seq!['\\', c] + b)) == pattern::structural(a + (seq![c] + b)),
{
    lemma_literal_front(a, seq!['\\', c] + b);
    lemma_literal_front(a, seq![c] + b);
    assert((seq!['\\', c] + b).skip(2) =~= b);
    assert((seq![c] + b).skip(1) =~= b);
}

/// A character other than a backslash is never lost.
proof fn lemma_literal_keeps(p: Seq<char>, c: char)
    requires
        p.contains(c),
        c != '\\',
        pattern::literal(p) is Some,
    ensures
        (pattern::literal(p)->0).contains(c),
    decreases p.len(),
{
    let n: int = if p[0] == '\\' {
        2
    } else {
        1
    };
    let rest = p.skip(n);
    let t = pattern::literal(rest)->0;
    assert(pattern::literal(p)->0 == seq![p[n - 1]] + t);
    if p[n - 1] == c {
        assert((seq![p[n - 1]] + t)[0] == c);
    } else {
        let k = choose|k: int| 0 <= k < p.len() && p[k] == c;
        assert(rest[k - n] == c);
        lemma_literal_keeps(rest, c);
        let j = choose|j: int| 0 <= j < t.len() && t[j] == c;
        assert((seq![p[n - 1]] + t)[j + 1] == c);
    }
}

/// A pattern with a slash in it is never a search for code.
pub proof fn paths_are_never_structural(p: Seq<char>)
    requires
        p.contains('/'),
    ensures
        !pattern::structural(p),
{
    if pattern::literal(p) is Some {
        lemma_literal_keeps(p, '/');
    }
}

/// Whether a text is a name, possibly with dots in it.
pub open spec fn dotted_name(s: Seq<char>) -> bool {
    &&& s.len() > 0
    &&& forall|i: int|
        0 <= i < s.len() ==> (chars::name_char(#[trigger] s[i]) || s[i] == '.')
            && !text::whitespace(s[i])
}

proof fn lemma_name_literal(s: Seq<char>)
    requires
        forall|i: int| 0 <= i < s.len() ==> chars::name_char(#[trigger] s[i]) || s[i] == '.',
    ensures
        pattern::literal(s) == Some(s),
    decreases s.len(),
{
    if s.len() > 0 {
        assert(chars::name_char(s[0]) || s[0] == '.');
        assert forall|i: int| 0 <= i < s.skip(1).len() implies chars::name_char(
            #[trigger] s.skip(1)[i],
        ) || s.skip(1)[i] == '.' by {
            assert(s.skip(1)[i] == s[i + 1]);
        }
        lemma_name_literal(s.skip(1));
        assert(seq![s[0]] + s.skip(1) =~= s);
    }
}

proof fn lemma_without_none(s: Seq<char>, c: char)
    requires
        !s.contains(c),
    ensures
        text::without(s, c) == s,
    decreases s.len(),
{
    if s.len() > 0 {
        assert(s[s.len() - 1] == s.last());
        assert(!s.drop_last().contains(c)) by {
            if s.drop_last().contains(c) {
                let k = choose|k: int| 0 <= k < s.drop_last().len() && s.drop_last()[k] == c;
                assert(s[k] == c);
            }
        }
        lemma_without_none(s.drop_last(), c);
    }
}

proof fn lemma_trim_none(s: Seq<char>)
    requires
        s.len() > 0,
        !text::whitespace(s[0]),
        !text::whitespace(s.last()),
    ensures
        text::trim(s) == s,
{
}

proof fn lemma_one_word(s: Seq<char>)
    requires
        s.len() > 0,
        forall|i: int| 0 <= i < s.len() ==> !text::whitespace(#[trigger] s[i]),
    ensures
        text::word_len(s) == s.len(),
        text::words(s) == seq![s],
    decreases s.len(),
{
    assert(!text::whitespace(s[0]));
    let rest = s.drop_first();
    if rest.len() > 0 {
        assert forall|i: int| 0 <= i < rest.len() implies !text::whitespace(
            #[trigger] rest[i],
        ) by {
            assert(rest[i] == s[i + 1]);
        }
        lemma_one_word(rest);
    } else {
        assert(text::word_len(rest) == 0);
    }
    assert(text::word_len(s) == 1 + text::word_len(rest));
    assert(s.take(s.len() as int) =~= s);
    let none = s.skip(s.len() as int);
    assert(none.len() == 0);
    assert(text::trim_start(none) == none);
    assert(text::words(none) =~= Seq::<Seq<char>>::empty());
    assert(text::trim_start(s) == s);
    assert(text::words(s) =~= seq![s]);
}

/// A call of a name, with the parenthesis escaped or not, is always a search for code, and finds
/// the calls of that name with any arguments.
pub proof fn calls_are_structural(s: Seq<char>)
    requires
        dotted_name(s),
    ensures
        pattern::structural(s + "("@),
        pattern::structural(s + "\\("@),
        pattern::translation(s + "("@) == s + "($$$)"@,
        pattern::translation(s + "\\("@) == s + "($$$)"@,
{
    reveal_strlit("(");
    reveal_strlit("\\(");
    let call = s + "("@;
    let quoted = s + "\\("@;
    lemma_name_literal(s);
    assert(call =~= s + (seq!['('] + Seq::<char>::empty()));
    assert(quoted =~= s + (seq!['\\', '('] + Seq::<char>::empty()));
    escapes_change_nothing(s, '(', Seq::empty());
    lemma_literal_front(s, seq!['('] + Seq::<char>::empty());
    assert(pattern::literal(Seq::<char>::empty()) == Some(Seq::<char>::empty()));
    assert((seq!['('] + Seq::<char>::empty()).skip(1) =~= Seq::<char>::empty());
    assert(pattern::literal(call)->0 =~= call);
    assert(chars::name_char(s[0]) || s[0] == '.');
    assert(call[0] == s[0]);
    assert(call.last() == '(');
    lemma_trim_none(call);
    assert forall|c: char| !chars::name_char(c) && c != '.' && c != '(' implies !(
    #[trigger] call.contains(c)) by {
        if call.contains(c) {
            let k = choose|k: int| 0 <= k < call.len() && call[k] == c;
            if k < s.len() {
                assert(call[k] == s[k]);
            }
        }
    }
    assert(!call.contains('/'));
    assert(call[call.len() - 1] == '(');
    assert(call.contains('('));
    assert(!call.contains('|'));
    assert(!call.contains('['));
    // The same text is left without the backslash.
    assert(!call.contains('\\'));
    lemma_without_none(call, '\\');
    assert(quoted.drop_last() =~= s.push('\\'));
    assert(s.push('\\').drop_last() =~= s);
    assert(!s.contains('\\')) by {
        if s.contains('\\') {
            let k = choose|k: int| 0 <= k < s.len() && s[k] == '\\';
            assert(chars::name_char(s[k]) || s[k] == '.');
        }
    }
    lemma_without_none(s, '\\');
    assert(text::without(s.push('\\'), '\\') == s);
    assert(quoted.last() == '(');
    assert(text::without(quoted, '\\') =~= call);
    assert(call.drop_last() =~= s);
    lemma_one_word(s);
}

/// A name is its own translation.
pub proof fn names_translate_to_themselves(s: Seq<char>)
    requires
        dotted_name(s),
    ensures
        pattern::translation(s) == s,
{
    assert(!s.contains('\\')) by {
        if s.contains('\\') {
            let k = choose|k: int| 0 <= k < s.len() && s[k] == '\\';
            assert(chars::name_char(s[k]) || s[k] == '.');
        }
    }
    lemma_without_none(s, '\\');
    lemma_trim_none(s);
    assert(chars::name_char(s[s.len() - 1]) || s[s.len() - 1] == '.');
    assert(!s.contains(' ')) by {
        if s.contains(' ') {
            let k = choose|k: int| 0 <= k < s.len() && s[k] == ' ';
            assert(!text::whitespace(s[k]));
        }
    }
}

/// A pattern is read from front to back. `|`, `[`, `]`, `*`, `+`, `?`, `{`, `}`, `^` and `$` make it a
/// regular expression, and so does a backslash in front of a letter or a digit, or at the end; a
/// backslash in front of anything else stands for that character, and every other character stands
/// for itself.
pub proof fn patterns_are_read_from_the_front(c: char, rest: Seq<char>)
    ensures
        pattern::literal(seq![c] + rest) == if c == '|' || c == '[' || c == ']' || c == '*' || c
            == '+' || c == '?' || c == '{' || c == '}' || c == '^' || c == '$' {
            None
        } else if c == '\\' {
            if rest.len() == 0 || chars::alphanumeric(rest[0]) {
                None
            } else {
                match pattern::literal(rest.skip(1)) {
                    Some(t) => Some(seq![rest[0]] + t),
                    None => None,
                }
            }
        } else {
            match pattern::literal(rest) {
                Some(t) => Some(seq![c] + t),
                None => None,
            }
        },
        pattern::literal(Seq::empty()) == Some(Seq::<char>::empty()),
{
    let p = seq![c] + rest;
    assert(p[0] == c);
    assert(p.skip(1) =~= rest);
    if rest.len() > 0 {
        assert(p[1] == rest[0]);
        assert(p.skip(2) =~= rest.skip(1));
    }
}

/// A text without backslashes and without the characters that make a regular expression stands for
/// itself; one of those characters in it, and it is no search for code.
pub proof fn plain_text_stands_for_itself(t: Seq<char>, k: int)
    ensures
        (forall|i: int| 0 <= i < t.len() ==> {
            let c = #[trigger] t[i];
            c != '\\' && c != '|' && c != '[' && c != ']' && c != '*' && c != '+' && c != '?' && c
                != '{' && c != '}' && c != '^' && c != '$'
        }) ==> pattern::literal(t) == Some(t),
        0 <= k < t.len() && !t.contains('\\') && (t[k] == '|' || t[k] == '[' || t[k] == ']' || t[k]
            == '*' || t[k] == '+' || t[k] == '?' || t[k] == '{' || t[k] == '}' || t[k] == '^'
            || t[k] == '$') ==> pattern::literal(t) is None && !pattern::structural(t),
    decreases t.len(),
{
    if t.len() > 0 {
        let rest = t.skip(1);
        plain_text_stands_for_itself(rest, k - 1);
        assert(seq![t[0]] + rest =~= t);
        if forall|i: int| 0 <= i < t.len() ==> {
            let c = #[trigger] t[i];
            c != '\\' && c != '|' && c != '[' && c != ']' && c != '*' && c != '+' && c != '?' && c
                != '{' && c != '}' && c != '^' && c != '$'
        } {
            assert forall|i: int| 0 <= i < rest.len() implies {
                let c = #[trigger] rest[i];
                c != '\\' && c != '|' && c != '[' && c != ']' && c != '*' && c != '+' && c != '?' && c
                    != '{' && c != '}' && c != '^' && c != '$'
            } by {
                assert(rest[i] == t[i + 1]);
            }
            assert(t[0] != '\\');
        }
        if !t.contains('\\') {
            assert(t[0] != '\\') by {
                assert(t.contains(t[0]));
            }
            if rest.contains('\\') {
                let j = choose|j: int| 0 <= j < rest.len() && rest[j] == '\\';
                assert(t[j + 1] == '\\');
            }
            if 0 < k < t.len() {
                assert(rest[k - 1] == t[k]);
            }
        }
    }
}

/// What makes a literal text a search for code, by its characters without the white space around
/// them: it has no slash; it is more than one byte long; it holds an operator, or else no blank and
/// either an underscore or letters of both cases. An operator is a dot between two characters of a
/// name, `::`, `->` or a parenthesis. Where a parenthesis opens, one closes, or the text ends with
/// it, or `.(` stands in it; and a text without an operator is made of names, blanks and dots.
pub proof fn code_is_told_by_its_characters(p: Seq<char>, t: Seq<char>)
    requires
        pattern::literal(p) == Some(t),
    ensures
        ({
            let r = text::trim(t);
            let operator = {
                ||| exists|i: int|
                    0 < i < r.len() - 1 && #[trigger] r[i] == '.' && (chars::alphanumeric(r[i - 1])
                        || r[i - 1] == '_') && (chars::alphanumeric(r[i + 1]) || r[i + 1] == '_')
                ||| text::has_infix(r, "::"@)
                ||| text::has_infix(r, "->"@)
                ||| r.contains('(')
                ||| r.contains(')')
            };
            let mixed = (exists|i: int| 0 <= i < r.len() && chars::uppercase(#[trigger] r[i])) && (
            exists|i: int| 0 <= i < r.len() && chars::lowercase(#[trigger] r[i]));
            pattern::structural(p) <==> {
                &&& !t.contains('/')
                &&& r.len() > 1 || (r.len() == 1 && r[0] as u32 >= 0x80)
                &&& operator || (!r.contains(' ') && (r.contains('_') || mixed))
                &&& if r.contains('(') && !r.contains('|') && !r.contains('[') {
                    r.last() == '(' || r.contains(')') || text::has_infix(r, ".("@)
                } else {
                    operator || forall|i: int|
                        0 <= i < r.len() ==> chars::alphanumeric(#[trigger] r[i]) || r[i] == '_'
                            || r[i] == ' ' || r[i] == '.'
                }
            }
        }),
{
    let r = text::trim(t);
    let upper = |c: char| chars::uppercase(c);
    let lower = |c: char| chars::lowercase(c);
    let named = |c: char| chars::name_char(c) || c == ' ' || c == '.';
    assert((exists|i: int| 0 <= i < r.len() && chars::uppercase(#[trigger] r[i]))
        <==> pattern::some_char(r, upper)) by {
        if exists|i: int| 0 <= i < r.len() && chars::uppercase(#[trigger] r[i]) {
            let i = choose|i: int| 0 <= i < r.len() && chars::uppercase(#[trigger] r[i]);
            assert(upper(r[i]));
        }
        if pattern::some_char(r, upper) {
            let i = choose|i: int| 0 <= i < r.len() && upper(#[trigger] r[i]);
            assert(chars::uppercase(r[i]));
        }
    }
    assert((exists|i: int| 0 <= i < r.len() && chars::lowercase(#[trigger] r[i]))
        <==> pattern::some_char(r, lower)) by {
        if exists|i: int| 0 <= i < r.len() && chars::lowercase(#[trigger] r[i]) {
            let i = choose|i: int| 0 <= i < r.len() && chars::lowercase(#[trigger] r[i]);
            assert(lower(r[i]));
        }
        if pattern::some_char(r, lower) {
            let i = choose|i: int| 0 <= i < r.len() && lower(#[trigger] r[i]);
            assert(chars::lowercase(r[i]));
        }
    }
    assert((exists|i: int|
        0 < i < r.len() - 1 && #[trigger] r[i] == '.' && (chars::alphanumeric(r[i - 1]) || r[i - 1]
            == '_') && (chars::alphanumeric(r[i + 1]) || r[i + 1] == '_')) <==> exists|i: int|
        #[trigger] pattern::dot_inside(r, i)) by {
        if exists|i: int|
            0 < i < r.len() - 1 && #[trigger] r[i] == '.' && (chars::alphanumeric(r[i - 1]) || r[i
                - 1] == '_') && (chars::alphanumeric(r[i + 1]) || r[i + 1] == '_') {
            let i = choose|i: int|
                0 < i < r.len() - 1 && #[trigger] r[i] == '.' && (chars::alphanumeric(r[i - 1])
                    || r[i - 1] == '_') && (chars::alphanumeric(r[i + 1]) || r[i + 1] == '_');
            assert(pattern::dot_inside(r, i));
        }
        if exists|i: int| #[trigger] pattern::dot_inside(r, i) {
            let i = choose|i: int| #[trigger] pattern::dot_inside(r, i);
            assert(r[i] == '.');
        }
    }
    assert((forall|i: int|
        0 <= i < r.len() ==> chars::alphanumeric(#[trigger] r[i]) || r[i] == '_' || r[i] == ' '
            || r[i] == '.') <==> pattern::every_char(r, named)) by {
        if pattern::every_char(r, named) {
            assert forall|i: int| 0 <= i < r.len() implies chars::alphanumeric(#[trigger] r[i])
                || r[i] == '_' || r[i] == ' ' || r[i] == '.' by {
                assert(named(r[i]));
            }
        }
    }
}

/// A name, which stands for itself and has no white space around it.
proof fn lemma_name(s: Seq<char>)
    requires
        s.len() > 0,
        forall|k: int|
            0 <= k < s.len() ==> (chars::alphanumeric(#[trigger] s[k]) || s[k] == '_')
                && !text::whitespace(s[k]),
    ensures
        pattern::literal(s) == Some(s),
        text::trim(s) == s,
        forall|c: char|
            #[trigger] s.contains(c) ==> (chars::alphanumeric(c) || c == '_') && !text::whitespace(
                c,
            ),
{
    lemma_name_literal(s);
    assert(!text::whitespace(s[0]));
    assert(!text::whitespace(s[s.len() - 1]));
    lemma_trim_none(s);
    assert forall|c: char| #[trigger] s.contains(c) implies (chars::alphanumeric(c) || c == '_')
        && !text::whitespace(c) by {
        let k = choose|k: int| 0 <= k < s.len() && s[k] == c;
        assert(s[k] == c);
    }
}

/// A name with an upper-case letter at any place and a lower-case one at any place is a search for
/// code.
pub proof fn mixed_case_names_are_structural(s: Seq<char>, i: int, j: int)
    requires
        forall|k: int|
            0 <= k < s.len() ==> (chars::alphanumeric(#[trigger] s[k]) || s[k] == '_')
                && !text::whitespace(s[k]),
        0 <= i < s.len(),
        0 <= j < s.len(),
        chars::uppercase(s[i]),
        chars::lowercase(s[j]),
    ensures
        pattern::structural(s),
{
    lemma_name(s);
    code_is_told_by_its_characters(s, s);
    assert(s.len() > 1 || s[0] as u32 >= 0x80) by {
        if s.len() == 1 {
            assert(i == 0 && j == 0);
        }
    }
}

/// In ASCII: letters, digits and underscores with a letter from `A` to `Z` and one from `a` to `z`
/// among them, wherever they stand.
pub proof fn camel_case_is_structural(s: Seq<char>, i: int, j: int)
    requires
        forall|k: int|
            0 <= k < s.len() ==> 'a' <= #[trigger] s[k] <= 'z' || 'A' <= s[k] <= 'Z' || '0' <= s[k]
                <= '9' || s[k] == '_',
        0 <= i < s.len(),
        0 <= j < s.len(),
        'A' <= s[i] <= 'Z',
        'a' <= s[j] <= 'z',
    ensures
        pattern::structural(s),
{
    assert forall|k: int| 0 <= k < s.len() implies (chars::alphanumeric(#[trigger] s[k]) || s[k]
        == '_') && !text::whitespace(s[k]) by {}
    mixed_case_names_are_structural(s, i, j);
}

/// A name of more than one character with an underscore in it is a search for code.
pub proof fn snake_case_is_structural(s: Seq<char>, i: int)
    requires
        s.len() > 1,
        forall|k: int|
            0 <= k < s.len() ==> (chars::alphanumeric(#[trigger] s[k]) || s[k] == '_')
                && !text::whitespace(s[k]),
        0 <= i < s.len(),
        s[i] == '_',
    ensures
        pattern::structural(s),
{
    lemma_name(s);
    code_is_told_by_its_characters(s, s);
    assert(s.contains('_'));
}

/// A word of one case, without underscores, is plain text.
pub proof fn plain_words_are_not_structural(s: Seq<char>)
    requires
        forall|k: int|
            0 <= k < s.len() ==> chars::alphanumeric(#[trigger] s[k]) && !text::whitespace(s[k]),
        (forall|k: int| 0 <= k < s.len() ==> !chars::uppercase(#[trigger] s[k])) || (forall|k: int|
            0 <= k < s.len() ==> !chars::lowercase(#[trigger] s[k])),
    ensures
        !pattern::structural(s),
{
    if s.len() > 0 {
        lemma_name(s);
        code_is_told_by_its_characters(s, s);
        assert(!s.contains('_')) by {
            if s.contains('_') {
                let k = choose|k: int| 0 <= k < s.len() && s[k] == '_';
                assert(chars::alphanumeric(s[k]));
            }
        }
        assert forall|i: int| 0 < i < s.len() - 1 implies #[trigger] s[i] != '.' by {
            assert(chars::alphanumeric(s[i]));
        }
        lemma_no_infix(s, "::"@, ':');
        lemma_no_infix(s, "->"@, '-');
    } else {
        plain_text_stands_for_itself(s, 0);
        code_is_told_by_its_characters(s, s);
    }
}

/// A piece with a character that a text does not hold is not in the text.
proof fn lemma_no_infix(s: Seq<char>, t: Seq<char>, c: char)
    requires
        t == "::"@ && c == ':' || t == "->"@ && c == '-',
        !s.contains(c),
    ensures
        !text::has_infix(s, t),
{
    reveal_strlit("::");
    reveal_strlit("->");
    assert(t.len() == 2);
    assert(t[0] == c);
    if text::has_infix(s, t) {
        let i = choose|i: int|
            0 <= i <= s.len() - t.len() && #[trigger] s.subrange(i, i + t.len()) == t;
        assert(s.subrange(i, i + t.len())[0] == s[i]);
    }
}

/// Words with blanks between them, without a dot, a colon, a dash, a slash or a parenthesis, are
/// plain text, whatever their case.
pub proof fn prose_is_not_structural(s: Seq<char>)
    requires
        forall|k: int|
            0 <= k < s.len() ==> (chars::alphanumeric(#[trigger] s[k]) && !text::whitespace(s[k]))
                || s[k] == '_' || s[k] == ' ',
        s.len() > 0 && s[0] != ' ' && s.last() != ' ',
        s.contains(' '),
    ensures
        !pattern::structural(s),
{
    assert forall|k: int| 0 <= k < s.len() implies {
        let c = #[trigger] s[k];
        c != '\\' && c != '|' && c != '[' && c != ']' && c != '*' && c != '+' && c != '?' && c != '{'
            && c != '}' && c != '^' && c != '$' && c != '(' && c != ')' && c != ':' && c != '-' && c
            != '.'
    } by {
        assert(chars::alphanumeric(s[k]) || s[k] == '_' || s[k] == ' ');
    }
    plain_text_stands_for_itself(s, 0);
    assert(s[0] != ' ');
    assert(s[s.len() - 1] == s.last());
    lemma_trim_none(s);
    code_is_told_by_its_characters(s, s);
    assert forall|c: char| c == '(' || c == ')' || c == ':' || c == '-' implies !(
    #[trigger] s.contains(c)) by {
        if s.contains(c) {
            let k = choose|k: int| 0 <= k < s.len() && s[k] == c;
            assert(s[k] == c);
        }
    }
    lemma_no_infix(s, "::"@, ':');
    lemma_no_infix(s, "->"@, '-');
}

/// A dot between two characters of a name makes a name with dots a search for code, at whatever
/// place.
pub proof fn member_accesses_are_structural(s: Seq<char>, i: int)
    requires
        dotted_name(s),
        0 < i < s.len() - 1,
        s[i] == '.',
        s[i - 1] != '.',
        s[i + 1] != '.',
    ensures
        pattern::structural(s),
{
    lemma_name_literal(s);
    assert(chars::name_char(s[0]) || s[0] == '.');
    assert(chars::name_char(s[s.len() - 1]) || s[s.len() - 1] == '.');
    lemma_trim_none(s);
    code_is_told_by_its_characters(s, s);
    assert(chars::name_char(s[i - 1]) || s[i - 1] == '.');
    assert(chars::name_char(s[i + 1]) || s[i + 1] == '.');
    assert forall|c: char| c == '/' || c == '(' implies !(#[trigger] s.contains(c)) by {
        if s.contains(c) {
            let k = choose|k: int| 0 <= k < s.len() && s[k] == c;
            assert(chars::name_char(s[k]) || s[k] == '.');
        }
    }
}

/// Two names with `::` or `->` between them are a search for code.
pub proof fn qualified_names_are_structural(a: Seq<char>, sep: Seq<char>, b: Seq<char>)
    requires
        sep == seq![':', ':'] || sep == seq!['-', '>'],
        a.len() > 0,
        b.len() > 0,
        forall|k: int|
            0 <= k < a.len() ==> (chars::alphanumeric(#[trigger] a[k]) || a[k] == '_')
                && !text::whitespace(a[k]),
        forall|k: int|
            0 <= k < b.len() ==> (chars::alphanumeric(#[trigger] b[k]) || b[k] == '_')
                && !text::whitespace(b[k]),
    ensures
        pattern::structural(a + sep + b),
{
    let s = a + sep + b;
    reveal_strlit("::");
    reveal_strlit("->");
    assert("::"@ =~= seq![':', ':']);
    assert("->"@ =~= seq!['-', '>']);
    assert forall|k: int| 0 <= k < s.len() implies {
        let c = #[trigger] s[k];
        ((chars::alphanumeric(c) || c == '_') && !text::whitespace(c)) || c == ':' || c == '-' || c
            == '>'
    } by {
        if k < a.len() {
            assert(s[k] == a[k]);
        } else if k >= a.len() + 2 {
            assert(s[k] == b[k - a.len() - 2]);
        } else {
            assert(s[k] == sep[k - a.len()]);
        }
    }
    plain_text_stands_for_itself(s, 0);
    assert(s[0] == a[0]);
    assert(s[s.len() - 1] == b[b.len() - 1]);
    lemma_trim_none(s);
    code_is_told_by_its_characters(s, s);
    assert(s.subrange(a.len() as int, a.len() as int + sep.len()) =~= sep);
    assert(text::has_infix(s, sep));
    assert forall|c: char| c == '/' || c == '(' implies !(#[trigger] s.contains(c)) by {
        if s.contains(c) {
            let k = choose|k: int| 0 <= k < s.len() && s[k] == c;
            assert(s[k] == c);
        }
    }
}

/// A text is the head of a definition where one of its words, but not the last, is `fn`, `function`
/// or `func`.
pub proof fn definitions_have_a_keyword_and_a_name(s: Seq<char>)
    ensures
        pattern::definition(s) <==> exists|i: int|
            0 <= i < text::words(s).len() - 1 && (#[trigger] text::words(s)[i] == "fn"@
                || text::words(s)[i] == "function"@ || text::words(s)[i] == "func"@),
{
    if pattern::definition(s) {
        let i = choose|i: int|
            0 <= i < text::words(s).len() - 1 && pattern::definition_word(
                #[trigger] text::words(s)[i],
            );
        assert(text::words(s)[i] == "fn"@ || text::words(s)[i] == "function"@ || text::words(s)[i]
            == "func"@);
    }
    if exists|i: int|
        0 <= i < text::words(s).len() - 1 && (#[trigger] text::words(s)[i] == "fn"@ || text::words(
            s,
        )[i] == "function"@ || text::words(s)[i] == "func"@) {
        let i = choose|i: int|
            0 <= i < text::words(s).len() - 1 && (#[trigger] text::words(s)[i] == "fn"@
                || text::words(s)[i] == "function"@ || text::words(s)[i] == "func"@);
        assert(pattern::definition_word(text::words(s)[i]));
    }
}

/// How a pattern is written for ast-grep, by its text `r` without backslashes and without the white
/// space around it. A text that ends with an opening parenthesis loses it, and gets `($$$)` for it
/// unless it is the head of a definition. Names with blanks between them get
/// ` $$$($$$) { $$$ }` behind them. A name, with dots or without, is itself. Anything else is the
/// pattern as it was given.
pub proof fn translations_by_shape(p: Seq<char>, r: Seq<char>)
    requires
        r == text::trim(text::without(p, '\\')),
    ensures
        r.len() > 0 && r.last() == '(' && pattern::definition(r.drop_last())
            ==> pattern::translation(p) == r.drop_last(),
        r.len() > 0 && r.last() == '(' && !pattern::definition(r.drop_last())
            ==> pattern::translation(p) == r.drop_last() + seq!['(', '$', '$', '$', ')'],
        r.contains(' ') && (forall|k: int|
            0 <= k < r.len() ==> chars::alphanumeric(#[trigger] r[k]) || r[k] == '_' || r[k]
                == ' ') ==> pattern::translation(p) == r + " $$$($$$) { $$$ }"@,
        !r.contains(' ') && (forall|k: int|
            0 <= k < r.len() ==> chars::alphanumeric(#[trigger] r[k]) || r[k] == '_' || r[k]
                == '.') ==> pattern::translation(p) == r,
        r.len() > 0 && r.last() != '(' && (exists|k: int|
            0 <= k < r.len() && !chars::alphanumeric(#[trigger] r[k]) && r[k] != '_' && r[k] != ' '
                && r[k] != '.') ==> pattern::translation(p) == p,
        r.len() > 0 && r.last() != '(' && r.contains(' ') && r.contains('.')
            ==> pattern::translation(p) == p,
{
    reveal_strlit("($$$)");
    assert("($$$)"@ =~= seq!['(', '$', '$', '$', ')']);
    let plain = |c: char| chars::name_char(c) || c == ' ';
    let dotted = |c: char| chars::name_char(c) || c == '.';
    if forall|k: int|
        0 <= k < r.len() ==> chars::alphanumeric(#[trigger] r[k]) || r[k] == '_' || r[k] == ' ' {
        assert(pattern::every_char(r, plain));
        assert(r.len() > 0 ==> r[r.len() - 1] != '(');
    }
    if forall|k: int|
        0 <= k < r.len() ==> chars::alphanumeric(#[trigger] r[k]) || r[k] == '_' || r[k] == '.' {
        assert(pattern::every_char(r, dotted));
        assert(r.len() > 0 ==> r[r.len() - 1] != '(');
    }
    if exists|k: int|
        0 <= k < r.len() && !chars::alphanumeric(#[trigger] r[k]) && r[k] != '_' && r[k] != ' '
            && r[k] != '.' {
        let k = choose|k: int|
            0 <= k < r.len() && !chars::alphanumeric(#[trigger] r[k]) && r[k] != '_' && r[k] != ' '
                && r[k] != '.';
        assert(!plain(r[k]));
        assert(!dotted(r[k]));
    }
    if r.contains(' ') && r.contains('.') {
        let i = choose|i: int| 0 <= i < r.len() && r[i] == ' ';
        let j = choose|j: int| 0 <= j < r.len() && r[j] == '.';
        assert(!dotted(r[i]));
        assert(!plain(r[j]));
    }
}

/// A definition by its keyword and a name loses its parenthesis; behind any other word the
/// parenthesis takes any arguments.
pub proof fn definitions_lose_their_parenthesis(w: Seq<char>, name: Seq<char>)
    requires
        dotted_name(w),
        dotted_name(name),
    ensures
        ({
            let head = w + seq![' '] + name;
            pattern::translation(head + seq!['(']) == if w == "fn"@ || w == "function"@ || w
                == "func"@ {
                head
            } else {
                head + seq!['(', '$', '$', '$', ')']
            }
        }),
{
    let head = w + seq![' '] + name;
    let p = head + seq!['('];
    assert forall|c: char| c == '\\' implies !(#[trigger] p.contains(c)) by {
        if p.contains(c) {
            let k = choose|k: int| 0 <= k < p.len() && p[k] == c;
            if k < w.len() {
                assert(p[k] == w[k]);
            } else if w.len() < k < head.len() {
                assert(p[k] == name[k - w.len() - 1]);
            }
        }
    }
    assert(!p.contains('\\'));
    lemma_without_none(p, '\\');
    assert(p[0] == w[0]);
    assert(p.last() == '(');
    lemma_trim_none(p);
    translations_by_shape(p, p);
    assert(p.drop_last() =~= head);
    let none = Seq::<char>::empty();
    let rest = seq![' '] + name;
    text_laws::words_stand_between_white_space(none, w, rest);
    assert(none + w + rest =~= head);
    text_laws::words_stand_between_white_space(seq![' '], name, none);
    assert(seq![' '] + name + none =~= rest);
    text_laws::words_stand_between_white_space(none, none, none);
    assert(text::words(rest) =~= seq![name]);
    assert(text::words(head) =~= seq![w, name]);
    definitions_have_a_keyword_and_a_name(head);
    assert(text::words(head)[0] == w);
}

} // verus!
