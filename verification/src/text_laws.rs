//! What holds of every text that is searched, cut or joined.

use crate::text;
use vstd::prelude::*;

verus! {

/// The white space of Unicode: the blank, the controls from the tab to the carriage return, the
/// next line, and the blanks beyond ASCII.
pub proof fn white_space_is_unicodes(c: char)
    ensures
        text::whitespace(c) <==> {
            ||| c == ' ' || c == '\t' || c == '\n' || c == '\u{b}' || c == '\u{c}' || c == '\r'
            ||| c == '\u{85}' || c == '\u{a0}' || c == '\u{1680}'
            ||| '\u{2000}' <= c <= '\u{200a}'
            ||| c == '\u{2028}' || c == '\u{2029}' || c == '\u{202f}' || c == '\u{205f}'
            ||| c == '\u{3000}'
        },
{
}

/// A piece is found in every text that holds it, whatever stands before and behind it.
pub proof fn a_piece_is_found(a: Seq<char>, t: Seq<char>, b: Seq<char>)
    ensures
        text::has_infix(a + t + b, t),
{
    assert((a + t + b).subrange(a.len() as int, a.len() as int + t.len()) =~= t);
}

/// What is found in a text stands there, with something before it and something behind.
pub proof fn what_is_found_stands_there(s: Seq<char>, t: Seq<char>)
    requires
        text::has_infix(s, t),
    ensures
        exists|a: Seq<char>, b: Seq<char>| s == #[trigger] (a + t + b),
{
    let i = choose|i: int|
        0 <= i <= s.len() - t.len() && #[trigger] s.subrange(i, i + t.len()) == t;
    let a = s.take(i);
    let b = s.skip(i + t.len());
    assert(s =~= a + s.subrange(i, i + t.len()) + b);
    assert(s == a + t + b);
}

/// A text begins with another where it is that one and something behind it.
pub proof fn beginnings(s: Seq<char>, t: Seq<char>, b: Seq<char>)
    ensures
        text::begins_with(t + b, t),
        text::begins_with(s, t) ==> s == t + s.skip(t.len() as int),
{
    assert((t + b).take(t.len() as int) =~= t);
    if text::begins_with(s, t) {
        assert(s =~= s.take(t.len() as int) + s.skip(t.len() as int));
    }
}

proof fn lemma_trim_start_of(a: Seq<char>, m: Seq<char>)
    requires
        forall|i: int| 0 <= i < a.len() ==> text::whitespace(#[trigger] a[i]),
        m.len() > 0 ==> !text::whitespace(m[0]),
    ensures
        text::trim_start(a + m) == m,
    decreases a.len(),
{
    if a.len() == 0 {
        assert(a + m =~= m);
    } else {
        assert(text::whitespace(a[0]));
        assert((a + m).drop_first() =~= a.drop_first() + m);
        assert forall|i: int| 0 <= i < a.drop_first().len() implies text::whitespace(
            #[trigger] a.drop_first()[i],
        ) by {
            assert(text::whitespace(a[i + 1]));
        }
        lemma_trim_start_of(a.drop_first(), m);
    }
}

proof fn lemma_trim_end_of(m: Seq<char>, b: Seq<char>)
    requires
        forall|i: int| 0 <= i < b.len() ==> text::whitespace(#[trigger] b[i]),
        m.len() > 0 ==> !text::whitespace(m.last()),
    ensures
        text::trim_end(m + b) == m,
    decreases b.len(),
{
    if b.len() == 0 {
        assert(m + b =~= m);
    } else {
        assert(text::whitespace(b[b.len() - 1]));
        assert((m + b).drop_last() =~= m + b.drop_last());
        lemma_trim_end_of(m, b.drop_last());
    }
}

/// Trimming takes off all the white space before and behind a text, and nothing of the text.
pub proof fn trimming_leaves_the_text(a: Seq<char>, m: Seq<char>, b: Seq<char>)
    requires
        forall|i: int| 0 <= i < a.len() ==> text::whitespace(#[trigger] a[i]),
        forall|i: int| 0 <= i < b.len() ==> text::whitespace(#[trigger] b[i]),
        m.len() > 0 ==> !text::whitespace(m[0]) && !text::whitespace(m.last()),
    ensures
        text::trim(a + m + b) == m,
{
    if m.len() > 0 {
        assert((m + b)[0] == m[0]);
        assert(a + m + b =~= a + (m + b));
        lemma_trim_start_of(a, m + b);
        lemma_trim_end_of(m, b);
    } else {
        let all = a + m + b;
        assert forall|i: int| 0 <= i < all.len() implies text::whitespace(#[trigger] all[i]) by {
            if i < a.len() {
                assert(all[i] == a[i]);
            } else {
                assert(all[i] == b[i - a.len()]);
            }
        }
        assert(all =~= all + m);
        lemma_trim_start_of(all, m);
    }
}

/// Taking a character off the end takes off the whole run of it, and nothing before.
pub proof fn a_trailing_run_is_stripped(m: Seq<char>, b: Seq<char>, c: char)
    requires
        m.len() > 0 ==> m.last() != c,
        forall|i: int| 0 <= i < b.len() ==> #[trigger] b[i] == c,
    ensures
        text::strip_trailing(m + b, c) == m,
    decreases b.len(),
{
    if b.len() == 0 {
        assert(m + b =~= m);
    } else {
        assert(b[b.len() - 1] == c);
        assert((m + b).drop_last() =~= m + b.drop_last());
        a_trailing_run_is_stripped(m, b.drop_last(), c);
    }
}

proof fn lemma_join_front(p: Seq<char>, rest: Seq<Seq<char>>, sep: Seq<char>)
    requires
        rest.len() > 0,
    ensures
        text::join(seq![p] + rest, sep) == p + sep + text::join(rest, sep),
    decreases rest.len(),
{
    let all = seq![p] + rest;
    if rest.len() == 1 {
        assert(all.drop_last() =~= seq![p]);
        assert(text::join(seq![p], sep) == p);
    } else {
        assert(all.drop_last() =~= seq![p] + rest.drop_last());
        lemma_join_front(p, rest.drop_last(), sep);
        assert(p + sep + text::join(rest.drop_last(), sep) + sep + rest.last() =~= p + sep + (
        text::join(rest.drop_last(), sep) + sep + rest.last()));
    }
}

/// Splitting gives back what was joined: texts without a character, joined by it, are the pieces.
pub proof fn splitting_undoes_joining(pieces: Seq<Seq<char>>, c: char)
    requires
        pieces.len() > 0,
        forall|i: int| 0 <= i < pieces.len() ==> !(#[trigger] pieces[i]).contains(c),
    ensures
        text::split(text::join(pieces, seq![c]), c) == pieces,
    decreases pieces.len(),
{
    let p = pieces[0];
    let s = text::join(pieces, seq![c]);
    assert(!pieces[0].contains(c));
    if pieces.len() == 1 {
        text::lemma_find_contains(p, c);
        text::lemma_find(p, c);
        text::lemma_split(p, c);
        assert(pieces =~= seq![p]);
    } else {
        let rest = pieces.drop_first();
        assert(pieces =~= seq![p] + rest);
        lemma_join_front(p, rest, seq![c]);
        assert forall|i: int| 0 <= i < rest.len() implies !(#[trigger] rest[i]).contains(c) by {
            assert(!pieces[i + 1].contains(c));
        }
        splitting_undoes_joining(rest, c);
        assert forall|j: int| 0 <= j < p.len() implies s[j] != c by {
            assert(s[j] == p[j]);
            assert(p.contains(p[j]));
        }
        text::lemma_find_unique(s, c, p.len() as int);
        text::lemma_split(s, c);
        assert(s.take(p.len() as int) =~= p);
        assert(s.skip(p.len() as int + 1) =~= text::join(rest, seq![c]));
    }
}

/// Joining the pieces of a split text gives the text back.
pub proof fn joining_undoes_splitting(s: Seq<char>, c: char)
    ensures
        text::join(text::split(s, c), seq![c]) == s,
    decreases s.len(),
{
    text::lemma_find(s, c);
    text::lemma_split(s, c);
    let n = text::find(s, c);
    if n < s.len() {
        let rest = s.skip(n + 1);
        joining_undoes_splitting(rest, c);
        text::lemma_split(rest, c);
        lemma_join_front(s.take(n), text::split(rest, c), seq![c]);
        assert(s.take(n) + seq![c] + rest =~= s);
    }
}

/// A line ends at a line feed, with or without a carriage return before it; the last line needs no
/// ending, and is not cut. No text has no lines.
pub proof fn a_line_ends_at_its_feed(line: Seq<char>, rest: Seq<char>)
    requires
        !line.contains('\n'),
    ensures
        line.len() == 0 || line.last() != '\r' ==> text::lines(line + seq!['\n'] + rest)
            == seq![line] + text::lines(rest),
        text::lines(line + seq!['\r', '\n'] + rest) == seq![line] + text::lines(rest),
        line.len() > 0 ==> text::lines(line) == seq![line],
        text::lines(Seq::empty()) == Seq::<Seq<char>>::empty(),
{
    let plain = line + seq!['\n'] + rest;
    let returned = line + seq!['\r', '\n'] + rest;
    assert forall|j: int| 0 <= j < line.len() implies line[j] != '\n' by {
        assert(line.contains(line[j]));
    }
    text::lemma_find_unique(plain, '\n', line.len() as int);
    assert(plain.take(line.len() as int) =~= line);
    assert(plain.skip(line.len() as int + 1) =~= rest);
    text::lemma_find_unique(returned, '\n', line.len() as int + 1);
    assert(returned.take(line.len() as int + 1) =~= line.push('\r'));
    assert(line.push('\r').drop_last() =~= line);
    assert(returned.skip(line.len() as int + 2) =~= rest);
    text::lemma_find_unique(line, '\n', line.len() as int);
}

proof fn lemma_word_len_of(w: Seq<char>, rest: Seq<char>)
    requires
        forall|i: int| 0 <= i < w.len() ==> !text::whitespace(#[trigger] w[i]),
        rest.len() > 0 ==> text::whitespace(rest[0]),
    ensures
        text::word_len(w + rest) == w.len(),
    decreases w.len(),
{
    if w.len() == 0 {
        assert(w + rest =~= rest);
    } else {
        assert(!text::whitespace(w[0]));
        assert((w + rest).drop_first() =~= w.drop_first() + rest);
        assert forall|i: int| 0 <= i < w.drop_first().len() implies !text::whitespace(
            #[trigger] w.drop_first()[i],
        ) by {
            assert(!text::whitespace(w[i + 1]));
        }
        lemma_word_len_of(w.drop_first(), rest);
    }
}

/// The words of a text are the runs between its white space: the first run is the first word, and
/// the words behind it are those of the rest. White space alone has none.
pub proof fn words_stand_between_white_space(a: Seq<char>, w: Seq<char>, rest: Seq<char>)
    requires
        forall|i: int| 0 <= i < a.len() ==> text::whitespace(#[trigger] a[i]),
        forall|i: int| 0 <= i < w.len() ==> !text::whitespace(#[trigger] w[i]),
        rest.len() > 0 ==> text::whitespace(rest[0]),
    ensures
        w.len() > 0 ==> text::words(a + w + rest) == seq![w] + text::words(rest),
        text::words(a) == Seq::<Seq<char>>::empty(),
{
    if w.len() > 0 {
        assert(!text::whitespace(w[0]));
        assert((w + rest)[0] == w[0]);
        assert(a + w + rest =~= a + (w + rest));
        lemma_trim_start_of(a, w + rest);
        lemma_word_len_of(w, rest);
        assert((w + rest).take(w.len() as int) =~= w);
        assert((w + rest).skip(w.len() as int) =~= rest);
    }
    let none = Seq::<char>::empty();
    assert(a + none =~= a);
    lemma_trim_start_of(a, none);
}

/// Where a text first stands in another, it is replaced, and what stands before it stays.
pub proof fn the_first_occurrence_is_replaced(
    a: Seq<char>,
    from: Seq<char>,
    b: Seq<char>,
    to: Seq<char>,
)
    requires
        from.len() > 0,
        forall|i: int|
            0 <= i < a.len() ==> !text::begins_with(#[trigger] (a + from + b).skip(i), from),
    ensures
        text::replaced(a + from + b, from, to) == a + to + text::replaced(b, from, to),
    decreases a.len(),
{
    let s = a + from + b;
    if a.len() == 0 {
        assert(s =~= from + b);
        assert(s.take(from.len() as int) =~= from);
        assert(s.skip(from.len() as int) =~= b);
        assert(a + to =~= to);
    } else {
        assert(s.skip(0) =~= s);
        assert(!text::begins_with(s.skip(0), from));
        let rest = a.drop_first();
        assert(s.drop_first() =~= rest + from + b);
        assert forall|i: int| 0 <= i < rest.len() implies !text::begins_with(
            #[trigger] (rest + from + b).skip(i),
            from,
        ) by {
            assert((rest + from + b).skip(i) =~= s.skip(i + 1));
        }
        the_first_occurrence_is_replaced(rest, from, b, to);
        assert(seq![s[0]] + (rest + to + text::replaced(b, from, to)) =~= a + to + text::replaced(
            b,
            from,
            to,
        ));
    }
}

/// Where a text does not stand in another, nothing is replaced.
pub proof fn nothing_found_nothing_replaced(s: Seq<char>, from: Seq<char>, to: Seq<char>)
    requires
        from.len() > 0,
        !text::has_infix(s, from),
    ensures
        text::replaced(s, from, to) == s,
    decreases s.len(),
{
    if s.len() > 0 {
        if text::begins_with(s, from) {
            assert(s.subrange(0, 0int + from.len()) =~= s.take(from.len() as int));
        }
        let rest = s.drop_first();
        if text::has_infix(rest, from) {
            let i = choose|i: int|
                0 <= i <= rest.len() - from.len() && #[trigger] rest.subrange(i, i + from.len())
                    == from;
            assert(s.subrange(i + 1, i + 1 + from.len()) =~= rest.subrange(i, i + from.len()));
        }
        nothing_found_nothing_replaced(rest, from, to);
        assert(seq![s[0]] + rest =~= s);
    }
}

/// Taking a character out takes out that character wherever it stands, and no other.
pub proof fn one_character_is_taken_out(a: Seq<char>, b: Seq<char>, c: char, d: char)
    ensures
        text::without(a + b, c) == text::without(a, c) + text::without(b, c),
        text::without(seq![d], c) == if d == c {
            Seq::empty()
        } else {
            seq![d]
        },
        text::without(Seq::empty(), c) == Seq::<char>::empty(),
    decreases b.len(),
{
    assert(seq![d].drop_last() =~= Seq::<char>::empty());
    assert(text::without(Seq::<char>::empty(), c) == Seq::<char>::empty());
    assert(Seq::<char>::empty().push(d) =~= seq![d]);
    if b.len() == 0 {
        assert(a + b =~= a);
        assert(text::without(a, c) + text::without(b, c) =~= text::without(a, c));
    } else {
        one_character_is_taken_out(a, b.drop_last(), c, d);
        assert((a + b).drop_last() =~= a + b.drop_last());
        assert((text::without(a, c) + text::without(b.drop_last(), c)).push(b.last())
            =~= text::without(a, c) + text::without(b.drop_last(), c).push(b.last()));
    }
}

/// Texts one behind the other: those of a list, and then those of another.
pub proof fn texts_one_behind_the_other(a: Seq<Seq<char>>, b: Seq<Seq<char>>, t: Seq<char>)
    ensures
        text::concat(a + b) == text::concat(a) + text::concat(b),
        text::concat(seq![t]) == t,
        text::concat(Seq::empty()) == Seq::<char>::empty(),
    decreases b.len(),
{
    assert(seq![t].drop_last() =~= Seq::<Seq<char>>::empty());
    assert(text::concat(Seq::<Seq<char>>::empty()) == Seq::<char>::empty());
    assert(Seq::<char>::empty() + t =~= t);
    if b.len() == 0 {
        assert(a + b =~= a);
        assert(text::concat(a) + text::concat(b) =~= text::concat(a));
    } else {
        texts_one_behind_the_other(a, b.drop_last(), t);
        assert((a + b).drop_last() =~= a + b.drop_last());
        assert(text::concat(a) + text::concat(b.drop_last()) + b.last() =~= text::concat(a) + (
        text::concat(b.drop_last()) + b.last()));
    }
}

/// A separator stands between each two texts that are joined, and nowhere else.
pub proof fn separators_stand_between(list: Seq<Seq<char>>, t: Seq<char>, sep: Seq<char>)
    ensures
        text::join(list.push(t), sep) == if list.len() == 0 {
            t
        } else {
            text::join(list, sep) + sep + t
        },
        text::join(Seq::empty(), sep) == Seq::<char>::empty(),
{
    assert(list.push(t).drop_last() =~= list);
}

} // verus!
