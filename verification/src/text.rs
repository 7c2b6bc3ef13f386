//! Text as a sequence of characters: the searching, cutting and joining that the other modules
//! are stated in.

use vstd::prelude::*;
use vstd::string::*;

verus! {

/// The texts that a list of strings holds.
pub open spec fn texts(list: Seq<String>) -> Seq<Seq<char>> {
    Seq::new(list.len(), |i: int| list[i]@)
}

/// The text that an optional string holds.
pub open spec fn text_of(s: Option<String>) -> Option<Seq<char>> {
    match s {
        Some(t) => Some(t@),
        None => None,
    }
}

/// Where `c` first stands in `s`; the length of `s` where it does not occur.
pub open spec fn find(s: Seq<char>, c: char) -> int
    decreases s.len(),
{
    if s.len() == 0 || s[0] == c {
        0
    } else {
        1 + find(s.drop_first(), c)
    }
}

/// Whether `t` stands in `s`, in one piece.
pub open spec fn has_infix(s: Seq<char>, t: Seq<char>) -> bool {
    exists|i: int| 0 <= i <= s.len() - t.len() && #[trigger] s.subrange(i, i + t.len()) == t
}

/// Whether `s` begins with `t`.
pub open spec fn begins_with(s: Seq<char>, t: Seq<char>) -> bool {
    s.len() >= t.len() && s.take(t.len() as int) == t
}

/// The characters with the Unicode property `White_Space`.
pub open spec fn whitespace(c: char) -> bool {
    ||| 0x09 <= c as u32 <= 0x0d
    ||| c as u32 == 0x20
    ||| c as u32 == 0x85
    ||| c as u32 == 0xa0
    ||| c as u32 == 0x1680
    ||| 0x2000 <= c as u32 <= 0x200a
    ||| c as u32 == 0x2028
    ||| c as u32 == 0x2029
    ||| c as u32 == 0x202f
    ||| c as u32 == 0x205f
    ||| c as u32 == 0x3000
}

/// `s` without the white space before it.
pub open spec fn trim_start(s: Seq<char>) -> Seq<char>
    decreases s.len(),
{
    if s.len() > 0 && whitespace(s[0]) {
        trim_start(s.drop_first())
    } else {
        s
    }
}

/// `s` without the white space behind it.
pub open spec fn trim_end(s: Seq<char>) -> Seq<char>
    decreases s.len(),
{
    if s.len() > 0 && whitespace(s.last()) {
        trim_end(s.drop_last())
    } else {
        s
    }
}

/// `s` without the white space around it.
pub open spec fn trim(s: Seq<char>) -> Seq<char> {
    trim_end(trim_start(s))
}

/// `s` without the run of `c` at its end.
pub open spec fn strip_trailing(s: Seq<char>, c: char) -> Seq<char>
    decreases s.len(),
{
    if s.len() > 0 && s.last() == c {
        strip_trailing(s.drop_last(), c)
    } else {
        s
    }
}

/// The pieces of `s` between the occurrences of `c`. There is always at least one.
pub open spec fn split(s: Seq<char>, c: char) -> Seq<Seq<char>>
    decreases s.len(),
{
    if s.len() == 0 {
        seq![s]
    } else if s[0] == c {
        seq![Seq::<char>::empty()] + split(s.drop_first(), c)
    } else {
        let rest = split(s.drop_first(), c);
        rest.update(0, seq![s[0]] + rest[0])
    }
}

/// A line without the carriage return that a line feed behind it took as its own.
pub open spec fn chomp_return(line: Seq<char>) -> Seq<char> {
    if line.len() > 0 && line.last() == '\r' {
        line.drop_last()
    } else {
        line
    }
}

/// The lines of `s`. A line ends at a line feed, or at a carriage return and a line feed; the
/// last one needs no ending.
pub open spec fn lines(s: Seq<char>) -> Seq<Seq<char>>
    decreases s.len(),
    via lines_shrink
{
    if s.len() == 0 {
        Seq::empty()
    } else if find(s, '\n') == s.len() {
        seq![s]
    } else {
        seq![chomp_return(s.take(find(s, '\n')))] + lines(s.skip(find(s, '\n') + 1))
    }
}

#[via_fn]
proof fn lines_shrink(s: Seq<char>) {
    lemma_find(s, '\n');
}

/// The length of the run of characters at the start of `s` that are no white space.
pub open spec fn word_len(s: Seq<char>) -> int
    decreases s.len(),
{
    if s.len() == 0 || whitespace(s[0]) {
        0
    } else {
        1 + word_len(s.drop_first())
    }
}

/// The runs of characters in `s` that are no white space.
pub open spec fn words(s: Seq<char>) -> Seq<Seq<char>>
    decreases s.len(),
    via words_shrink
{
    let t = trim_start(s);
    if t.len() == 0 {
        Seq::empty()
    } else {
        seq![t.take(word_len(t))] + words(t.skip(word_len(t)))
    }
}

#[via_fn]
proof fn words_shrink(s: Seq<char>) {
    lemma_trim_start(s);
    lemma_word_len(trim_start(s));
}

/// `s` with every occurrence of `from` replaced by `to`, found from left to right.
pub open spec fn replaced(s: Seq<char>, from: Seq<char>, to: Seq<char>) -> Seq<char>
    decreases s.len(),
{
    if s.len() == 0 || from.len() == 0 {
        s
    } else if begins_with(s, from) {
        to + replaced(s.skip(from.len() as int), from, to)
    } else {
        seq![s[0]] + replaced(s.drop_first(), from, to)
    }
}

/// `s` without the occurrences of `c`.
pub open spec fn without(s: Seq<char>, c: char) -> Seq<char>
    decreases s.len(),
{
    if s.len() == 0 {
        s
    } else if s.last() == c {
        without(s.drop_last(), c)
    } else {
        without(s.drop_last(), c).push(s.last())
    }
}

/// The pieces of `list` one behind the other.
pub open spec fn concat(list: Seq<Seq<char>>) -> Seq<char>
    decreases list.len(),
{
    if list.len() == 0 {
        Seq::empty()
    } else {
        concat(list.drop_last()) + list.last()
    }
}

/// The pieces of `list` with `sep` between each two of them.
pub open spec fn join(list: Seq<Seq<char>>, sep: Seq<char>) -> Seq<char>
    decreases list.len(),
{
    if list.len() == 0 {
        Seq::empty()
    } else if list.len() == 1 {
        list[0]
    } else {
        join(list.drop_last(), sep) + sep + list.last()
    }
}

/// `find` gives the first place of the character.
pub proof fn lemma_find(s: Seq<char>, c: char)
    ensures
        0 <= find(s, c) <= s.len(),
        find(s, c) < s.len() ==> s[find(s, c)] == c,
        forall|j: int| 0 <= j < find(s, c) ==> s[j] != c,
    decreases s.len(),
{
    if s.len() > 0 && s[0] != c {
        lemma_find(s.drop_first(), c);
        assert forall|j: int| 0 <= j < find(s, c) implies s[j] != c by {
            if j > 0 {
                assert(s[j] == s.drop_first()[j - 1]);
            }
        }
    }
}

/// The first place of a character is the only one with no earlier one.
pub proof fn lemma_find_unique(s: Seq<char>, c: char, n: int)
    requires
        0 <= n <= s.len(),
        n < s.len() ==> s[n] == c,
        forall|j: int| 0 <= j < n ==> s[j] != c,
    ensures
        find(s, c) == n,
{
    lemma_find(s, c);
    let m = find(s, c);
    if m < n {
        assert(s[m] != c);
    } else if n < m {
        assert(s[n] != c);
    }
}

/// A character occurs exactly where `find` stops before the end.
pub proof fn lemma_find_contains(s: Seq<char>, c: char)
    ensures
        s.contains(c) <==> find(s, c) < s.len(),
{
    lemma_find(s, c);
    if s.contains(c) {
        let k = choose|k: int| 0 <= k < s.len() && s[k] == c;
        assert(k >= find(s, c));
    }
}

pub proof fn lemma_trim_start(s: Seq<char>)
    ensures
        trim_start(s).len() <= s.len(),
        trim_start(s) == s.skip(s.len() - trim_start(s).len()),
        trim_start(s).len() > 0 ==> !whitespace(trim_start(s)[0]),
        forall|j: int| 0 <= j < s.len() - trim_start(s).len() ==> whitespace(#[trigger] s[j]),
    decreases s.len(),
{
    if s.len() > 0 && whitespace(s[0]) {
        let t = s.drop_first();
        lemma_trim_start(t);
        assert(t.skip(t.len() - trim_start(t).len()) == s.skip(s.len() - trim_start(s).len()));
        assert forall|j: int| 0 <= j < s.len() - trim_start(s).len() implies whitespace(
            #[trigger] s[j],
        ) by {
            if j > 0 {
                assert(s[j] == t[j - 1]);
            }
        }
    } else {
        assert(s.skip(0) == s);
    }
}

pub proof fn lemma_word_len(s: Seq<char>)
    ensures
        0 <= word_len(s) <= s.len(),
        s.len() > 0 && !whitespace(s[0]) ==> word_len(s) > 0,
    decreases s.len(),
{
    if s.len() > 0 && !whitespace(s[0]) {
        lemma_word_len(s.drop_first());
    }
}

/// The pieces of a text, by the place of the first separator.
pub proof fn lemma_split(s: Seq<char>, c: char)
    ensures
        split(s, c).len() >= 1,
        split(s, c) == if find(s, c) == s.len() {
            seq![s]
        } else {
            seq![s.take(find(s, c))] + split(s.skip(find(s, c) + 1), c)
        },
    decreases s.len(),
{
    lemma_find(s, c);
    if s.len() == 0 {
    } else if s[0] == c {
        assert(s.take(0) == Seq::<char>::empty());
        assert(s.skip(1) == s.drop_first());
    } else {
        let t = s.drop_first();
        lemma_split(t, c);
        lemma_find(t, c);
        if find(t, c) == t.len() {
            assert(seq![s[0]] + t == s);
            assert(split(s, c) == seq![s]);
        } else {
            let n = find(t, c);
            assert(seq![s[0]] + t.take(n) == s.take(n + 1));
            assert(t.skip(n + 1) == s.skip(n + 2));
            assert(split(s, c) == seq![s.take(n + 1)] + split(s.skip(n + 2), c));
        }
    }
}

/// What a list holds is what stands last and what stands before.
pub proof fn lemma_contains_last<A>(list: Seq<A>, t: A)
    requires
        list.len() > 0,
    ensures
        list.contains(t) <==> list.drop_last().contains(t) || list.last() == t,
{
    if list.drop_last().contains(t) {
        let k = choose|k: int| 0 <= k < list.drop_last().len() && list.drop_last()[k] == t;
        assert(list[k] == t);
    }
    if list.last() == t {
        assert(list[list.len() - 1] == t);
    }
    if list.contains(t) {
        let k = choose|k: int| 0 <= k < list.len() && list[k] == t;
        if k < list.len() - 1 {
            assert(list.drop_last()[k] == t);
        }
    }
}

/// `String::push` appends one character.
pub assume_specification[ String::push ](s: &mut String, c: char)
    ensures
        final(s)@ == old(s)@.push(c),
;

/// The characters of a string, in order.
pub fn chars_of(s: &str) -> (r: Vec<char>)
    ensures
        r@ == s@,
{
    let mut out: Vec<char> = Vec::new();
    for c in it: s.chars()
        invariant
            out@ == it.seq().take(it.index()),
            it.seq() == s@,
    {
        out.push(c);
    }
    out
}

/// The string of the characters from `from` up to `to`.
pub fn string_between(chars: &Vec<char>, from: usize, to: usize) -> (r: String)
    requires
        from <= to <= chars@.len(),
    ensures
        r@ == chars@.subrange(from as int, to as int),
{
    let mut out = String::new();
    let mut i: usize = from;
    while i < to
        invariant
            from <= i <= to <= chars@.len(),
            out@ == chars@.subrange(from as int, i as int),
        decreases to - i,
    {
        out.push(chars[i]);
        i += 1;
    }
    out
}

/// The string of some characters.
pub fn string_of(chars: &Vec<char>) -> (r: String)
    ensures
        r@ == chars@,
{
    let out = string_between(chars, 0, chars.len());
    assert(chars@.subrange(0, chars@.len() as int) == chars@);
    out
}

/// Whether two texts are the same.
pub fn same_text(a: &str, b: &str) -> (r: bool)
    ensures
        r == (a@ == b@),
{
    let mut x = a.chars();
    let mut y = b.chars();
    let ghost mut n: int = 0;
    assert(a@.skip(0) == a@);
    assert(b@.skip(0) == b@);
    loop
        invariant
            0 <= n <= a@.len(),
            n <= b@.len(),
            a@.take(n) == b@.take(n),
            vstd::std_specs::iter::IteratorSpec::remaining(&x) == a@.skip(n),
            vstd::std_specs::iter::IteratorSpec::remaining(&y) == b@.skip(n),
        decreases a@.len() - n,
    {
        match (x.next(), y.next()) {
            (None, None) => {
                assert(a@.take(n) == a@);
                assert(b@.take(n) == b@);
                return true;
            },
            (Some(c), Some(d)) => {
                if c != d {
                    assert(a@.skip(n)[0] == a@[n]);
                    assert(b@.skip(n)[0] == b@[n]);
                    return false;
                }
                proof {
                    assert(a@.skip(n).drop_first() == a@.skip(n + 1));
                    assert(b@.skip(n).drop_first() == b@.skip(n + 1));
                    assert(a@.take(n + 1) == a@.take(n).push(a@[n]));
                    assert(b@.take(n + 1) == b@.take(n).push(b@[n]));
                    n = n + 1;
                }
            },
            _ => {
                assert(a@.len() != b@.len());
                return false;
            },
        }
    }
}

/// Whether a text is one of those in a list.
pub fn listed(list: &Vec<String>, s: &str) -> (r: bool)
    ensures
        r == texts(list@).contains(s@),
{
    let mut i: usize = 0;
    while i < list.len()
        invariant
            i <= list@.len(),
            forall|j: int| 0 <= j < i ==> list@[j]@ != s@,
        decreases list@.len() - i,
    {
        if same_text(list[i].as_str(), s) {
            assert(texts(list@)[i as int] == s@);
            return true;
        }
        i += 1;
    }
    assert forall|j: int| 0 <= j < texts(list@).len() implies texts(list@)[j] != s@ by {
        assert(list@[j]@ != s@);
    }
    false
}

/// A copy of a list of strings.
pub fn copy_strings(list: &[String]) -> (r: Vec<String>)
    ensures
        texts(r@) == texts(list@),
{
    let mut out: Vec<String> = Vec::new();
    let mut i: usize = 0;
    while i < list.len()
        invariant
            i <= list@.len(),
            texts(out@) =~= texts(list@).take(i as int),
        decreases list@.len() - i,
    {
        let ghost before = texts(out@);
        out.push(list[i].clone());
        assert(texts(out@) =~= before.push(list@[i as int]@));
        i += 1;
    }
    out
}

/// The strings of a list with `sep` between each two of them.
pub fn join_texts(list: &[String], sep: &str) -> (r: String)
    ensures
        r@ == join(texts(list@), sep@),
{
    let ghost all = texts(list@);
    let mut out = String::new();
    let mut i: usize = 0;
    assert(out@ =~= join(all.take(0), sep@));
    while i < list.len()
        invariant
            all == texts(list@),
            i <= list@.len(),
            out@ == join(all.take(i as int), sep@),
        decreases list@.len() - i,
    {
        let ghost before = out@;
        if i > 0 {
            out.append(sep);
        }
        out.append(list[i].as_str());
        assert(all.take(i + 1).drop_last() =~= all.take(i as int));
        assert(all.take(i + 1).last() == list@[i as int]@);
        if i == 0 {
            assert(out@ =~= all.take(1)[0]);
        }
        i += 1;
    }
    assert(all.take(i as int) =~= all);
    out
}

/// Whether a character is white space.
pub fn is_whitespace(c: char) -> (r: bool)
    ensures
        r == whitespace(c),
{
    let n: u32 = c as u32;
    (0x09 <= n && n <= 0x0d) || n == 0x20 || n == 0x85 || n == 0xa0 || n == 0x1680 || (0x2000 <= n
        && n <= 0x200a) || n == 0x2028 || n == 0x2029 || n == 0x202f || n == 0x205f || n == 0x3000
}

/// Where `c` first stands at or behind `from`; the number of characters where it does not.
pub fn find_from(chars: &Vec<char>, from: usize, c: char) -> (r: usize)
    requires
        from <= chars@.len(),
    ensures
        from <= r <= chars@.len(),
        r == from + find(chars@.skip(from as int), c),
{
    let mut i: usize = from;
    while i < chars.len() && chars[i] != c
        invariant
            from <= i <= chars@.len(),
            forall|j: int| from <= j < i ==> chars@[j] != c,
        decreases chars@.len() - i,
    {
        i += 1;
    }
    proof {
        let rest = chars@.skip(from as int);
        assert forall|j: int| 0 <= j < i - from implies rest[j] != c by {
            assert(rest[j] == chars@[j + from]);
        }
        lemma_find_unique(rest, c, i - from);
    }
    i
}

/// Whether a character occurs.
pub fn has_char(chars: &Vec<char>, c: char) -> (r: bool)
    ensures
        r == chars@.contains(c),
{
    let n: usize = find_from(chars, 0, c);
    proof {
        assert(chars@.skip(0) == chars@);
        lemma_find_contains(chars@, c);
    }
    n < chars.len()
}

/// Whether the characters of `t` stand in `chars` at `at`.
pub fn stands_at(chars: &Vec<char>, at: usize, t: &Vec<char>) -> (r: bool)
    requires
        at <= chars@.len(),
    ensures
        r == begins_with(chars@.skip(at as int), t@),
{
    let total: usize = chars.len();
    if t.len() > total - at {
        return false;
    }
    let ghost rest = chars@.skip(at as int);
    let mut i: usize = 0;
    while i < t.len()
        invariant
            total == chars@.len(),
            at <= total,
            i <= t@.len() <= total - at,
            rest == chars@.skip(at as int),
            forall|j: int| 0 <= j < i ==> #[trigger] rest[j] == t@[j],
        decreases t@.len() - i,
    {
        if chars[at + i] != t[i] {
            assert(rest[i as int] == chars@[at + i]);
            assert(rest.take(t@.len() as int)[i as int] != t@[i as int]);
            return false;
        }
        assert(rest[i as int] == chars@[at + i]);
        i += 1;
    }
    assert(rest.take(t@.len() as int) =~= t@);
    true
}

/// Whether the characters of `t` stand somewhere in `chars`, in one piece.
pub fn has_piece(chars: &Vec<char>, t: &str) -> (r: bool)
    ensures
        r == has_infix(chars@, t@),
{
    let piece: Vec<char> = chars_of(t);
    if piece.len() > chars.len() {
        return false;
    }
    let last: usize = chars.len() - piece.len();
    let mut i: usize = 0;
    while i <= last
        invariant
            piece@ == t@,
            piece@.len() <= chars@.len(),
            last == chars@.len() - piece@.len(),
            i <= last + 1,
            forall|j: int| 0 <= j < i ==> #[trigger] chars@.subrange(j, j + t@.len()) != t@,
        decreases last + 1 - i,
    {
        assert(chars@.skip(i as int).take(t@.len() as int) == chars@.subrange(
            i as int,
            i + t@.len(),
        ));
        if stands_at(chars, i, &piece) {
            return true;
        }
        if i == last {
            return false;
        }
        i += 1;
    }
    false
}

/// The text without the white space around it.
pub fn trimmed(chars: &Vec<char>) -> (r: Vec<char>)
    ensures
        r@ == trim(chars@),
{
    let mut from: usize = 0;
    assert(chars@.skip(0) == chars@);
    while from < chars.len() && is_whitespace(chars[from])
        invariant
            from <= chars@.len(),
            trim_start(chars@) == trim_start(chars@.skip(from as int)),
        decreases chars@.len() - from,
    {
        assert(chars@.skip(from as int).drop_first() == chars@.skip(from + 1));
        from += 1;
    }
    let ghost inner = chars@.skip(from as int);
    assert(trim_start(chars@) == inner);
    let mut to: usize = chars.len();
    assert(inner.take(inner.len() as int) == inner);
    while to > from && is_whitespace(chars[to - 1])
        invariant
            from <= to <= chars@.len(),
            inner == chars@.skip(from as int),
            trim_end(inner) == trim_end(inner.take(to - from)),
        decreases to - from,
    {
        let ghost t = inner.take(to - from);
        assert(t.last() == chars@[to - 1]);
        assert(t.drop_last() == inner.take(to - from - 1));
        to -= 1;
    }
    proof {
        let t = inner.take(to - from);
        if to > from {
            assert(t.last() == chars@[to - 1]);
        }
        assert(trim_end(inner) == t);
    }
    let mut out: Vec<char> = Vec::new();
    let mut i: usize = from;
    while i < to
        invariant
            from <= i <= to <= chars@.len(),
            inner == chars@.skip(from as int),
            out@ == inner.take(i - from),
        decreases to - i,
    {
        out.push(chars[i]);
        assert(inner.take(i - from + 1) == inner.take(i - from).push(chars@[i as int]));
        i += 1;
    }
    out
}

/// The text without the run of `c` at its end.
pub fn without_trailing(chars: &Vec<char>, c: char) -> (r: Vec<char>)
    ensures
        r@ == strip_trailing(chars@, c),
{
    let mut out: Vec<char> = chars.clone();
    assert(out@ =~= chars@);
    while out.len() > 0 && out[out.len() - 1] == c
        invariant
            strip_trailing(out@, c) == strip_trailing(chars@, c),
        decreases out@.len(),
    {
        assert(out@.last() == c);
        out.pop();
    }
    out
}

/// The text without the occurrences of `c`.
pub fn without_char(chars: &Vec<char>, c: char) -> (r: Vec<char>)
    ensures
        r@ == without(chars@, c),
{
    let mut out: Vec<char> = Vec::new();
    let mut i: usize = 0;
    while i < chars.len()
        invariant
            i <= chars@.len(),
            out@ == without(chars@.take(i as int), c),
        decreases chars@.len() - i,
    {
        assert(chars@.take(i + 1).drop_last() =~= chars@.take(i as int));
        if chars[i] != c {
            out.push(chars[i]);
        }
        i += 1;
    }
    assert(chars@.take(i as int) =~= chars@);
    out
}

/// The lines of a text.
pub fn split_lines(s: &str) -> (r: Vec<String>)
    ensures
        texts(r@) == lines(s@),
{
    let chars: Vec<char> = chars_of(s);
    let mut out: Vec<String> = Vec::new();
    let mut from: usize = 0;
    assert(chars@.skip(0) == chars@);
    while from < chars.len()
        invariant
            chars@ == s@,
            from <= chars@.len(),
            texts(out@) + lines(chars@.skip(from as int)) =~= lines(s@),
        decreases chars@.len() - from,
    {
        let ghost rest = chars@.skip(from as int);
        let ghost before = texts(out@);
        let at: usize = find_from(&chars, from, '\n');
        if at == chars.len() {
            out.push(string_between(&chars, from, at));
            assert(chars@.subrange(from as int, at as int) == rest);
            assert(texts(out@) =~= before.push(rest));
            assert(chars@.skip(at as int) =~= Seq::<char>::empty());
            from = at;
        } else {
            let ghost line = rest.take(at - from);
            assert(line == chars@.subrange(from as int, at as int));
            let to: usize = if at > from && chars[at - 1] == '\r' {
                assert(line.last() == '\r');
                at - 1
            } else {
                if at > from {
                    assert(line.last() == chars@[at - 1]);
                }
                at
            };
            out.push(string_between(&chars, from, to));
            assert(chars@.subrange(from as int, to as int) == chomp_return(line));
            assert(texts(out@) =~= before.push(chomp_return(line)));
            assert(rest.skip(at - from + 1) == chars@.skip(at + 1));
            from = at + 1;
        }
    }
    assert(chars@.skip(from as int) =~= Seq::<char>::empty());
    out
}

/// The pieces of a text between the occurrences of a character.
pub fn split_text(s: &str, c: char) -> (r: Vec<String>)
    ensures
        texts(r@) == split(s@, c),
{
    let chars: Vec<char> = chars_of(s);
    let mut out: Vec<String> = Vec::new();
    let mut from: usize = 0;
    assert(chars@.skip(0) == chars@);
    loop
        invariant
            chars@ == s@,
            from <= chars@.len(),
            texts(out@) + split(chars@.skip(from as int), c) =~= split(s@, c),
        decreases chars@.len() - from,
    {
        let ghost rest = chars@.skip(from as int);
        let ghost before = texts(out@);
        proof {
            lemma_split(rest, c);
        }
        let at: usize = find_from(&chars, from, c);
        assert(rest.take(at - from) == chars@.subrange(from as int, at as int));
        out.push(string_between(&chars, from, at));
        assert(texts(out@) =~= before.push(rest.take(at - from)));
        if at == chars.len() {
            assert(rest.take(at - from) == rest);
            return out;
        }
        assert(rest.skip(at - from + 1) == chars@.skip(at + 1));
        from = at + 1;
    }
}

/// The runs of characters in a text that are no white space.
pub fn split_words(chars: &Vec<char>) -> (r: Vec<String>)
    ensures
        texts(r@) == words(chars@),
{
    let mut out: Vec<String> = Vec::new();
    let mut from: usize = 0;
    assert(chars@.skip(0) == chars@);
    while from < chars.len()
        invariant
            from <= chars@.len(),
            texts(out@) + words(chars@.skip(from as int)) =~= words(chars@),
        decreases chars@.len() - from,
    {
        if is_whitespace(chars[from]) {
            let ghost rest = chars@.skip(from as int);
            assert(rest[0] == chars@[from as int]);
            assert(rest.drop_first() == chars@.skip(from + 1));
            assert(trim_start(rest) == trim_start(rest.drop_first()));
            from += 1;
        } else {
            let ghost rest = chars@.skip(from as int);
            let ghost before = texts(out@);
            assert(rest[0] == chars@[from as int]);
            assert(trim_start(rest) == rest);
            let mut to: usize = from;
            while to < chars.len() && !is_whitespace(chars[to])
                invariant
                    from <= to <= chars@.len(),
                    rest == chars@.skip(from as int),
                    word_len(rest) == to - from + word_len(chars@.skip(to as int)),
                decreases chars@.len() - to,
            {
                assert(chars@.skip(to as int)[0] == chars@[to as int]);
                assert(chars@.skip(to as int).drop_first() == chars@.skip(to + 1));
                to += 1;
            }
            proof {
                if to < chars@.len() {
                    assert(chars@.skip(to as int)[0] == chars@[to as int]);
                }
                lemma_word_len(rest);
                assert(word_len(rest) == to - from);
                assert(rest.take(to - from) == chars@.subrange(from as int, to as int));
                assert(rest.skip(to - from) == chars@.skip(to as int));
            }
            out.push(string_between(chars, from, to));
            assert(texts(out@) =~= before.push(rest.take(to - from)));
            from = to;
        }
    }
    assert(chars@.skip(from as int) =~= Seq::<char>::empty());
    out
}

/// The text with every occurrence of `from` replaced by `to`.
pub fn replace_all(s: &str, from: &str, to: &str) -> (r: String)
    requires
        from@.len() > 0,
    ensures
        r@ == replaced(s@, from@, to@),
{
    let chars: Vec<char> = chars_of(s);
    let wanted: Vec<char> = chars_of(from);
    let mut out = String::new();
    let mut i: usize = 0;
    assert(chars@.skip(0) == chars@);
    while i < chars.len()
        invariant
            chars@ == s@,
            wanted@ == from@,
            from@.len() > 0,
            i <= chars@.len(),
            out@ + replaced(chars@.skip(i as int), from@, to@) =~= replaced(s@, from@, to@),
        decreases chars@.len() - i,
    {
        let ghost rest = chars@.skip(i as int);
        if stands_at(&chars, i, &wanted) {
            out.append(to);
            assert(rest.skip(from@.len() as int) == chars@.skip(i + from@.len()));
            i += wanted.len();
        } else {
            out.push(chars[i]);
            assert(rest[0] == chars@[i as int]);
            assert(rest.drop_first() == chars@.skip(i + 1));
            i += 1;
        }
    }
    assert(chars@.skip(i as int) =~= Seq::<char>::empty());
    out
}

} // verus!
