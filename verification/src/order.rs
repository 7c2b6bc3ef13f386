//! Texts in order: sorted lists without repetitions, and how often each text occurs.

use crate::text;
use vstd::prelude::*;

verus! {

/// Whether `a` comes before `b` in the order of a dictionary, by the numbers of the characters.
/// This is the order of the bytes in UTF-8.
pub open spec fn less(a: Seq<char>, b: Seq<char>) -> bool
    decreases a.len(),
{
    if b.len() == 0 {
        false
    } else if a.len() == 0 {
        true
    } else if a[0] == b[0] {
        less(a.drop_first(), b.drop_first())
    } else {
        a[0] < b[0]
    }
}

/// Whether each text of a list comes before those behind it.
pub open spec fn increasing(list: Seq<Seq<char>>) -> bool {
    forall|i: int, j: int| 0 <= i < j < list.len() ==> less(#[trigger] list[i], #[trigger] list[j])
}

/// The number of texts at the start of a list that come before `t`.
pub open spec fn place(list: Seq<Seq<char>>, t: Seq<char>) -> int
    decreases list.len(),
{
    if list.len() == 0 || !less(list[0], t) {
        0
    } else {
        1 + place(list.drop_first(), t)
    }
}

/// A sorted list with `t` put in its place, unless it stands there already.
pub open spec fn placed(list: Seq<Seq<char>>, t: Seq<char>) -> Seq<Seq<char>> {
    let p = place(list, t);
    if p < list.len() && list[p] == t {
        list
    } else {
        list.insert(p, t)
    }
}

/// The texts of a list in order, each of them once.
pub open spec fn sorted(list: Seq<Seq<char>>) -> Seq<Seq<char>>
    decreases list.len(),
{
    if list.len() == 0 {
        list
    } else {
        placed(sorted(list.drop_last()), list.last())
    }
}

/// How often a text occurs in a list.
pub open spec fn occurrences(list: Seq<Seq<char>>, t: Seq<char>) -> nat
    decreases list.len(),
{
    if list.len() == 0 {
        0
    } else {
        occurrences(list.drop_last(), t) + if list.last() == t {
            1nat
        } else {
            0nat
        }
    }
}

/// No text comes before itself.
pub proof fn less_irreflexive(a: Seq<char>)
    ensures
        !less(a, a),
    decreases a.len(),
{
    if a.len() > 0 {
        less_irreflexive(a.drop_first());
    }
}

/// Of two different texts one comes before the other.
pub proof fn less_total(a: Seq<char>, b: Seq<char>)
    ensures
        a == b || less(a, b) || less(b, a),
        !(less(a, b) && less(b, a)),
    decreases a.len(),
{
    if a.len() == 0 || b.len() == 0 {
        if a.len() == 0 && b.len() == 0 {
            assert(a =~= b);
        }
    } else if a[0] == b[0] {
        less_total(a.drop_first(), b.drop_first());
        if a.drop_first() == b.drop_first() {
            assert(a =~= seq![a[0]] + a.drop_first());
            assert(b =~= seq![b[0]] + b.drop_first());
        }
    }
}

/// What comes before a text comes before everything behind it.
pub proof fn less_transitive(a: Seq<char>, b: Seq<char>, c: Seq<char>)
    requires
        less(a, b),
        less(b, c),
    ensures
        less(a, c),
    decreases a.len(),
{
    if a.len() > 0 && a[0] == b[0] && b[0] == c[0] {
        less_transitive(a.drop_first(), b.drop_first(), c.drop_first());
    }
}

/// The place of a text in a sorted list parts the texts before it from the others.
pub proof fn lemma_place(list: Seq<Seq<char>>, t: Seq<char>)
    requires
        increasing(list),
    ensures
        0 <= place(list, t) <= list.len(),
        forall|i: int| 0 <= i < place(list, t) ==> less(#[trigger] list[i], t),
        forall|i: int| place(list, t) <= i < list.len() ==> !less(#[trigger] list[i], t),
    decreases list.len(),
{
    if list.len() > 0 {
        let rest = list.drop_first();
        if less(list[0], t) {
            assert(increasing(rest)) by {
                assert forall|i: int, j: int| 0 <= i < j < rest.len() implies less(
                    #[trigger] rest[i],
                    #[trigger] rest[j],
                ) by {
                    assert(less(list[i + 1], list[j + 1]));
                }
            }
            lemma_place(rest, t);
            assert forall|i: int| 0 <= i < place(list, t) implies less(#[trigger] list[i], t) by {
                if i > 0 {
                    assert(rest[i - 1] == list[i]);
                }
            }
            assert forall|i: int| place(list, t) <= i < list.len() implies !less(
                #[trigger] list[i],
                t,
            ) by {
                assert(rest[i - 1] == list[i]);
            }
        } else {
            assert forall|i: int| 0 <= i < list.len() implies !less(#[trigger] list[i], t) by {
                if i > 0 && less(list[i], t) {
                    less_transitive(list[0], list[i], t);
                }
            }
        }
    }
}

/// The place of a text in a sorted list is the only one that parts it so.
pub proof fn lemma_place_unique(list: Seq<Seq<char>>, t: Seq<char>, p: int)
    requires
        increasing(list),
        0 <= p <= list.len(),
        forall|i: int| 0 <= i < p ==> less(#[trigger] list[i], t),
        forall|i: int| p <= i < list.len() ==> !less(#[trigger] list[i], t),
    ensures
        place(list, t) == p,
{
    lemma_place(list, t);
    let q = place(list, t);
    if q < p {
        assert(less(list[q], t));
    } else if p < q {
        assert(less(list[p], t));
    }
}

/// Putting a text in its place keeps a list sorted, and adds that text and no other.
pub proof fn lemma_placed(list: Seq<Seq<char>>, t: Seq<char>)
    requires
        increasing(list),
    ensures
        increasing(placed(list, t)),
        forall|s: Seq<char>| #[trigger]
            placed(list, t).contains(s) <==> list.contains(s) || s == t,
{
    lemma_place(list, t);
    let p = place(list, t);
    let out = placed(list, t);
    if p < list.len() && list[p] == t {
        assert(list.contains(t));
    } else {
        assert(out == list.insert(p, t));
        assert forall|i: int| p <= i < list.len() implies less(t, #[trigger] list[i]) by {
            less_total(list[i], t);
            if list[i] == t {
                if i > p {
                    assert(less(list[p], list[i]));
                }
            }
        }
        assert forall|i: int, j: int| 0 <= i < j < out.len() implies less(
            #[trigger] out[i],
            #[trigger] out[j],
        ) by {
            if i < p {
                assert(out[i] == list[i]);
            } else if i > p {
                assert(out[i] == list[i - 1]);
            }
            if j < p {
                assert(out[j] == list[j]);
            } else if j > p {
                assert(out[j] == list[j - 1]);
            }
        }
        assert forall|s: Seq<char>| #[trigger] out.contains(s) <==> list.contains(s) || s == t by {
            if list.contains(s) {
                let k = choose|k: int| 0 <= k < list.len() && list[k] == s;
                if k < p {
                    assert(out[k] == s);
                } else {
                    assert(out[k + 1] == s);
                }
            }
            if s == t {
                assert(out[p] == t);
            }
            if out.contains(s) {
                let k = choose|k: int| 0 <= k < out.len() && out[k] == s;
                if k < p {
                    assert(list[k] == s);
                } else if k > p {
                    assert(list[k - 1] == s);
                }
            }
        }
    }
}

/// A sorted list holds a text where it has its place.
pub proof fn lemma_held(list: Seq<Seq<char>>, t: Seq<char>)
    requires
        increasing(list),
    ensures
        list.contains(t) <==> place(list, t) < list.len() && list[place(list, t)] == t,
        forall|i: int| 0 <= i < list.len() && #[trigger] list[i] == t ==> i == place(list, t),
{
    lemma_place(list, t);
    less_irreflexive(t);
    let p = place(list, t);
    assert forall|i: int| 0 <= i < list.len() && #[trigger] list[i] == t implies i == p by {
        if i < p {
            assert(less(list[i], t));
        } else if i > p {
            assert(less(list[p], list[i]));
        }
    }
}

/// The sorted list is in order, and holds the texts of the list and no others.
pub proof fn sorted_is_sorted(list: Seq<Seq<char>>)
    ensures
        increasing(sorted(list)),
        forall|s: Seq<char>| #[trigger] sorted(list).contains(s) <==> list.contains(s),
    decreases list.len(),
{
    if list.len() > 0 {
        let shorter = list.drop_last();
        sorted_is_sorted(shorter);
        lemma_placed(sorted(shorter), list.last());
        assert forall|s: Seq<char>| #[trigger] sorted(list).contains(s) <==> list.contains(s) by {
            if shorter.contains(s) {
                let k = choose|k: int| 0 <= k < shorter.len() && shorter[k] == s;
                assert(list[k] == s);
            }
            if s == list.last() {
                assert(list[list.len() - 1] == s);
            }
            if list.contains(s) {
                let k = choose|k: int| 0 <= k < list.len() && list[k] == s;
                if k < list.len() - 1 {
                    assert(shorter[k] == s);
                }
            }
            assert(sorted(shorter).contains(s) <==> shorter.contains(s));
        }
    }
}

/// Whether `a` comes before `b`.
pub fn text_less(a: &str, b: &str) -> (r: bool)
    ensures
        r == less(a@, b@),
{
    let mut x = a.chars();
    let mut y = b.chars();
    let ghost mut n: int = 0;
    assert(a@.skip(0) == a@);
    assert(b@.skip(0) == b@);
    loop
        invariant
            0 <= n <= a@.len(),
            n <= b@.len(),
            less(a@, b@) == less(a@.skip(n), b@.skip(n)),
            vstd::std_specs::iter::IteratorSpec::remaining(&x) == a@.skip(n),
            vstd::std_specs::iter::IteratorSpec::remaining(&y) == b@.skip(n),
        decreases a@.len() - n,
    {
        match (x.next(), y.next()) {
            (_, None) => {
                return false;
            },
            (None, Some(_)) => {
                return true;
            },
            (Some(c), Some(d)) => {
                assert(a@.skip(n)[0] == c);
                assert(b@.skip(n)[0] == d);
                if c != d {
                    return c < d;
                }
                proof {
                    assert(a@.skip(n).drop_first() == a@.skip(n + 1));
                    assert(b@.skip(n).drop_first() == b@.skip(n + 1));
                    n = n + 1;
                }
            },
        }
    }
}

/// The place of a text in a sorted list.
pub fn find_place(list: &Vec<String>, t: &str) -> (p: usize)
    requires
        increasing(text::texts(list@)),
    ensures
        p == place(text::texts(list@), t@),
        p <= list@.len(),
{
    let ghost all = text::texts(list@);
    let mut low: usize = 0;
    let mut high: usize = list.len();
    while low < high
        invariant
            all == text::texts(list@),
            increasing(all),
            low <= high <= list@.len(),
            forall|i: int| 0 <= i < low ==> less(#[trigger] all[i], t@),
            forall|i: int| high <= i < all.len() ==> !less(#[trigger] all[i], t@),
        decreases high - low,
    {
        let middle: usize = low + (high - low) / 2;
        assert(all[middle as int] == list@[middle as int]@);
        if text_less(list[middle].as_str(), t) {
            proof {
                assert forall|i: int| 0 <= i < middle + 1 implies less(#[trigger] all[i], t@) by {
                    if i < middle {
                        less_transitive(all[i], all[middle as int], t@);
                    }
                }
            }
            low = middle + 1;
        } else {
            proof {
                assert forall|i: int| middle <= i < all.len() implies !less(
                    #[trigger] all[i],
                    t@,
                ) by {
                    if i > middle && less(all[i], t@) {
                        less_transitive(all[middle as int], all[i], t@);
                    }
                }
            }
            high = middle;
        }
    }
    proof {
        lemma_place_unique(all, t@, low as int);
    }
    low
}

/// The texts of a list in order, each of them once.
pub fn sort_texts(list: &[String]) -> (r: Vec<String>)
    ensures
        text::texts(r@) == sorted(text::texts(list@)),
{
    let ghost all = text::texts(list@);
    let mut out: Vec<String> = Vec::new();
    let mut i: usize = 0;
    assert(text::texts(out@) =~= sorted(all.take(0)));
    while i < list.len()
        invariant
            all == text::texts(list@),
            i <= list@.len(),
            text::texts(out@) =~= sorted(all.take(i as int)),
        decreases list@.len() - i,
    {
        let ghost before = text::texts(out@);
        let ghost t = all[i as int];
        proof {
            sorted_is_sorted(all.take(i as int));
            assert(all.take(i + 1).drop_last() =~= all.take(i as int));
        }
        let p: usize = find_place(&out, list[i].as_str());
        if p == out.len() || !text::same_text(out[p].as_str(), list[i].as_str()) {
            out.insert(p, list[i].clone());
            assert(text::texts(out@) =~= before.insert(p as int, t));
        }
        i += 1;
    }
    assert(all.take(i as int) =~= all);
    out
}

/// The texts of a list in order, each with the number of times that it occurs.
pub open spec fn tallied(list: Seq<Seq<char>>) -> Seq<(Seq<char>, nat)> {
    Seq::new(
        sorted(list).len(),
        |i: int| (sorted(list)[i], occurrences(list, sorted(list)[i])),
    )
}

/// What a list of counted texts stands for.
pub open spec fn counts(list: Seq<(String, u64)>) -> Seq<(Seq<char>, nat)> {
    Seq::new(list.len(), |i: int| (list[i].0@, list[i].1 as nat))
}

/// A text occurs as often as a list holds it.
pub proof fn lemma_occurrences(list: Seq<Seq<char>>, t: Seq<char>)
    ensures
        occurrences(list, t) <= list.len(),
        occurrences(list, t) == 0 <==> !list.contains(t),
    decreases list.len(),
{
    if list.len() > 0 {
        let shorter = list.drop_last();
        lemma_occurrences(shorter, t);
        if shorter.contains(t) {
            let k = choose|k: int| 0 <= k < shorter.len() && shorter[k] == t;
            assert(list[k] == t);
        }
        if list.last() == t {
            assert(list[list.len() - 1] == t);
        }
        if list.contains(t) {
            let k = choose|k: int| 0 <= k < list.len() && list[k] == t;
            if k < list.len() - 1 {
                assert(shorter[k] == t);
            }
        }
    }
}

/// The texts of a list in order, each with the number of times that it occurs.
pub fn tally(list: &[String]) -> (r: Vec<(String, u64)>)
    ensures
        counts(r@) == tallied(text::texts(list@)),
{
    let ghost all = text::texts(list@);
    let mut out: Vec<(String, u64)> = Vec::new();
    let mut keys: Vec<String> = Vec::new();
    let mut numbers: Vec<u64> = Vec::new();
    let mut i: usize = 0;
    assert(text::texts(keys@) =~= sorted(all.take(0)));
    while i < list.len()
        invariant
            all == text::texts(list@),
            i <= list@.len(),
            text::texts(keys@) =~= sorted(all.take(i as int)),
            numbers@.len() == keys@.len(),
            forall|j: int|
                0 <= j < keys@.len() ==> #[trigger] numbers@[j] == occurrences(
                    all.take(i as int),
                    text::texts(keys@)[j],
                ),
        decreases list@.len() - i,
    {
        let ghost before = text::texts(keys@);
        let ghost had = numbers@;
        let ghost front = all.take(i as int);
        let ghost t = all[i as int];
        proof {
            sorted_is_sorted(front);
            assert(all.take(i + 1).drop_last() =~= front);
            lemma_occurrences(front, t);
            lemma_place(before, t);
        }
        let p: usize = find_place(&keys, list[i].as_str());
        if p == keys.len() || !text::same_text(keys[p].as_str(), list[i].as_str()) {
            proof {
                lemma_placed(before, t);
                assert(!before.contains(t)) by {
                    if before.contains(t) {
                        let k = choose|k: int| 0 <= k < before.len() && before[k] == t;
                        less_irreflexive(t);
                        if k > p {
                            assert(less(before[p as int], before[k]));
                        }
                    }
                }
                assert(sorted(front).contains(t) <==> front.contains(t));
            }
            keys.insert(p, list[i].clone());
            numbers.insert(p, 1);
            let ghost after = text::texts(keys@);
            assert(after =~= before.insert(p as int, t));
            assert forall|j: int| 0 <= j < keys@.len() implies #[trigger] numbers@[j]
                == occurrences(all.take(i + 1), after[j]) by {
                if j < p {
                    assert(numbers@[j] == had[j]);
                    assert(after[j] == before[j]);
                    assert(before.contains(before[j]));
                } else if j > p {
                    assert(numbers@[j] == had[j - 1]);
                    assert(after[j] == before[j - 1]);
                    assert(before.contains(before[j - 1]));
                }
            }
        } else {
            let n: u64 = numbers[p];
            assert(n == occurrences(front, before[p as int]));
            numbers.set(p, n + 1);
            assert forall|j: int| 0 <= j < keys@.len() implies #[trigger] numbers@[j]
                == occurrences(all.take(i + 1), before[j]) by {
                if j != p {
                    assert(numbers@[j] == had[j]);
                    if j < p {
                        assert(less(before[j], before[p as int]));
                    } else {
                        assert(less(before[p as int], before[j]));
                    }
                    less_irreflexive(t);
                }
            }
        }
        i += 1;
    }
    assert(all.take(i as int) =~= all);
    let mut j: usize = 0;
    while j < keys.len()
        invariant
            text::texts(keys@) =~= sorted(all),
            numbers@.len() == keys@.len(),
            forall|k: int|
                0 <= k < keys@.len() ==> #[trigger] numbers@[k] == occurrences(
                    all,
                    text::texts(keys@)[k],
                ),
            j <= keys@.len(),
            counts(out@) =~= tallied(all).take(j as int),
        decreases keys@.len() - j,
    {
        let ghost before = counts(out@);
        out.push((keys[j].clone(), numbers[j]));
        assert(text::texts(keys@)[j as int] == keys@[j as int]@);
        assert(counts(out@) =~= before.push(tallied(all)[j as int]));
        j += 1;
    }
    out
}

/// Two sorted lists of the same texts are the same.
proof fn lemma_increasing_unique(a: Seq<Seq<char>>, b: Seq<Seq<char>>)
    requires
        increasing(a),
        increasing(b),
        forall|s: Seq<char>| #[trigger] a.contains(s) <==> b.contains(s),
    ensures
        a == b,
    decreases a.len(),
{
    if a.len() == 0 {
        if b.len() > 0 {
            assert(b.contains(b[0]));
            assert(a.contains(b[0]));
        }
        assert(a =~= b);
    } else {
        assert(a.contains(a[0]));
        assert(b.contains(a[0]));
        let i = choose|i: int| 0 <= i < b.len() && b[i] == a[0];
        assert(b.contains(b[0]));
        assert(a.contains(b[0]));
        let j = choose|j: int| 0 <= j < a.len() && a[j] == b[0];
        less_total(a[0], b[0]);
        assert(a[0] == b[0]) by {
            if i > 0 && j > 0 {
                assert(less(b[0], b[i]));
                assert(less(a[0], a[j]));
            }
        }
        let x = a.drop_first();
        let y = b.drop_first();
        assert forall|s: Seq<char>| #[trigger] x.contains(s) <==> y.contains(s) by {
            lemma_tail_holds(a, s);
            lemma_tail_holds(b, s);
            assert(a.contains(s) <==> b.contains(s));
        }
        lemma_tail_increasing(a);
        lemma_tail_increasing(b);
        lemma_increasing_unique(x, y);
        assert(a =~= seq![a[0]] + x);
        assert(b =~= seq![b[0]] + y);
    }
}

proof fn lemma_tail_increasing(a: Seq<Seq<char>>)
    requires
        increasing(a),
        a.len() > 0,
    ensures
        increasing(a.drop_first()),
{
    let x = a.drop_first();
    assert forall|i: int, j: int| 0 <= i < j < x.len() implies less(
        #[trigger] x[i],
        #[trigger] x[j],
    ) by {
        assert(less(a[i + 1], a[j + 1]));
    }
}

proof fn lemma_tail_holds(a: Seq<Seq<char>>, s: Seq<char>)
    requires
        increasing(a),
        a.len() > 0,
    ensures
        a.drop_first().contains(s) <==> a.contains(s) && s != a[0],
{
    let x = a.drop_first();
    if x.contains(s) {
        let k = choose|k: int| 0 <= k < x.len() && x[k] == s;
        assert(a[k + 1] == s);
        less_irreflexive(s);
        assert(less(a[0], a[k + 1]));
    }
    if a.contains(s) && s != a[0] {
        let k = choose|k: int| 0 <= k < a.len() && a[k] == s;
        assert(x[k - 1] == s);
    }
}

/// The sorted list depends on which texts there are, and not on their order or number.
pub proof fn sorted_forgets_the_order(a: Seq<Seq<char>>, b: Seq<Seq<char>>)
    requires
        forall|s: Seq<char>| #[trigger] a.contains(s) <==> b.contains(s),
    ensures
        sorted(a) == sorted(b),
{
    sorted_is_sorted(a);
    sorted_is_sorted(b);
    assert forall|s: Seq<char>| #[trigger] sorted(a).contains(s) <==> sorted(b).contains(s) by {
        assert(a.contains(s) <==> b.contains(s));
    }
    lemma_increasing_unique(sorted(a), sorted(b));
}

/// The sum of some numbers.
pub open spec fn sum(entries: Seq<(Seq<char>, nat)>) -> nat
    decreases entries.len(),
{
    if entries.len() == 0 {
        0
    } else {
        sum(entries.drop_last()) + entries.last().1
    }
}

/// How often the texts of `keys` occur in a list, all together.
spec fn occurrences_of(keys: Seq<Seq<char>>, list: Seq<Seq<char>>) -> nat
    decreases keys.len(),
{
    if keys.len() == 0 {
        0
    } else {
        occurrences_of(keys.drop_last(), list) + occurrences(list, keys.last())
    }
}

proof fn lemma_sum_tallied(keys: Seq<Seq<char>>, list: Seq<Seq<char>>)
    ensures
        sum(Seq::new(keys.len(), |i: int| (keys[i], occurrences(list, keys[i]))))
            == occurrences_of(keys, list),
    decreases keys.len(),
{
    if keys.len() > 0 {
        let shorter = keys.drop_last();
        let all = Seq::new(keys.len(), |i: int| (keys[i], occurrences(list, keys[i])));
        lemma_sum_tallied(shorter, list);
        assert(all.drop_last() =~= Seq::new(
            shorter.len(),
            |i: int| (shorter[i], occurrences(list, shorter[i])),
        ));
    }
}

/// One more text counts once among different keys that hold it.
proof fn lemma_occurrences_of_push(keys: Seq<Seq<char>>, list: Seq<Seq<char>>)
    requires
        list.len() > 0,
        increasing(keys),
    ensures
        occurrences_of(keys, list) == occurrences_of(keys, list.drop_last()) + if keys.contains(
            list.last(),
        ) {
            1nat
        } else {
            0nat
        },
    decreases keys.len(),
{
    if keys.len() > 0 {
        let shorter = keys.drop_last();
        let t = list.last();
        assert(increasing(shorter)) by {
            assert forall|i: int, j: int| 0 <= i < j < shorter.len() implies less(
                #[trigger] shorter[i],
                #[trigger] shorter[j],
            ) by {
                assert(less(keys[i], keys[j]));
            }
        }
        lemma_occurrences_of_push(shorter, list);
        text::lemma_contains_last(keys, t);
        if keys.last() == t && shorter.contains(t) {
            let k = choose|k: int| 0 <= k < shorter.len() && shorter[k] == t;
            assert(less(keys[k], keys[keys.len() - 1]));
            less_irreflexive(t);
        }
    }
}

/// A key that does not occur adds nothing.
proof fn lemma_occurrences_of_insert(
    keys: Seq<Seq<char>>,
    p: int,
    t: Seq<char>,
    list: Seq<Seq<char>>,
)
    requires
        0 <= p <= keys.len(),
    ensures
        occurrences_of(keys.insert(p, t), list) == occurrences_of(keys, list) + occurrences(
            list,
            t,
        ),
    decreases keys.len(),
{
    let more = keys.insert(p, t);
    if p == keys.len() {
        assert(more.drop_last() =~= keys);
        assert(more.last() == t);
    } else {
        assert(more.drop_last() =~= keys.drop_last().insert(p, t));
        assert(more.last() == keys.last());
        lemma_occurrences_of_insert(keys.drop_last(), p, t, list);
    }
}

/// Every text of a list is counted once: the counts add up to the length of the list.
pub proof fn tally_adds_up(list: Seq<Seq<char>>)
    ensures
        sum(tallied(list)) == list.len(),
    decreases list.len(),
{
    let keys = sorted(list);
    sorted_is_sorted(list);
    lemma_sum_tallied(keys, list);
    if list.len() > 0 {
        let shorter = list.drop_last();
        let t = list.last();
        tally_adds_up(shorter);
        sorted_is_sorted(shorter);
        lemma_sum_tallied(sorted(shorter), shorter);
        lemma_occurrences_of_push(keys, list);
        text::lemma_contains_last(list, t);
        assert(keys.contains(t) <==> list.contains(t));
        let before = sorted(shorter);
        lemma_place(before, t);
        let p = place(before, t);
        if p < before.len() && before[p] == t {
            assert(keys == before);
        } else {
            lemma_occurrences_of_insert(before, p, t, shorter);
            lemma_occurrences(shorter, t);
            assert(!before.contains(t)) by {
                if before.contains(t) {
                    let k = choose|k: int| 0 <= k < before.len() && before[k] == t;
                    less_irreflexive(t);
                    if k > p {
                        assert(less(before[p], before[k]));
                    }
                }
            }
            assert(before.contains(t) <==> shorter.contains(t));
        }
    }
}

} // verus!
