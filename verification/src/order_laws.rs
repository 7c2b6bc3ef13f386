//! What holds of every order and every count.

use crate::order;
use crate::rank;
use crate::rank::Ranked;
use vstd::prelude::*;

verus! {

/// The order of a dictionary: a text comes before every longer one that begins with it, and of two
/// texts that differ after a common beginning the one with the smaller character comes first.
pub proof fn the_first_difference_decides(
    p: Seq<char>,
    c: char,
    d: char,
    x: Seq<char>,
    y: Seq<char>,
)
    ensures
        order::less(p, p + seq![c] + x),
        !order::less(p + seq![c] + x, p),
        c != d ==> (order::less(p + seq![c] + x, p + seq![d] + y) <==> c < d),
        !order::less(p, p),
    decreases p.len(),
{
    let a = p + seq![c] + x;
    let b = p + seq![d] + y;
    order::less_irreflexive(p);
    if p.len() == 0 {
        assert(a[0] == c);
        assert(b[0] == d);
    } else {
        let q = p.drop_first();
        the_first_difference_decides(q, c, d, x, y);
        assert(a.drop_first() =~= q + seq![c] + x);
        assert(b.drop_first() =~= q + seq![d] + y);
        assert(a[0] == p[0]);
        assert(b[0] == p[0]);
    }
}

/// A text occurs in a list as often as a count of the list's entries says.
pub proof fn occurrences_are_counted(list: Seq<Seq<char>>, t: Seq<char>)
    ensures
        order::occurrences(list, t) == list.to_multiset().count(t),
    decreases list.len(),
{
    list.to_multiset_ensures();
    if list.len() > 0 {
        let shorter = list.drop_last();
        occurrences_are_counted(shorter, t);
        shorter.to_multiset_ensures();
        assert(list =~= shorter.push(list.last()));
    }
}

/// A tally has one entry for each text of the list and for no other, in the order of the texts, and
/// each entry says how often its text occurs.
pub proof fn a_tally_counts_each_text_once(list: Seq<Seq<char>>)
    ensures
        ({
            let t = order::tallied(list);
            &&& forall|i: int, j: int|
                0 <= i < j < t.len() ==> order::less((#[trigger] t[i]).0, (#[trigger] t[j]).0)
            &&& forall|i: int|
                0 <= i < t.len() ==> list.contains((#[trigger] t[i]).0) && t[i].1
                    == list.to_multiset().count(t[i].0)
            &&& forall|s: Seq<char>| #[trigger]
                list.contains(s) ==> exists|i: int| 0 <= i < t.len() && (#[trigger] t[i]).0 == s
        }),
{
    let t = order::tallied(list);
    let names = order::sorted(list);
    order::sorted_is_sorted(list);
    assert forall|i: int, j: int| 0 <= i < j < t.len() implies order::less(
        (#[trigger] t[i]).0,
        (#[trigger] t[j]).0,
    ) by {
        assert(order::less(names[i], names[j]));
    }
    assert forall|i: int| 0 <= i < t.len() implies list.contains((#[trigger] t[i]).0) && t[i].1
        == list.to_multiset().count(t[i].0) by {
        assert(names.contains(names[i]));
        occurrences_are_counted(list, names[i]);
    }
    assert forall|s: Seq<char>| #[trigger] list.contains(s) implies exists|i: int|
        0 <= i < t.len() && (#[trigger] t[i]).0 == s by {
        assert(names.contains(s));
        let i = choose|i: int| 0 <= i < names.len() && names[i] == s;
        assert(t[i].0 == s);
    }
}

/// A sorted list holds each text once, and texts before one another as in a dictionary.
pub proof fn a_sorted_list_has_no_repetitions(list: Seq<Seq<char>>)
    ensures
        ({
            let s = order::sorted(list);
            &&& forall|i: int, j: int|
                0 <= i < j < s.len() ==> order::less(#[trigger] s[i], #[trigger] s[j])
            &&& forall|t: Seq<char>| #[trigger] s.contains(t) <==> list.contains(t)
        }),
{
    order::sorted_is_sorted(list);
}

/// Ranking keeps every entry as it is, and puts those that occur more often first; of those that
/// occur equally often, the one whose name, and then whose language, comes first in a dictionary.
pub proof fn the_most_frequent_come_first(list: Seq<Ranked>, i: int, j: int)
    requires
        0 <= i < j < rank::ranked(list).len(),
    ensures
        ({
            let a = rank::ranked(list)[i];
            let b = rank::ranked(list)[j];
            &&& a.count >= b.count
            &&& a.count == b.count ==> a.name == b.name || order::less(a.name, b.name)
            &&& a.count == b.count && a.name == b.name ==> a.lang == b.lang || order::less(
                a.lang,
                b.lang,
            )
        }),
        rank::ranked(list).to_multiset() == list.to_multiset(),
{
    rank::ranked_is_in_rank(list);
    let a = rank::ranked(list)[i];
    let b = rank::ranked(list)[j];
    assert(!rank::before(b, a));
    order::less_total(a.name, b.name);
    order::less_total(a.lang, b.lang);
}

/// Ranking repeats no entry: where the entries differ from one another, they still do.
pub proof fn ranking_repeats_nothing(list: Seq<Ranked>)
    requires
        list.no_duplicates(),
    ensures
        rank::ranked(list).no_duplicates(),
{
    rank::ranked_is_in_rank(list);
    list.lemma_multiset_has_no_duplicates();
    rank::ranked(list).lemma_multiset_has_no_duplicates_conv();
}

} // verus!
