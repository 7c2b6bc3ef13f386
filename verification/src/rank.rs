//! The most frequent first.

use crate::order;
use crate::order::text_less;
use crate::text::same_text;
use vstd::prelude::*;

verus! {

/// A text, the language that goes with it, and how often the two occur together.
#[verifier::ext_equal]
pub struct Ranked {
    pub name: Seq<char>,
    pub lang: Seq<char>,
    pub count: nat,
}

/// A pattern, a language in which it was found, and how often that happened.
#[derive(Debug)]
pub struct PatternStat {
    pub pattern: String,
    pub lang: String,
    pub count: u64,
}

impl View for PatternStat {
    type V = Ranked;

    open spec fn view(&self) -> Ranked {
        Ranked { name: self.pattern@, lang: self.lang@, count: self.count as nat }
    }
}

/// What a list of entries stands for.
pub open spec fn entries(list: Seq<PatternStat>) -> Seq<Ranked> {
    Seq::new(list.len(), |i: int| list[i]@)
}

/// Whether `a` ranks before `b`: it occurs more often, or as often and comes first in the order of
/// the names and then of the languages.
pub open spec fn before(a: Ranked, b: Ranked) -> bool {
    ||| a.count > b.count
    ||| a.count == b.count && order::less(a.name, b.name)
    ||| a.count == b.count && a.name == b.name && order::less(a.lang, b.lang)
}

/// The number of entries at the start of a list that `e` does not rank before.
pub open spec fn rank_place(list: Seq<Ranked>, e: Ranked) -> int
    decreases list.len(),
{
    if list.len() == 0 || before(e, list[0]) {
        0
    } else {
        1 + rank_place(list.drop_first(), e)
    }
}

/// The entries of a list by rank.
pub open spec fn ranked(list: Seq<Ranked>) -> Seq<Ranked>
    decreases list.len(),
{
    if list.len() == 0 {
        list
    } else {
        let front = ranked(list.drop_last());
        front.insert(rank_place(front, list.last()), list.last())
    }
}

/// Whether no entry of a list ranks before one in front of it.
pub open spec fn in_rank(list: Seq<Ranked>) -> bool {
    forall|i: int, j: int|
        0 <= i < j < list.len() ==> !before(#[trigger] list[j], #[trigger] list[i])
}

proof fn lemma_rank_place(list: Seq<Ranked>, e: Ranked)
    ensures
        0 <= rank_place(list, e) <= list.len(),
        forall|i: int| 0 <= i < rank_place(list, e) ==> !before(e, #[trigger] list[i]),
        rank_place(list, e) < list.len() ==> before(e, list[rank_place(list, e)]),
    decreases list.len(),
{
    if list.len() > 0 && !before(e, list[0]) {
        let rest = list.drop_first();
        lemma_rank_place(rest, e);
        assert forall|i: int| 0 <= i < rank_place(list, e) implies !before(
            e,
            #[trigger] list[i],
        ) by {
            if i > 0 {
                assert(rest[i - 1] == list[i]);
            }
        }
    }
}

proof fn lemma_rank_place_unique(list: Seq<Ranked>, e: Ranked, p: int)
    requires
        0 <= p <= list.len(),
        forall|i: int| 0 <= i < p ==> !before(e, #[trigger] list[i]),
        p < list.len() ==> before(e, list[p]),
    ensures
        rank_place(list, e) == p,
{
    lemma_rank_place(list, e);
    let q = rank_place(list, e);
    if q < p {
        assert(!before(e, list[q]));
    } else if p < q {
        assert(!before(e, list[p]));
    }
}

/// Of two entries at most one ranks before the other, and what ranks before one ranks before all
/// that it ranks before.
proof fn lemma_before(a: Ranked, b: Ranked, c: Ranked)
    ensures
        !(before(a, b) && before(b, a)),
        before(a, b) && before(b, c) ==> before(a, c),
{
    order::less_total(a.name, b.name);
    order::less_total(a.lang, b.lang);
    order::less_irreflexive(a.name);
    order::less_irreflexive(a.lang);
    if before(a, b) && before(b, c) && a.count == b.count && b.count == c.count {
        if order::less(a.name, b.name) && order::less(b.name, c.name) {
            order::less_transitive(a.name, b.name, c.name);
        }
        if order::less(a.lang, b.lang) && order::less(b.lang, c.lang) {
            order::less_transitive(a.lang, b.lang, c.lang);
        }
    }
}

/// What does not rank before an entry, and that not before a third, does not rank before the third.
proof fn lemma_not_before(a: Ranked, b: Ranked, c: Ranked)
    ensures
        !before(b, a) && !before(c, b) ==> !before(c, a),
{
    lemma_before(c, a, b);
    lemma_before(b, c, a);
    order::less_total(a.name, b.name);
    order::less_total(b.name, c.name);
    order::less_total(a.name, c.name);
    order::less_total(a.lang, b.lang);
    order::less_total(b.lang, c.lang);
    order::less_total(a.lang, c.lang);
    if !before(b, a) && !before(c, b) && before(c, a) {
        if a.count == b.count && b.count == c.count {
            if order::less(c.name, a.name) && order::less(a.name, b.name) {
                order::less_transitive(c.name, a.name, b.name);
            }
            if order::less(b.name, c.name) && order::less(c.name, a.name) {
                order::less_transitive(b.name, c.name, a.name);
            }
            if order::less(c.lang, a.lang) && order::less(a.lang, b.lang) {
                order::less_transitive(c.lang, a.lang, b.lang);
            }
            if order::less(b.lang, c.lang) && order::less(c.lang, a.lang) {
                order::less_transitive(b.lang, c.lang, a.lang);
            }
        }
    }
}

/// The entries by rank are in rank, and they are the entries that were given.
pub proof fn ranked_is_in_rank(list: Seq<Ranked>)
    ensures
        in_rank(ranked(list)),
        ranked(list).to_multiset() == list.to_multiset(),
        ranked(list).len() == list.len(),
    decreases list.len(),
{
    if list.len() > 0 {
        let front = ranked(list.drop_last());
        let e = list.last();
        ranked_is_in_rank(list.drop_last());
        lemma_rank_place(front, e);
        let p = rank_place(front, e);
        let out = front.insert(p, e);
        assert forall|i: int, j: int| 0 <= i < j < out.len() implies !before(
            #[trigger] out[j],
            #[trigger] out[i],
        ) by {
            let x = if i < p {
                front[i]
            } else if i == p {
                e
            } else {
                front[i - 1]
            };
            let y = if j < p {
                front[j]
            } else if j == p {
                e
            } else {
                front[j - 1]
            };
            assert(out[i] == x);
            assert(out[j] == y);
            if i < p && j == p {
                assert(!before(e, front[i]));
            } else if i == p && j > p {
                lemma_before(e, front[p], e);
                if j - 1 > p {
                    assert(!before(front[j - 1], front[p]));
                    lemma_not_before(e, front[p], front[j - 1]);
                }
            }
        }
        assert(list =~= list.drop_last().push(e));
        list.drop_last().to_multiset_ensures();
        front.to_multiset_ensures();
        assert(out.to_multiset() =~= front.to_multiset().insert(e)) by {
            lemma_insert_multiset(front, p, e);
        }
    } else {
        assert(ranked(list) =~= list);
    }
}

proof fn lemma_insert_multiset(s: Seq<Ranked>, p: int, e: Ranked)
    requires
        0 <= p <= s.len(),
    ensures
        s.insert(p, e).to_multiset() =~= s.to_multiset().insert(e),
    decreases s.len(),
{
    let out = s.insert(p, e);
    if p == s.len() {
        assert(out =~= s.push(e));
        s.to_multiset_ensures();
    } else {
        let shorter = s.drop_last();
        lemma_insert_multiset(shorter, p, e);
        assert(out =~= shorter.insert(p, e).push(s.last()));
        assert(s =~= shorter.push(s.last()));
        shorter.insert(p, e).to_multiset_ensures();
        shorter.to_multiset_ensures();
    }
}

/// Whether `a` ranks before `b`.
fn ranks_before(a: &PatternStat, b: &PatternStat) -> (r: bool)
    ensures
        r == before(a@, b@),
{
    if a.count != b.count {
        return a.count > b.count;
    }
    if same_text(a.pattern.as_str(), b.pattern.as_str()) {
        proof {
            order::less_irreflexive(a.pattern@);
        }
        return text_less(a.lang.as_str(), b.lang.as_str());
    }
    text_less(a.pattern.as_str(), b.pattern.as_str())
}

/// The entries of a list by rank.
pub fn rank(list: Vec<PatternStat>) -> (r: Vec<PatternStat>)
    ensures
        entries(r@) == ranked(entries(list@)),
{
    let ghost all = entries(list@);
    let mut rest: Vec<PatternStat> = list;
    let mut out: Vec<PatternStat> = Vec::new();
    let ghost mut done: int = 0;
    assert(entries(out@) =~= ranked(all.take(0)));
    assert(all.skip(0) =~= all);
    while rest.len() > 0
        invariant
            0 <= done <= all.len(),
            entries(rest@) =~= all.skip(done),
            entries(out@) =~= ranked(all.take(done)),
        decreases rest@.len(),
    {
        let ghost waiting = entries(rest@);
        let ghost had = entries(out@);
        let e: PatternStat = rest.remove(0);
        let ghost x = e@;
        assert(entries(rest@) =~= waiting.drop_first());
        assert(waiting[0] == x);
        assert(all[done] == x);
        let mut p: usize = 0;
        while p < out.len() && !ranks_before(&e, &out[p])
            invariant
                x == e@,
                had == entries(out@),
                p <= out@.len(),
                forall|i: int| 0 <= i < p ==> !before(x, #[trigger] had[i]),
            decreases out@.len() - p,
        {
            assert(had[p as int] == out@[p as int]@);
            p += 1;
        }
        proof {
            if p < had.len() {
                assert(had[p as int] == out@[p as int]@);
            }
            lemma_rank_place_unique(had, x, p as int);
            assert(all.take(done + 1).drop_last() =~= all.take(done));
            assert(all.skip(done + 1) =~= waiting.drop_first());
        }
        out.insert(p, e);
        assert(entries(out@) =~= had.insert(p as int, x));
        proof {
            done = done + 1;
        }
    }
    assert(all.take(done) =~= all);
    out
}

} // verus!
