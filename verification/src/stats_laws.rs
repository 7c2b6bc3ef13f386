//! What holds of all statistics.

use crate::order;
use crate::order_laws;
use crate::rank;
use crate::rank::Ranked;
use crate::savings;
use crate::savings::Run;
use crate::stats;
use crate::stats::{Column, Event, Recent};
use crate::sums;
use crate::text;
use crate::text_laws;
use vstd::prelude::*;

verus! {

/// A row is of one event: the rows of two events are at most all of them.
proof fn lemma_disjoint(
    rows: Seq<Event>,
    column: Column,
    value: Seq<char>,
    a: Seq<char>,
    b: Seq<char>,
)
    requires
        a != b,
    ensures
        stats::count_rows(rows, column, value, Some(a)) + stats::count_rows(
            rows,
            column,
            value,
            Some(b),
        ) <= stats::count_rows(rows, column, value, None),
        stats::count_rows(rows, column, value, None) <= rows.len(),
    decreases rows.len(),
{
    if rows.len() > 0 {
        lemma_disjoint(rows.drop_last(), column, value, a, b);
    }
}

/// The redirected searches are never more than those that matched anything: their fraction is at
/// most the whole.
pub proof fn redirects_are_a_fraction(rows: Seq<Event>)
    ensures
        ({
            let part = stats::ratio(
                rows.len(),
                stats::count_event(rows, "structural"@),
                stats::count_event(rows, "no_match"@),
            );
            part.0 <= part.1
        }),
{
    reveal_strlit("structural");
    reveal_strlit("no_match");
    assert("structural"@.len() == 10);
    assert("no_match"@.len() == 8);
    lemma_disjoint(rows, Column::Any, Seq::empty(), "structural"@, "no_match"@);
}

/// On every day the redirected searches and those without a match are at most all of that day's.
pub proof fn days_part_their_searches(rows: Seq<Event>, i: int)
    requires
        0 <= i < stats::by_day(rows).len(),
    ensures
        stats::by_day(rows)[i].structural + stats::by_day(rows)[i].no_match <= stats::by_day(
            rows,
        )[i].total,
{
    reveal_strlit("structural");
    reveal_strlit("no_match");
    assert("structural"@.len() == 10);
    assert("no_match"@.len() == 8);
    lemma_disjoint(rows, Column::Day, stats::by_day(rows)[i].day, "structural"@, "no_match"@);
}

/// Every search is of one event: the counts by event add up to all of them.
pub proof fn events_add_up(rows: Seq<Event>)
    ensures
        order::sum(order::tallied(stats::event_names(rows))) == rows.len(),
{
    order::tally_adds_up(stats::event_names(rows));
}

/// A search that names several languages counts once for each of them, and for no other.
pub proof fn each_named_language_is_credited(rows: Seq<Event>, e: Event, lang: Seq<char>)
    requires
        stats::is_structural(e),
    ensures
        order::occurrences(stats::credited(rows.push(e)), lang) == order::occurrences(
            stats::credited(rows),
            lang,
        ) + order::occurrences(stats::named_languages(e), lang),
{
    assert(rows.push(e).drop_last() =~= rows);
    lemma_occurrences_add(stats::credited(rows), stats::named_languages(e), lang);
}

proof fn lemma_occurrences_add(a: Seq<Seq<char>>, b: Seq<Seq<char>>, t: Seq<char>)
    ensures
        order::occurrences(a + b, t) == order::occurrences(a, t) + order::occurrences(b, t),
    decreases b.len(),
{
    if b.len() == 0 {
        assert(a + b =~= a);
    } else {
        assert((a + b).drop_last() =~= a + b.drop_last());
        lemma_occurrences_add(a, b.drop_last(), t);
    }
}

/// What one more row adds to a count: one where it has the value in the column and is of the event,
/// as far as they are given.
pub proof fn one_more_row(
    rows: Seq<Event>,
    e: Event,
    value: Seq<char>,
    event: Option<Seq<char>>,
)
    ensures
        ({
            let of_event = event is None || e.event == event->0;
            let one = |b: bool|
                if b {
                    1int
                } else {
                    0int
                };
            &&& stats::count_rows(rows.push(e), Column::Any, value, event) == stats::count_rows(
                rows,
                Column::Any,
                value,
                event,
            ) + one(of_event)
            &&& stats::count_rows(rows.push(e), Column::Agent, value, event) == stats::count_rows(
                rows,
                Column::Agent,
                value,
                event,
            ) + one(of_event && e.agent == value)
            &&& stats::count_rows(rows.push(e), Column::Day, value, event) == stats::count_rows(
                rows,
                Column::Day,
                value,
                event,
            ) + one(of_event && e.day == Some(value))
        }),
        forall|column: Column| #[trigger]
            stats::count_rows(Seq::empty(), column, value, event) == 0,
{
    assert(rows.push(e).drop_last() =~= rows);
    assert(rows.push(e).last() == e);
}

/// An event is an error or a fallback where it is `untranslatable` or `fallback`, or holds the word
/// `error` in whatever case.
pub proof fn failures_by_name(event: Seq<char>)
    ensures
        stats::is_failure(event) <==> {
            ||| event == "untranslatable"@
            ||| event == "fallback"@
            ||| exists|i: int|
                0 <= i <= event.len() - 5 && (#[trigger] event[i] == 'e' || event[i] == 'E') && (
                event[i + 1] == 'r' || event[i + 1] == 'R') && (event[i + 2] == 'r' || event[i + 2]
                    == 'R') && (event[i + 3] == 'o' || event[i + 3] == 'O') && (event[i + 4] == 'r'
                    || event[i + 4] == 'R')
        },
{
    reveal_strlit("error");
    let low = stats::lowered(event);
    let word = "error"@;
    assert(word =~= seq!['e', 'r', 'r', 'o', 'r']);
    assert forall|c: char| true implies {
        &&& (#[trigger] stats::ascii_lower(c) == 'e' <==> c == 'e' || c == 'E')
        &&& (stats::ascii_lower(c) == 'r' <==> c == 'r' || c == 'R')
        &&& (stats::ascii_lower(c) == 'o' <==> c == 'o' || c == 'O')
    } by {
        lemma_ascii_lower(c);
    }
    if text::has_infix(low, word) {
        let i = choose|i: int|
            0 <= i <= low.len() - word.len() && #[trigger] low.subrange(i, i + word.len()) == word;
        let part = low.subrange(i, i + 5);
        assert(part[0] == stats::ascii_lower(event[i]));
        assert(part[1] == stats::ascii_lower(event[i + 1]));
        assert(part[2] == stats::ascii_lower(event[i + 2]));
        assert(part[3] == stats::ascii_lower(event[i + 3]));
        assert(part[4] == stats::ascii_lower(event[i + 4]));
        assert(event[i] == 'e' || event[i] == 'E');
    }
    if exists|i: int|
        0 <= i <= event.len() - 5 && (#[trigger] event[i] == 'e' || event[i] == 'E') && (event[i
            + 1] == 'r' || event[i + 1] == 'R') && (event[i + 2] == 'r' || event[i + 2] == 'R') && (
        event[i + 3] == 'o' || event[i + 3] == 'O') && (event[i + 4] == 'r' || event[i + 4]
            == 'R') {
        let i = choose|i: int|
            0 <= i <= event.len() - 5 && (#[trigger] event[i] == 'e' || event[i] == 'E') && (event[i
                + 1] == 'r' || event[i + 1] == 'R') && (event[i + 2] == 'r' || event[i + 2] == 'R')
                && (event[i + 3] == 'o' || event[i + 3] == 'O') && (event[i + 4] == 'r' || event[i
                + 4] == 'R');
        assert(stats::ascii_lower(event[i]) == 'e');
        assert(stats::ascii_lower(event[i + 1]) == 'r');
        assert(stats::ascii_lower(event[i + 2]) == 'r');
        assert(stats::ascii_lower(event[i + 3]) == 'o');
        assert(stats::ascii_lower(event[i + 4]) == 'r');
        assert(low.subrange(i, i + 5) =~= word);
        assert(low.subrange(i, i + word.len()) == word);
    }
}

proof fn lemma_ascii_lower(c: char)
    ensures
        stats::ascii_lower(c) == 'e' <==> c == 'e' || c == 'E',
        stats::ascii_lower(c) == 'r' <==> c == 'r' || c == 'R',
        stats::ascii_lower(c) == 'o' <==> c == 'o' || c == 'O',
{
    if 'A' <= c <= 'Z' {
        assert(stats::ascii_lower(c) as u32 == c as u32 + 32);
    }
}

/// One more search in the log counts once, and once more under what became of it. The fraction of
/// redirected searches has those that ast-grep filtered over all but those without a match.
pub proof fn one_more_search(rows: Seq<Event>, e: Event, runs: Seq<Run>)
    ensures
        ({
            let before = stats::report(rows, runs);
            let after = stats::report(rows.push(e), runs);
            let one = |b: bool|
                if b {
                    1int
                } else {
                    0int
                };
            &&& after.total_intercepted == before.total_intercepted + 1
            &&& after.structural == before.structural + one(e.event == "structural"@)
            &&& after.passthrough == before.passthrough + one(e.event == "passthrough"@)
            &&& after.no_match == before.no_match + one(e.event == "no_match"@)
            &&& after.errors == before.errors + one(stats::is_failure(e.event))
            &&& after.redirects.0 == after.structural
            &&& after.redirects.1 == after.total_intercepted - after.no_match
        }),
{
    let none = Seq::<char>::empty();
    one_more_row(rows, e, none, Some("structural"@));
    one_more_row(rows, e, none, Some("passthrough"@));
    one_more_row(rows, e, none, Some("no_match"@));
    assert(rows.push(e).drop_last() =~= rows);
    reveal_strlit("structural");
    reveal_strlit("no_match");
    assert("structural"@.len() == 10);
    assert("no_match"@.len() == 8);
    lemma_disjoint(rows.push(e), Column::Any, none, "structural"@, "no_match"@);
    if rows.len() == 0 {
        assert(stats::count_event(rows, "structural"@) == 0);
        assert(stats::count_event(rows, "passthrough"@) == 0);
        assert(stats::count_event(rows, "no_match"@) == 0);
        assert(stats::count_failures(rows) == 0);
    }
}

/// Without a search there is nothing to report, whatever was compared.
pub proof fn nothing_searched_nothing_reported(runs: Seq<Run>)
    ensures
        ({
            let r = stats::report(Seq::empty(), runs);
            &&& r.total_intercepted == 0
            &&& r.structural == 0
            &&& r.passthrough == 0
            &&& r.errors == 0
            &&& r.no_match == 0
            &&& r.redirects == (0nat, 0nat)
            &&& r.total_matches_found == 0
            &&& r.totals.runs == 0
            &&& r.totals.files_saved == 0
            &&& r.totals.false_positives == 0
            &&& r.totals.tokens_saved == 0
            &&& r.by_event.len() == 0
            &&& r.by_agent.len() == 0
            &&& r.by_language.len() == 0
            &&& r.by_day.len() == 0
            &&& r.top_patterns.len() == 0
            &&& r.recent_redirects.len() == 0
            &&& r.comparisons.len() == 0
        }),
{
}

/// A sum is the sum so far and one more number, as long as that fits in 64 bits; from there on there
/// is none.
pub proof fn one_more_number(values: Seq<int>, x: int)
    ensures
        sums::checked_sum(values.push(x)) == match sums::checked_sum(values) {
            Some(s) => if -0x8000_0000_0000_0000 <= x <= 0x7fff_ffff_ffff_ffff
                && -0x8000_0000_0000_0000 <= s + x <= 0x7fff_ffff_ffff_ffff {
                Some(s + x)
            } else {
                None
            },
            None => None,
        },
        sums::checked_sum(Seq::empty()) == Some(0int),
{
    assert(values.push(x).drop_last() =~= values);
}

/// The matches that are reported are those of the searches that ast-grep filtered, added up, and of
/// no others; a sum that does not fit, or is below zero, is none.
pub proof fn matches_of_filtered_searches_add_up(rows: Seq<Event>, e: Event, runs: Seq<Run>)
    ensures
        stats::structural_matches(rows.push(e)) == if e.event == "structural"@ {
            stats::structural_matches(rows).push(e.matches)
        } else {
            stats::structural_matches(rows)
        },
        stats::structural_matches(Seq::empty()) == Seq::<int>::empty(),
        ({
            let sum = sums::checked_sum(stats::structural_matches(rows.push(e)));
            stats::report(rows.push(e), runs).total_matches_found == if sum is Some && sum->0
                >= 0 {
                sum->0
            } else {
                0
            }
        }),
{
    assert(rows.push(e).drop_last() =~= rows);
}

/// The parts of the report on events, agents, languages, days and patterns, the latest searches and
/// the comparisons are those of all the rows.
pub proof fn parts_of_the_report(rows: Seq<Event>, runs: Seq<Run>)
    requires
        rows.len() > 0,
    ensures
        ({
            let r = stats::report(rows, runs);
            &&& r.by_event == order::tallied(Seq::new(rows.len(), |i: int| rows[i].event))
            &&& r.by_agent == stats::by_agent(rows)
            &&& r.by_language == order::tallied(stats::credited(rows))
            &&& r.by_day == stats::by_day(rows)
            &&& r.top_patterns == stats::top_patterns(rows)
            &&& r.recent_redirects == stats::latest(rows, 15)
            &&& r.comparisons == savings::page(runs, 50)
            &&& savings::totals_of(runs) is Some ==> r.totals == savings::totals_of(runs)->0
            &&& savings::totals_of(runs) is None ==> r.totals.runs == 0 && r.totals.files_saved == 0
                && r.totals.false_positives == 0 && r.totals.tokens_saved == 0
        }),
{
    assert(stats::event_names(rows) =~= Seq::new(rows.len(), |i: int| rows[i].event));
}

/// A search that names its languages with commas between them names each of those, in order; one
/// that names none names none.
pub proof fn languages_are_named_with_commas(e: Event, langs: Seq<Seq<char>>)
    requires
        forall|i: int|
            0 <= i < langs.len() ==> (#[trigger] langs[i]).len() > 0 && !langs[i].contains(','),
        e.lang == text::join(langs, seq![',']),
    ensures
        stats::named_languages(e) == langs,
{
    if langs.len() > 0 {
        text_laws::splitting_undoes_joining(langs, ',');
        lemma_all_nonempty(langs);
    } else {
        assert(e.lang =~= Seq::<char>::empty());
        assert(text::split(e.lang, ',') =~= seq![e.lang]);
        let one = seq![e.lang];
        assert(one.last() == e.lang);
        assert(one.drop_last() =~= langs);
        assert(stats::nonempty(one) == stats::nonempty(one.drop_last()));
        assert(stats::nonempty(langs) =~= langs);
    }
}

proof fn lemma_all_nonempty(list: Seq<Seq<char>>)
    requires
        forall|i: int| 0 <= i < list.len() ==> (#[trigger] list[i]).len() > 0,
    ensures
        stats::nonempty(list) == list,
    decreases list.len(),
{
    if list.len() > 0 {
        assert(list[list.len() - 1].len() > 0);
        lemma_all_nonempty(list.drop_last());
        assert(list.drop_last().push(list.last()) =~= list);
    }
}

/// The languages credited are those that the searches name that ast-grep filtered, all of them and
/// in order, and none of any other search; for one pattern, those of the searches for it.
pub proof fn filtered_searches_credit_their_languages(
    rows: Seq<Event>,
    e: Event,
    pattern: Seq<char>,
)
    ensures
        stats::credited(rows.push(e)) == stats::credited(rows) + (if e.event == "structural"@ {
            stats::named_languages(e)
        } else {
            Seq::empty()
        }),
        stats::credited(Seq::empty()) == Seq::<Seq<char>>::empty(),
        stats::credited_for(rows.push(e), pattern) == stats::credited_for(rows, pattern) + (
        if e.event == "structural"@ && e.pattern == pattern {
            stats::named_languages(e)
        } else {
            Seq::empty()
        }),
        stats::credited_for(Seq::empty(), pattern) == Seq::<Seq<char>>::empty(),
{
    assert(rows.push(e).drop_last() =~= rows);
    assert(stats::credited(rows) + Seq::<Seq<char>>::empty() =~= stats::credited(rows));
    assert(stats::credited_for(rows, pattern) + Seq::<Seq<char>>::empty() =~= stats::credited_for(
        rows,
        pattern,
    ));
}

/// The searches of a day: the days come in order, each of them once; a day has all its searches,
/// those of them that ast-grep filtered, and those without a match.
pub proof fn days_count_their_searches(rows: Seq<Event>, i: int, j: int)
    requires
        0 <= i < stats::by_day(rows).len(),
    ensures
        ({
            let d = stats::by_day(rows)[i];
            &&& d.total == stats::count_rows(rows, Column::Day, d.day, None)
            &&& d.structural == stats::count_rows(rows, Column::Day, d.day, Some("structural"@))
            &&& d.no_match == stats::count_rows(rows, Column::Day, d.day, Some("no_match"@))
            &&& exists|k: int| 0 <= k < rows.len() && (#[trigger] rows[k]).day == Some(d.day)
            &&& i < j < stats::by_day(rows).len() ==> order::less(d.day, stats::by_day(rows)[j].day)
        }),
{
    let names = order::sorted(stats::day_names(rows));
    order::sorted_is_sorted(stats::day_names(rows));
    assert(names.contains(names[i]));
    lemma_day_names(rows, names[i]);
    if i < j < names.len() {
        assert(order::less(names[i], names[j]));
    }
}

/// Every day on which there was a search is listed.
pub proof fn every_day_is_listed(rows: Seq<Event>, k: int)
    requires
        0 <= k < rows.len(),
        rows[k].day is Some,
    ensures
        exists|i: int|
            0 <= i < stats::by_day(rows).len() && Some((#[trigger] stats::by_day(rows)[i]).day)
                == rows[k].day,
{
    let d = rows[k].day->0;
    let names = order::sorted(stats::day_names(rows));
    order::sorted_is_sorted(stats::day_names(rows));
    lemma_day_names(rows, d);
    assert(names.contains(d));
    let i = choose|i: int| 0 <= i < names.len() && names[i] == d;
    assert(stats::by_day(rows)[i].day == d);
}

proof fn lemma_day_names(rows: Seq<Event>, d: Seq<char>)
    ensures
        stats::day_names(rows).contains(d) <==> exists|k: int|
            0 <= k < rows.len() && (#[trigger] rows[k]).day == Some(d),
    decreases rows.len(),
{
    if rows.len() > 0 {
        let shorter = rows.drop_last();
        let before = stats::day_names(shorter);
        lemma_day_names(shorter, d);
        assert(rows[rows.len() - 1] == rows.last());
        if before.contains(d) {
            let k = choose|k: int| 0 <= k < shorter.len() && (#[trigger] shorter[k]).day == Some(d);
            assert(rows[k].day == Some(d));
        }
        if rows.last().day is Some {
            assert(before.push(rows.last().day->0).drop_last() =~= before);
            text::lemma_contains_last(before.push(rows.last().day->0), d);
        }
        if exists|k: int| 0 <= k < rows.len() && (#[trigger] rows[k]).day == Some(d) {
            let k = choose|k: int| 0 <= k < rows.len() && (#[trigger] rows[k]).day == Some(d);
            if k < shorter.len() {
                assert(shorter[k].day == Some(d));
            }
        }
    }
}

proof fn lemma_agent_total(rows: Seq<Event>, agent: Seq<char>)
    ensures
        order::occurrences(stats::agent_names(rows), agent) == stats::count_rows(
            rows,
            Column::Agent,
            agent,
            None,
        ),
    decreases rows.len(),
{
    if rows.len() > 0 {
        lemma_agent_total(rows.drop_last(), agent);
        assert(stats::agent_names(rows).drop_last() =~= stats::agent_names(rows.drop_last()));
    }
}

/// The searches of an agent: it has all its searches, those that ast-grep filtered, and those that
/// went to ripgrep as they are. The agent with the most searches comes first, and of those with as
/// many the one whose name does.
pub proof fn agents_count_their_searches(rows: Seq<Event>, i: int, j: int)
    requires
        0 <= i < stats::by_agent(rows).len(),
    ensures
        ({
            let a = stats::by_agent(rows)[i];
            &&& a.total == stats::count_rows(rows, Column::Agent, a.agent, None)
            &&& a.structural == stats::count_rows(rows, Column::Agent, a.agent, Some("structural"@))
            &&& a.passthrough == stats::count_rows(
                rows,
                Column::Agent,
                a.agent,
                Some("passthrough"@),
            )
            &&& exists|k: int| 0 <= k < rows.len() && (#[trigger] rows[k]).agent == a.agent
            &&& i < j < stats::by_agent(rows).len() ==> {
                let b = stats::by_agent(rows)[j];
                a.total > b.total || (a.total == b.total && order::less(a.agent, b.agent))
            }
            &&& 0 <= j < stats::by_agent(rows).len() && i != j ==> {
                let b = stats::by_agent(rows)[j];
                a.agent != b.agent
            }
        }),
{
    let named = stats::agent_names(rows);
    let list = stats::without_lang(order::tallied(named));
    let names = rank::ranked(list);
    rank::ranked_is_in_rank(list);
    let e = names[i];
    assert(names.contains(e));
    names.to_multiset_ensures();
    list.to_multiset_ensures();
    assert(names.to_multiset().count(e) > 0);
    assert(list.contains(e));
    let k = choose|k: int| 0 <= k < list.len() && list[k] == e;
    order::sorted_is_sorted(named);
    assert(e.name == order::sorted(named)[k]);
    assert(order::sorted(named).contains(e.name));
    assert(named.contains(e.name));
    let r = choose|r: int| 0 <= r < named.len() && named[r] == e.name;
    assert(rows[r].agent == e.name);
    lemma_agent_total(rows, e.name);
    assert forall|x: int, y: int| 0 <= x < list.len() && 0 <= y < list.len() && x != y implies list[x]
        != list[y] by {
        lemma_increasing_differ(order::sorted(named), x, y);
    }
    order_laws::ranking_repeats_nothing(list);
    if 0 <= j < names.len() && i != j {
        let f = names[j];
        assert(names.contains(f));
        assert(names.to_multiset().count(f) > 0);
        assert(list.contains(f));
        let q = choose|q: int| 0 <= q < list.len() && list[q] == f;
        lemma_agent_total(rows, f.name);
        if e.name == f.name {
            assert(e =~= f);
        }
        if i < j {
            order_laws::the_most_frequent_come_first(list, i, j);
        }
    }
}

proof fn lemma_increasing_differ(list: Seq<Seq<char>>, x: int, y: int)
    requires
        order::increasing(list),
        0 <= x < list.len(),
        0 <= y < list.len(),
        x != y,
    ensures
        list[x] != list[y],
{
    order::less_irreflexive(list[x]);
    if x < y {
        assert(order::less(list[x], list[y]));
    } else {
        assert(order::less(list[y], list[x]));
    }
}

/// Every agent with a search is listed.
pub proof fn every_agent_is_listed(rows: Seq<Event>, k: int)
    requires
        0 <= k < rows.len(),
    ensures
        exists|i: int|
            0 <= i < stats::by_agent(rows).len() && (#[trigger] stats::by_agent(rows)[i]).agent
                == rows[k].agent,
{
    let named = stats::agent_names(rows);
    let agent = rows[k].agent;
    assert(named[k] == agent);
    assert(named.contains(agent));
    let list = stats::without_lang(order::tallied(named));
    let names = rank::ranked(list);
    rank::ranked_is_in_rank(list);
    order::sorted_is_sorted(named);
    assert(order::sorted(named).contains(agent));
    let p = choose|p: int|
        0 <= p < order::sorted(named).len() && order::sorted(named)[p] == agent;
    let e = list[p];
    assert(e.name == agent);
    names.to_multiset_ensures();
    list.to_multiset_ensures();
    assert(list.contains(e));
    assert(names.to_multiset().count(e) > 0);
    assert(names.contains(e));
    let i = choose|i: int| 0 <= i < names.len() && names[i] == e;
    assert(stats::by_agent(rows)[i].agent == agent);
}

/// The list of the latest searches, by its newest row: a row of a search that ast-grep filtered, with
/// a time and no number below zero, comes first, with its own pattern, language, matches, agent and
/// time; one without a time, or with such a number, takes a place and is not shown; any other row
/// changes nothing. A list without places is empty.
pub proof fn the_latest_come_first(rows: Seq<Event>, e: Event, n: nat)
    ensures
        ({
            let after = stats::latest(rows.push(e), n + 1);
            let rest = stats::latest(rows, n);
            &&& e.event == "structural"@ && e.at is Some && e.matches >= 0 ==> {
                &&& after.len() == rest.len() + 1
                &&& after[0].pattern == e.pattern
                &&& after[0].lang == e.lang
                &&& after[0].matches == e.matches
                &&& after[0].agent == e.agent
                &&& after[0].ts == e.at->0
                &&& after.skip(1) == rest
            }
            &&& e.event == "structural"@ && (e.at is None || e.matches < 0) ==> after == rest
            &&& e.event != "structural"@ ==> after == stats::latest(rows, n + 1)
        }),
        stats::latest(rows, 0) == Seq::<Recent>::empty(),
        stats::latest(Seq::empty(), n) == Seq::<Recent>::empty(),
{
    assert(rows.push(e).drop_last() =~= rows);
    let after = stats::latest(rows.push(e), n + 1);
    let rest = stats::latest(rows, n);
    if e.event == "structural"@ {
        assert(after == stats::recent_of(e) + rest);
        if e.at is Some && e.matches >= 0 {
            assert(after.skip(1) =~= rest);
        } else {
            assert(after =~= rest);
        }
    }
}

/// Every entry of the list of the latest searches agrees with a row of the log of a search that
/// ast-grep filtered: in the pattern, the language, the matches, the agent and the time.
pub proof fn latest_entries_are_rows(rows: Seq<Event>, n: nat, k: int)
    requires
        0 <= k < stats::latest(rows, n).len(),
    ensures
        ({
            let entry = stats::latest(rows, n)[k];
            exists|i: int|
                0 <= i < rows.len() && (#[trigger] rows[i]).event == "structural"@ && entry.pattern
                    == rows[i].pattern && entry.lang == rows[i].lang && entry.matches
                    == rows[i].matches && entry.agent == rows[i].agent && rows[i].at == Some(
                    entry.ts,
                )
        }),
        stats::latest(rows, n).len() <= n,
    decreases rows.len(),
{
    let list = stats::latest(rows, n);
    let shorter = rows.drop_last();
    let e = rows.last();
    let m = (n - 1) as nat;
    assert(rows[rows.len() - 1] == e);
    lemma_latest_len(rows, n);
    if stats::is_structural(e) {
        let own = stats::recent_of(e);
        if k < own.len() {
            assert(list[k] == own[0]);
        } else {
            assert(list[k] == stats::latest(shorter, m)[k - own.len()]);
            latest_entries_are_rows(shorter, m, k - own.len());
            let entry = list[k];
            let i = choose|i: int|
                0 <= i < shorter.len() && (#[trigger] shorter[i]).event == "structural"@
                    && entry.pattern == shorter[i].pattern && entry.lang == shorter[i].lang
                    && entry.matches == shorter[i].matches && entry.agent == shorter[i].agent
                    && shorter[i].at == Some(entry.ts);
            assert(rows[i] == shorter[i]);
        }
    } else {
        latest_entries_are_rows(shorter, n, k);
        let entry = list[k];
        let i = choose|i: int|
            0 <= i < shorter.len() && (#[trigger] shorter[i]).event == "structural"@
                && entry.pattern == shorter[i].pattern && entry.lang == shorter[i].lang
                && entry.matches == shorter[i].matches && entry.agent == shorter[i].agent
                && shorter[i].at == Some(entry.ts);
        assert(rows[i] == shorter[i]);
    }
}

proof fn lemma_latest_len(rows: Seq<Event>, n: nat)
    ensures
        stats::latest(rows, n).len() <= n,
    decreases rows.len(),
{
    if rows.len() > 0 && n > 0 {
        if stats::is_structural(rows.last()) {
            lemma_latest_len(rows.drop_last(), (n - 1) as nat);
        } else {
            lemma_latest_len(rows.drop_last(), n);
        }
    }
}

proof fn lemma_pattern_entries(rows: Seq<Event>, patterns: Seq<Seq<char>>, e: Ranked)
    ensures
        stats::pattern_entries(rows, patterns).contains(e) <==> patterns.contains(e.name)
            && e.count == order::occurrences(stats::credited_for(rows, e.name), e.lang) && e.count
            > 0,
    decreases patterns.len(),
{
    let all = stats::pattern_entries(rows, patterns);
    if patterns.len() > 0 {
        let shorter = patterns.drop_last();
        let p = patterns.last();
        let before = stats::pattern_entries(rows, shorter);
        let named = stats::credited_for(rows, p);
        let langs = order::tallied(named);
        let more = stats::with_pattern(p, langs);
        lemma_pattern_entries(rows, shorter, e);
        text::lemma_contains_last(patterns, e.name);
        order::sorted_is_sorted(named);
        order::lemma_occurrences(stats::credited_for(rows, e.name), e.lang);
        if all.contains(e) {
            let k = choose|k: int| 0 <= k < all.len() && all[k] == e;
            if k < before.len() {
                assert(before[k] == e);
            } else {
                let q = k - before.len();
                assert(more[q] == e);
                assert(order::sorted(named).contains(order::sorted(named)[q]));
                assert(named.contains(e.lang));
            }
        }
        if before.contains(e) {
            let k = choose|k: int| 0 <= k < before.len() && before[k] == e;
            assert(all[k] == e);
        }
        if e.name == p && e.count == order::occurrences(named, e.lang) && e.count > 0 {
            assert(named.contains(e.lang));
            assert(order::sorted(named).contains(e.lang));
            let q = choose|q: int|
                0 <= q < order::sorted(named).len() && order::sorted(named)[q] == e.lang;
            assert(more[q] =~= e);
            assert(all[before.len() + q] == e);
        }
    }
}

/// No entry is given twice.
proof fn lemma_pattern_entries_differ(rows: Seq<Event>, patterns: Seq<Seq<char>>)
    requires
        order::increasing(patterns),
    ensures
        stats::pattern_entries(rows, patterns).no_duplicates(),
    decreases patterns.len(),
{
    let all = stats::pattern_entries(rows, patterns);
    if patterns.len() > 0 {
        let shorter = patterns.drop_last();
        let p = patterns.last();
        let before = stats::pattern_entries(rows, shorter);
        let named = stats::credited_for(rows, p);
        let more = stats::with_pattern(p, order::tallied(named));
        assert forall|x: int, y: int| 0 <= x < y < shorter.len() implies order::less(
            #[trigger] shorter[x],
            #[trigger] shorter[y],
        ) by {
            assert(order::less(patterns[x], patterns[y]));
        }
        lemma_pattern_entries_differ(rows, shorter);
        order::sorted_is_sorted(named);
        assert forall|x: int, y: int| 0 <= x < all.len() && 0 <= y < all.len() && x != y implies all[x]
            != all[y] by {
            let n = before.len();
            if x < n && y < n {
                assert(all[x] == before[x] && all[y] == before[y]);
            } else if x >= n && y >= n {
                lemma_increasing_differ(order::sorted(named), x - n, y - n);
                assert(all[x] == more[x - n] && all[y] == more[y - n]);
            } else {
                let u = if x < n {
                    x
                } else {
                    y
                };
                let v = if x < n {
                    y
                } else {
                    x
                };
                assert(all[u] == before[u]);
                assert(before.contains(before[u]));
                lemma_pattern_entries(rows, shorter, before[u]);
                let w = choose|w: int| 0 <= w < shorter.len() && shorter[w] == before[u].name;
                assert(shorter[w] == patterns[w]);
                lemma_increasing_differ(patterns, w, patterns.len() - 1);
                assert(all[v] == more[v - n]);
                assert(all[v].name == p);
            }
        }
    }
}

proof fn lemma_structural_patterns(rows: Seq<Event>, p: Seq<char>)
    ensures
        stats::structural_patterns(rows).contains(p) <==> exists|k: int|
            0 <= k < rows.len() && (#[trigger] rows[k]).event == "structural"@ && rows[k].pattern
                == p,
    decreases rows.len(),
{
    if rows.len() > 0 {
        let shorter = rows.drop_last();
        let before = stats::structural_patterns(shorter);
        lemma_structural_patterns(shorter, p);
        assert(rows[rows.len() - 1] == rows.last());
        if before.contains(p) {
            let k = choose|k: int|
                0 <= k < shorter.len() && (#[trigger] shorter[k]).event == "structural"@
                    && shorter[k].pattern == p;
            assert(rows[k] == shorter[k]);
        }
        if stats::is_structural(rows.last()) {
            assert(before.push(rows.last().pattern).drop_last() =~= before);
            text::lemma_contains_last(before.push(rows.last().pattern), p);
        }
        if exists|k: int|
            0 <= k < rows.len() && (#[trigger] rows[k]).event == "structural"@ && rows[k].pattern
                == p {
            let k = choose|k: int|
                0 <= k < rows.len() && (#[trigger] rows[k]).event == "structural"@
                    && rows[k].pattern == p;
            if k < shorter.len() {
                assert(shorter[k] == rows[k]);
            }
        }
    }
}

/// The most frequent patterns: at most ten, each with a language, counted as often as a search for it
/// that ast-grep filtered names the language. The most frequent come first; and a pattern and a
/// language that are left out are no more frequent than any that is listed, of which there are then
/// ten.
pub proof fn top_patterns_are_the_most_frequent(
    rows: Seq<Event>,
    i: int,
    j: int,
    k: int,
    lang: Seq<char>,
)
    ensures
        ({
            let top = stats::top_patterns(rows);
            let times = |p: Seq<char>, l: Seq<char>|
                order::occurrences(stats::credited_for(rows, p), l);
            &&& top.len() <= 10
            &&& 0 <= i < top.len() ==> top[i].count == times(top[i].name, top[i].lang)
                && top[i].count > 0
            &&& 0 <= i < j < top.len() ==> top[i].count >= top[j].count && (top[i].count
                == top[j].count ==> top[i].name == top[j].name || order::less(
                top[i].name,
                top[j].name,
            )) && (top[i].name != top[j].name || top[i].lang != top[j].lang)
            &&& 0 <= k < rows.len() && rows[k].event == "structural"@ && times(
                rows[k].pattern,
                lang,
            ) > 0 ==> top.contains(
                Ranked { name: rows[k].pattern, lang, count: times(rows[k].pattern, lang) },
            ) || (top.len() == 10 && (0 <= i < top.len() ==> top[i].count >= times(
                rows[k].pattern,
                lang,
            )))
        }),
{
    let top = stats::top_patterns(rows);
    let patterns = order::sorted(stats::structural_patterns(rows));
    let list = stats::pattern_entries(rows, patterns);
    let whole = rank::ranked(list);
    rank::ranked_is_in_rank(list);
    whole.to_multiset_ensures();
    list.to_multiset_ensures();
    order::sorted_is_sorted(stats::structural_patterns(rows));
    assert forall|q: int| 0 <= q < top.len() implies #[trigger] top[q] == whole[q] by {}
    if 0 <= i < top.len() {
        let e = top[i];
        assert(whole[i] == e);
        assert(whole.contains(e));
        assert(whole.to_multiset().count(e) > 0);
        assert(list.contains(e));
        lemma_pattern_entries(rows, patterns, e);
        if i < j < top.len() {
            order_laws::the_most_frequent_come_first(list, i, j);
            lemma_pattern_entries_differ(rows, patterns);
            order_laws::ranking_repeats_nothing(list);
            let f = top[j];
            assert(whole[j] == f);
            assert(whole.contains(f));
            assert(whole.to_multiset().count(f) > 0);
            lemma_pattern_entries(rows, patterns, f);
            if e.name == f.name && e.lang == f.lang {
                assert(e =~= f);
            }
        }
    }
    if 0 <= k < rows.len() && rows[k].event == "structural"@ {
        let p = rows[k].pattern;
        let n = order::occurrences(stats::credited_for(rows, p), lang);
        if n > 0 {
            let e = Ranked { name: p, lang, count: n };
            lemma_structural_patterns(rows, p);
            assert(patterns.contains(p));
            lemma_pattern_entries(rows, patterns, e);
            assert(list.contains(e));
            assert(list.to_multiset().count(e) > 0);
            assert(whole.contains(e));
            let q = choose|q: int| 0 <= q < whole.len() && whole[q] == e;
            if q < top.len() {
                assert(top[q] == e);
            } else {
                assert(top.len() == 10);
                if 0 <= i < top.len() {
                    order_laws::the_most_frequent_come_first(list, i, q);
                }
            }
        }
    }
}

/// The languages that a row names are the pieces between its commas, in order, without the empty
/// ones.
pub proof fn empty_pieces_name_no_language(e: Event, list: Seq<Seq<char>>, t: Seq<char>)
    ensures
        stats::named_languages(e) == stats::nonempty(text::split(e.lang, ',')),
        stats::nonempty(list.push(t)) == if t.len() == 0 {
            stats::nonempty(list)
        } else {
            stats::nonempty(list).push(t)
        },
        stats::nonempty(Seq::empty()) == Seq::<Seq<char>>::empty(),
{
    assert(list.push(t).drop_last() =~= list);
}

/// The fraction of redirected searches has them over all searches but those without a match, and over
/// none where those are more.
pub proof fn searches_without_a_match_do_not_count(total: nat, structural: nat, no_match: nat)
    ensures
        stats::ratio(total, structural, no_match).0 == structural,
        total >= no_match ==> stats::ratio(total, structural, no_match).1 == total - no_match,
        total < no_match ==> stats::ratio(total, structural, no_match).1 == 0,
{
}

} // verus!
