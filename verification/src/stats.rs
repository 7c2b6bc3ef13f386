//! The statistics, from the rows of the log.

use crate::order;
use crate::order::{sort_texts, tally};
use crate::rank;
use crate::rank::{PatternStat, Ranked};
use crate::savings;
use crate::savings::{
    comparison_page, comparison_totals, ComparisonRow, ComparisonStat, ComparisonTotals, Listed, Run,
    Totals,
};
use crate::sums;
use crate::sums::add_checked;
use crate::text;
use crate::text::{chars_of, same_text, split_text};
use vstd::prelude::*;

verus! {

/// A row of the log of searches.
#[verifier::ext_equal]
pub struct Event {
    pub agent: Seq<char>,
    pub event: Seq<char>,
    pub pattern: Seq<char>,
    pub lang: Seq<char>,
    pub matches: int,
    pub day: Option<Seq<char>>,
    pub at: Option<Seq<char>>,
}

/// A row of the log of searches. The day and the time are given where they can be told.
#[derive(Debug)]
pub struct EventRow {
    pub agent: String,
    pub event: String,
    pub pattern: String,
    pub lang: String,
    pub matches: i64,
    pub day: Option<String>,
    pub at: Option<String>,
}

impl View for EventRow {
    type V = Event;

    open spec fn view(&self) -> Event {
        Event {
            agent: self.agent@,
            event: self.event@,
            pattern: self.pattern@,
            lang: self.lang@,
            matches: self.matches as int,
            day: text::text_of(self.day),
            at: text::text_of(self.at),
        }
    }
}

/// What rows of the log stand for.
pub open spec fn events(list: Seq<EventRow>) -> Seq<Event> {
    Seq::new(list.len(), |i: int| list[i]@)
}

/// The rows of one agent, of one day, or all of them.
#[derive(Debug, Clone, Copy, PartialEq, Eq, Structural)]
pub enum Column {
    Any,
    Agent,
    Day,
}

/// Whether a row has a value in a column and, where one is given, is of an event.
pub open spec fn selected(
    e: Event,
    column: Column,
    value: Seq<char>,
    event: Option<Seq<char>>,
) -> bool {
    &&& match column {
        Column::Any => true,
        Column::Agent => e.agent == value,
        Column::Day => e.day == Some(value),
    }
    &&& event is None || e.event == event->0
}

/// The number of rows with a value in a column and, where one is given, of an event.
pub open spec fn count_rows(
    rows: Seq<Event>,
    column: Column,
    value: Seq<char>,
    event: Option<Seq<char>>,
) -> nat
    decreases rows.len(),
{
    if rows.len() == 0 {
        0
    } else {
        count_rows(rows.drop_last(), column, value, event) + if selected(
            rows.last(),
            column,
            value,
            event,
        ) {
            1nat
        } else {
            0nat
        }
    }
}

/// The number of rows of an event.
pub open spec fn count_event(rows: Seq<Event>, event: Seq<char>) -> nat {
    count_rows(rows, Column::Any, Seq::empty(), Some(event))
}

/// Whether a row is of a search that ast-grep filtered.
pub open spec fn is_structural(e: Event) -> bool {
    e.event == "structural"@
}

/// The lower case of an ASCII letter; any other character as it is.
pub open spec fn ascii_lower(c: char) -> char {
    if 'A' <= c <= 'Z' {
        (c as u32 + 32) as char
    } else {
        c
    }
}

/// A text with its ASCII letters in lower case.
pub open spec fn lowered(s: Seq<char>) -> Seq<char> {
    Seq::new(s.len(), |i: int| ascii_lower(s[i]))
}

/// Whether an event is an error or a fallback to ripgrep.
pub open spec fn is_failure(event: Seq<char>) -> bool {
    text::has_infix(lowered(event), "error"@) || event == "untranslatable"@ || event
        == "fallback"@
}

/// The number of rows of errors and fallbacks.
pub open spec fn count_failures(rows: Seq<Event>) -> nat
    decreases rows.len(),
{
    if rows.len() == 0 {
        0
    } else {
        count_failures(rows.drop_last()) + if is_failure(rows.last().event) {
            1nat
        } else {
            0nat
        }
    }
}

/// The parts of the fraction of redirected searches: the searches that ast-grep filtered, of those
/// that matched anything.
pub open spec fn ratio(total: nat, structural: nat, no_match: nat) -> (nat, nat) {
    (
        structural,
        if total > no_match {
            (total - no_match) as nat
        } else {
            0
        },
    )
}

/// The matches of the searches that ast-grep filtered.
pub open spec fn structural_matches(rows: Seq<Event>) -> Seq<int>
    decreases rows.len(),
{
    if rows.len() == 0 {
        Seq::empty()
    } else if is_structural(rows.last()) {
        structural_matches(rows.drop_last()).push(rows.last().matches)
    } else {
        structural_matches(rows.drop_last())
    }
}

/// A sum that is none below zero.
pub open spec fn sum_or_zero(sum: Option<int>) -> nat {
    match sum {
        Some(n) => if n >= 0 {
            n as nat
        } else {
            0
        },
        None => 0,
    }
}

/// The number of rows with a value in a column and, where one is given, of an event.
fn count(rows: &[EventRow], column: Column, value: &str, event: Option<&str>) -> (r: u64)
    ensures
        r == count_rows(
            events(rows@),
            column,
            value@,
            match event {
                Some(e) => Some(e@),
                None => None,
            },
        ),
{
    let ghost all = events(rows@);
    let ghost wanted = match event {
        Some(e) => Some(e@),
        None => None,
    };
    let mut n: u64 = 0;
    let mut i: usize = 0;
    while i < rows.len()
        invariant
            all == events(rows@),
            wanted == match event {
                Some(e) => Some(e@),
                None => None,
            },
            i <= rows@.len(),
            n <= i,
            n == count_rows(all.take(i as int), column, value@, wanted),
        decreases rows@.len() - i,
    {
        let row: &EventRow = &rows[i];
        assert(all.take(i + 1).drop_last() =~= all.take(i as int));
        assert(all.take(i + 1).last() == row@);
        let in_column = match column {
            Column::Any => true,
            Column::Agent => same_text(row.agent.as_str(), value),
            Column::Day => match &row.day {
                Some(d) => same_text(d.as_str(), value),
                None => false,
            },
        };
        let of_event = match event {
            Some(e) => same_text(row.event.as_str(), e),
            None => true,
        };
        if in_column && of_event {
            n += 1;
        }
        i += 1;
    }
    assert(all.take(i as int) =~= all);
    n
}

/// The number of rows of an event.
fn count_of(rows: &[EventRow], event: &str) -> (r: u64)
    ensures
        r == count_event(events(rows@), event@),
{
    proof {
        reveal_strlit("");
        assert(""@ =~= Seq::<char>::empty());
    }
    count(rows, Column::Any, "", Some(event))
}

/// The lower case of an ASCII letter; any other character as it is.
fn to_ascii_lower(c: char) -> (r: char)
    ensures
        r == ascii_lower(c),
{
    if 'A' <= c && c <= 'Z' {
        let n: u8 = c as u8;
        (n + 32) as char
    } else {
        c
    }
}

/// Whether an event is an error or a fallback to ripgrep.
pub fn is_error_event(event: &str) -> (r: bool)
    ensures
        r == is_failure(event@),
{
    let chars: Vec<char> = chars_of(event);
    let mut low: Vec<char> = Vec::new();
    let mut i: usize = 0;
    while i < chars.len()
        invariant
            i <= chars@.len(),
            low@ =~= lowered(chars@).take(i as int),
        decreases chars@.len() - i,
    {
        low.push(to_ascii_lower(chars[i]));
        i += 1;
    }
    assert(low@ =~= lowered(event@));
    text::has_piece(&low, "error") || same_text(event, "untranslatable") || same_text(
        event,
        "fallback",
    )
}

/// The number of rows of errors and fallbacks.
fn count_errors(rows: &[EventRow]) -> (r: u64)
    ensures
        r == count_failures(events(rows@)),
{
    let ghost all = events(rows@);
    let mut n: u64 = 0;
    let mut i: usize = 0;
    while i < rows.len()
        invariant
            all == events(rows@),
            i <= rows@.len(),
            n <= i,
            n == count_failures(all.take(i as int)),
        decreases rows@.len() - i,
    {
        assert(all.take(i + 1).drop_last() =~= all.take(i as int));
        assert(all.take(i + 1).last() == rows@[i as int]@);
        if is_error_event(rows[i].event.as_str()) {
            n += 1;
        }
        i += 1;
    }
    assert(all.take(i as int) =~= all);
    n
}

/// The searches that ast-grep filtered, and the searches that matched anything: the parts of the
/// fraction of redirected searches. A search without matches is neither a success nor a failure.
pub fn redirect_ratio(total: u64, structural: u64, no_match: u64) -> (r: (u64, u64))
    ensures
        (r.0 as nat, r.1 as nat) == ratio(total as nat, structural as nat, no_match as nat),
{
    (structural, total.saturating_sub(no_match))
}

/// The matches of the searches that ast-grep filtered, added up.
fn total_matches(rows: &[EventRow]) -> (r: u64)
    ensures
        r == sum_or_zero(sums::checked_sum(structural_matches(events(rows@)))),
{
    let ghost all = events(rows@);
    let mut sum: Option<i64> = Some(0);
    let mut i: usize = 0;
    while i < rows.len()
        invariant
            all == events(rows@),
            i <= rows@.len(),
            sums::sum_of(sum) == sums::checked_sum(structural_matches(all.take(i as int))),
        decreases rows@.len() - i,
    {
        let ghost had = structural_matches(all.take(i as int));
        assert(all.take(i + 1).drop_last() =~= all.take(i as int));
        assert(all.take(i + 1).last() == rows@[i as int]@);
        if same_text(rows[i].event.as_str(), "structural") {
            sum = add_checked(sum, rows[i].matches as i128);
            assert(had.push(rows@[i as int].matches as int).drop_last() =~= had);
        }
        i += 1;
    }
    assert(all.take(i as int) =~= all);
    match sum {
        Some(n) => if n >= 0 {
            n as u64
        } else {
            0
        },
        None => 0,
    }
}

/// The texts among some that are not empty.
pub open spec fn nonempty(list: Seq<Seq<char>>) -> Seq<Seq<char>>
    decreases list.len(),
{
    if list.len() == 0 {
        list
    } else if list.last().len() == 0 {
        nonempty(list.drop_last())
    } else {
        nonempty(list.drop_last()).push(list.last())
    }
}

/// The languages that a row names. A search confirmed in several of them names them all, with
/// commas between them.
pub open spec fn named_languages(e: Event) -> Seq<Seq<char>> {
    nonempty(text::split(e.lang, ','))
}

/// The languages of the searches that ast-grep filtered, each as often as a search names it.
pub open spec fn credited(rows: Seq<Event>) -> Seq<Seq<char>>
    decreases rows.len(),
{
    if rows.len() == 0 {
        Seq::empty()
    } else if is_structural(rows.last()) {
        credited(rows.drop_last()) + named_languages(rows.last())
    } else {
        credited(rows.drop_last())
    }
}

/// The languages named by searches for a pattern that ast-grep filtered.
pub open spec fn credited_for(rows: Seq<Event>, pattern: Seq<char>) -> Seq<Seq<char>>
    decreases rows.len(),
{
    if rows.len() == 0 {
        Seq::empty()
    } else if is_structural(rows.last()) && rows.last().pattern == pattern {
        credited_for(rows.drop_last(), pattern) + named_languages(rows.last())
    } else {
        credited_for(rows.drop_last(), pattern)
    }
}

/// The patterns of the searches that ast-grep filtered.
pub open spec fn structural_patterns(rows: Seq<Event>) -> Seq<Seq<char>>
    decreases rows.len(),
{
    if rows.len() == 0 {
        Seq::empty()
    } else if is_structural(rows.last()) {
        structural_patterns(rows.drop_last()).push(rows.last().pattern)
    } else {
        structural_patterns(rows.drop_last())
    }
}

/// A pattern with each of some languages and their counts.
pub open spec fn with_pattern(pattern: Seq<char>, langs: Seq<(Seq<char>, nat)>) -> Seq<Ranked> {
    Seq::new(langs.len(), |i: int| Ranked { name: pattern, lang: langs[i].0, count: langs[i].1 })
}

/// Each of some patterns with each of the languages in which it was found, and how often.
pub open spec fn pattern_entries(rows: Seq<Event>, patterns: Seq<Seq<char>>) -> Seq<Ranked>
    decreases patterns.len(),
{
    if patterns.len() == 0 {
        Seq::empty()
    } else {
        pattern_entries(rows, patterns.drop_last()) + with_pattern(
            patterns.last(),
            order::tallied(credited_for(rows, patterns.last())),
        )
    }
}

/// The most patterns in the list of the most frequent.
pub const TOP_PATTERNS: usize = 10;

/// At most as many entries as a list may have.
pub open spec fn at_most<A>(list: Seq<A>, n: nat) -> Seq<A> {
    if list.len() > n {
        list.take(n as int)
    } else {
        list
    }
}

/// The most frequent patterns, each with a language in which it was found.
pub open spec fn top_patterns(rows: Seq<Event>) -> Seq<Ranked> {
    at_most(
        rank::ranked(pattern_entries(rows, order::sorted(structural_patterns(rows)))),
        TOP_PATTERNS as nat,
    )
}

/// Adds the languages that a row names to a list.
fn push_languages(list: &mut Vec<String>, row: &EventRow)
    ensures
        text::texts(final(list)@) == text::texts(old(list)@) + named_languages(row@),
{
    let ghost had = text::texts(list@);
    let pieces: Vec<String> = split_text(row.lang.as_str(), ',');
    let ghost all = text::split(row.lang@, ',');
    let mut i: usize = 0;
    assert(text::texts(list@) =~= had + nonempty(all.take(0)));
    while i < pieces.len()
        invariant
            all == text::texts(pieces@),
            i <= pieces@.len(),
            text::texts(list@) =~= had + nonempty(all.take(i as int)),
        decreases pieces@.len() - i,
    {
        let ghost before = text::texts(list@);
        assert(all.take(i + 1).drop_last() =~= all.take(i as int));
        assert(all.take(i + 1).last() == pieces@[i as int]@);
        if !is_empty_text(pieces[i].as_str()) {
            list.push(pieces[i].clone());
            assert(text::texts(list@) =~= before.push(all[i as int]));
        }
        i += 1;
    }
    assert(all.take(i as int) =~= all);
}

/// Whether a text is empty.
fn is_empty_text(s: &str) -> (r: bool)
    ensures
        r == (s@.len() == 0),
{
    proof {
        reveal_strlit("");
        if s@.len() == 0 {
            assert(s@ =~= ""@);
        }
    }
    same_text(s, "")
}

/// How often each language was credited with a search that ast-grep filtered. A search that names
/// several languages counts for each of them.
pub fn language_counts(rows: &[EventRow]) -> (r: Vec<(String, u64)>)
    ensures
        order::counts(r@) == order::tallied(credited(events(rows@))),
{
    let ghost all = events(rows@);
    let mut list: Vec<String> = Vec::new();
    let mut i: usize = 0;
    while i < rows.len()
        invariant
            all == events(rows@),
            i <= rows@.len(),
            text::texts(list@) =~= credited(all.take(i as int)),
        decreases rows@.len() - i,
    {
        assert(all.take(i + 1).drop_last() =~= all.take(i as int));
        assert(all.take(i + 1).last() == rows@[i as int]@);
        if same_text(rows[i].event.as_str(), "structural") {
            push_languages(&mut list, &rows[i]);
        }
        i += 1;
    }
    assert(all.take(i as int) =~= all);
    tally(list.as_slice())
}

/// The languages named by searches for a pattern that ast-grep filtered.
fn languages_for(rows: &[EventRow], pattern: &str) -> (r: Vec<String>)
    ensures
        text::texts(r@) == credited_for(events(rows@), pattern@),
{
    let ghost all = events(rows@);
    let mut list: Vec<String> = Vec::new();
    let mut i: usize = 0;
    while i < rows.len()
        invariant
            all == events(rows@),
            i <= rows@.len(),
            text::texts(list@) =~= credited_for(all.take(i as int), pattern@),
        decreases rows@.len() - i,
    {
        assert(all.take(i + 1).drop_last() =~= all.take(i as int));
        assert(all.take(i + 1).last() == rows@[i as int]@);
        if same_text(rows[i].event.as_str(), "structural") && same_text(
            rows[i].pattern.as_str(),
            pattern,
        ) {
            push_languages(&mut list, &rows[i]);
        }
        i += 1;
    }
    assert(all.take(i as int) =~= all);
    list
}

/// The patterns of the searches that ast-grep filtered, in order, each of them once.
fn distinct_patterns(rows: &[EventRow]) -> (r: Vec<String>)
    ensures
        text::texts(r@) == order::sorted(structural_patterns(events(rows@))),
{
    let ghost all = events(rows@);
    let mut list: Vec<String> = Vec::new();
    let mut i: usize = 0;
    while i < rows.len()
        invariant
            all == events(rows@),
            i <= rows@.len(),
            text::texts(list@) =~= structural_patterns(all.take(i as int)),
        decreases rows@.len() - i,
    {
        let ghost had = text::texts(list@);
        assert(all.take(i + 1).drop_last() =~= all.take(i as int));
        assert(all.take(i + 1).last() == rows@[i as int]@);
        if same_text(rows[i].event.as_str(), "structural") {
            list.push(rows[i].pattern.clone());
            assert(text::texts(list@) =~= had.push(rows@[i as int].pattern@));
        }
        i += 1;
    }
    assert(all.take(i as int) =~= all);
    sort_texts(list.as_slice())
}

/// The most frequent patterns, each with a language in which it was found. A search that names
/// several languages counts for each of them.
pub fn top_pattern_stats(rows: &[EventRow]) -> (r: Vec<PatternStat>)
    ensures
        rank::entries(r@) == top_patterns(events(rows@)),
{
    let ghost all = events(rows@);
    let patterns: Vec<String> = distinct_patterns(rows);
    let ghost names = text::texts(patterns@);
    let mut list: Vec<PatternStat> = Vec::new();
    let mut i: usize = 0;
    assert(rank::entries(list@) =~= pattern_entries(all, names.take(0)));
    while i < patterns.len()
        invariant
            all == events(rows@),
            names == text::texts(patterns@),
            i <= patterns@.len(),
            rank::entries(list@) =~= pattern_entries(all, names.take(i as int)),
        decreases patterns@.len() - i,
    {
        let langs: Vec<(String, u64)> = tally(
            languages_for(rows, patterns[i].as_str()).as_slice(),
        );
        let ghost pattern = names[i as int];
        let ghost had = rank::entries(list@);
        let ghost more = with_pattern(pattern, order::counts(langs@));
        let mut k: usize = 0;
        assert(rank::entries(list@) =~= had + more.take(0));
        while k < langs.len()
            invariant
                i < patterns@.len(),
                pattern == patterns@[i as int]@,
                more == with_pattern(pattern, order::counts(langs@)),
                k <= langs@.len(),
                rank::entries(list@) =~= had + more.take(k as int),
            decreases langs@.len() - k,
        {
            let ghost before = rank::entries(list@);
            let entry: &(String, u64) = &langs[k];
            list.push(
                PatternStat {
                    pattern: patterns[i].clone(),
                    lang: entry.0.clone(),
                    count: entry.1,
                },
            );
            assert(order::counts(langs@)[k as int] == (entry.0@, entry.1 as nat));
            assert(rank::entries(list@) =~= before.push(more[k as int]));
            k += 1;
        }
        assert(more.take(k as int) =~= more);
        assert(names.take(i + 1).drop_last() =~= names.take(i as int));
        i += 1;
    }
    assert(names.take(i as int) =~= names);
    let mut top: Vec<PatternStat> = rank::rank(list);
    let ghost whole = rank::entries(top@);
    if top.len() > TOP_PATTERNS {
        top.truncate(TOP_PATTERNS);
        assert(rank::entries(top@) =~= whole.take(TOP_PATTERNS as int));
    }
    top
}

/// The events of some rows.
pub open spec fn event_names(rows: Seq<Event>) -> Seq<Seq<char>> {
    Seq::new(rows.len(), |i: int| rows[i].event)
}

/// The agents of some rows.
pub open spec fn agent_names(rows: Seq<Event>) -> Seq<Seq<char>> {
    Seq::new(rows.len(), |i: int| rows[i].agent)
}

/// The days of some rows, where they can be told.
pub open spec fn day_names(rows: Seq<Event>) -> Seq<Seq<char>>
    decreases rows.len(),
{
    if rows.len() == 0 {
        Seq::empty()
    } else {
        match rows.last().day {
            Some(d) => day_names(rows.drop_last()).push(d),
            None => day_names(rows.drop_last()),
        }
    }
}

/// How often each event occurred.
pub fn event_counts(rows: &[EventRow]) -> (r: Vec<(String, u64)>)
    ensures
        order::counts(r@) == order::tallied(event_names(events(rows@))),
{
    let ghost all = event_names(events(rows@));
    let mut list: Vec<String> = Vec::new();
    let mut i: usize = 0;
    while i < rows.len()
        invariant
            all == event_names(events(rows@)),
            i <= rows@.len(),
            text::texts(list@) =~= all.take(i as int),
        decreases rows@.len() - i,
    {
        let ghost had = text::texts(list@);
        list.push(rows[i].event.clone());
        assert(text::texts(list@) =~= had.push(all[i as int]));
        i += 1;
    }
    assert(text::texts(list@) =~= all);
    tally(list.as_slice())
}

/// The searches of a day.
#[verifier::ext_equal]
pub struct DayFigures {
    pub day: Seq<char>,
    pub total: nat,
    pub structural: nat,
    pub no_match: nat,
}

/// The searches of a day: all of them, those that ast-grep filtered, and those without a match.
#[derive(Debug)]
pub struct DayStats {
    pub day: String,
    pub total: u64,
    pub structural: u64,
    pub no_match: u64,
}

impl View for DayStats {
    type V = DayFigures;

    open spec fn view(&self) -> DayFigures {
        DayFigures {
            day: self.day@,
            total: self.total as nat,
            structural: self.structural as nat,
            no_match: self.no_match as nat,
        }
    }
}

/// What a list of days stands for.
pub open spec fn days(list: Seq<DayStats>) -> Seq<DayFigures> {
    Seq::new(list.len(), |i: int| list[i]@)
}

/// The searches of a day.
pub open spec fn day_figures(rows: Seq<Event>, day: Seq<char>) -> DayFigures {
    DayFigures {
        day,
        total: count_rows(rows, Column::Day, day, None),
        structural: count_rows(rows, Column::Day, day, Some("structural"@)),
        no_match: count_rows(rows, Column::Day, day, Some("no_match"@)),
    }
}

/// The searches by day, from the first day on.
pub open spec fn by_day(rows: Seq<Event>) -> Seq<DayFigures> {
    let names = order::sorted(day_names(rows));
    Seq::new(names.len(), |i: int| day_figures(rows, names[i]))
}

/// The searches by day, from the first day on.
pub fn day_counts(rows: &[EventRow]) -> (r: Vec<DayStats>)
    ensures
        days(r@) == by_day(events(rows@)),
{
    let ghost all = events(rows@);
    let mut list: Vec<String> = Vec::new();
    let mut i: usize = 0;
    while i < rows.len()
        invariant
            all == events(rows@),
            i <= rows@.len(),
            text::texts(list@) =~= day_names(all.take(i as int)),
        decreases rows@.len() - i,
    {
        let ghost had = text::texts(list@);
        assert(all.take(i + 1).drop_last() =~= all.take(i as int));
        assert(all.take(i + 1).last() == rows@[i as int]@);
        if let Some(d) = &rows[i].day {
            list.push(d.clone());
            assert(text::texts(list@) =~= had.push(d@));
        }
        i += 1;
    }
    assert(all.take(i as int) =~= all);
    let names: Vec<String> = sort_texts(list.as_slice());
    let mut out: Vec<DayStats> = Vec::new();
    let mut k: usize = 0;
    while k < names.len()
        invariant
            all == events(rows@),
            text::texts(names@) == order::sorted(day_names(all)),
            k <= names@.len(),
            days(out@) =~= by_day(all).take(k as int),
        decreases names@.len() - k,
    {
        let ghost had = days(out@);
        let name: &str = names[k].as_str();
        assert(text::texts(names@)[k as int] == name@);
        let d = DayStats {
            day: names[k].clone(),
            total: count(rows, Column::Day, name, None),
            structural: count(rows, Column::Day, name, Some("structural")),
            no_match: count(rows, Column::Day, name, Some("no_match")),
        };
        out.push(d);
        assert(days(out@) =~= had.push(by_day(all)[k as int]));
        k += 1;
    }
    out
}

/// The searches of an agent.
#[verifier::ext_equal]
pub struct AgentFigures {
    pub agent: Seq<char>,
    pub total: nat,
    pub structural: nat,
    pub passthrough: nat,
}

/// The searches of an agent: all of them, those that ast-grep filtered, and those that went to
/// ripgrep as they are.
#[derive(Debug)]
pub struct AgentStats {
    pub agent: String,
    pub total: u64,
    pub structural: u64,
    pub passthrough: u64,
}

impl View for AgentStats {
    type V = AgentFigures;

    open spec fn view(&self) -> AgentFigures {
        AgentFigures {
            agent: self.agent@,
            total: self.total as nat,
            structural: self.structural as nat,
            passthrough: self.passthrough as nat,
        }
    }
}

/// What a list of agents stands for.
pub open spec fn agents(list: Seq<AgentStats>) -> Seq<AgentFigures> {
    Seq::new(list.len(), |i: int| list[i]@)
}

/// Counted texts as entries to rank, without a language.
pub open spec fn without_lang(list: Seq<(Seq<char>, nat)>) -> Seq<Ranked> {
    Seq::new(
        list.len(),
        |i: int| Ranked { name: list[i].0, lang: Seq::empty(), count: list[i].1 },
    )
}

/// The searches of an agent.
pub open spec fn agent_figures(rows: Seq<Event>, e: Ranked) -> AgentFigures {
    AgentFigures {
        agent: e.name,
        total: e.count,
        structural: count_rows(rows, Column::Agent, e.name, Some("structural"@)),
        passthrough: count_rows(rows, Column::Agent, e.name, Some("passthrough"@)),
    }
}

/// The searches by agent, the one with the most searches first.
pub open spec fn by_agent(rows: Seq<Event>) -> Seq<AgentFigures> {
    let names = rank::ranked(without_lang(order::tallied(agent_names(rows))));
    Seq::new(names.len(), |i: int| agent_figures(rows, names[i]))
}

/// Counted texts by rank, the most frequent first.
pub fn rank_counts(list: Vec<(String, u64)>) -> (r: Vec<PatternStat>)
    ensures
        rank::entries(r@) == rank::ranked(without_lang(order::counts(list@))),
{
    let ghost all = without_lang(order::counts(list@));
    let mut out: Vec<PatternStat> = Vec::new();
    let mut i: usize = 0;
    while i < list.len()
        invariant
            all == without_lang(order::counts(list@)),
            i <= list@.len(),
            rank::entries(out@) =~= all.take(i as int),
        decreases list@.len() - i,
    {
        let ghost had = rank::entries(out@);
        let entry: &(String, u64) = &list[i];
        let lang = String::new();
        assert(lang@ =~= Seq::<char>::empty());
        out.push(PatternStat { pattern: entry.0.clone(), lang, count: entry.1 });
        assert(rank::entries(out@) =~= had.push(all[i as int]));
        i += 1;
    }
    assert(rank::entries(out@) =~= all);
    rank::rank(out)
}

/// The searches by agent, the one with the most searches first.
pub fn agent_counts(rows: &[EventRow]) -> (r: Vec<AgentStats>)
    ensures
        agents(r@) == by_agent(events(rows@)),
{
    let ghost all = events(rows@);
    let ghost named = agent_names(all);
    let mut list: Vec<String> = Vec::new();
    let mut i: usize = 0;
    while i < rows.len()
        invariant
            all == events(rows@),
            named == agent_names(all),
            i <= rows@.len(),
            text::texts(list@) =~= named.take(i as int),
        decreases rows@.len() - i,
    {
        let ghost had = text::texts(list@);
        list.push(rows[i].agent.clone());
        assert(text::texts(list@) =~= had.push(named[i as int]));
        i += 1;
    }
    assert(text::texts(list@) =~= named);
    let names: Vec<PatternStat> = rank_counts(tally(list.as_slice()));
    let mut out: Vec<AgentStats> = Vec::new();
    let mut k: usize = 0;
    while k < names.len()
        invariant
            all == events(rows@),
            rank::entries(names@) == rank::ranked(
                without_lang(order::tallied(agent_names(all))),
            ),
            k <= names@.len(),
            agents(out@) =~= by_agent(all).take(k as int),
        decreases names@.len() - k,
    {
        let ghost had = agents(out@);
        let e: &PatternStat = &names[k];
        assert(rank::entries(names@)[k as int] == e@);
        let a = AgentStats {
            agent: e.pattern.clone(),
            total: e.count,
            structural: count(rows, Column::Agent, e.pattern.as_str(), Some("structural")),
            passthrough: count(rows, Column::Agent, e.pattern.as_str(), Some("passthrough")),
        };
        out.push(a);
        assert(agents(out@) =~= had.push(by_agent(all)[k as int]));
        k += 1;
    }
    out
}

/// A search that ast-grep filtered, as the list of the latest shows it.
#[verifier::ext_equal]
pub struct Recent {
    pub pattern: Seq<char>,
    pub lang: Seq<char>,
    pub matches: nat,
    pub agent: Seq<char>,
    pub ts: Seq<char>,
}

/// A search that ast-grep filtered, as the list of the latest shows it.
#[derive(Debug)]
pub struct RecentEntry {
    pub pattern: String,
    pub lang: String,
    pub matches: u64,
    pub agent: String,
    pub ts: String,
}

impl View for RecentEntry {
    type V = Recent;

    open spec fn view(&self) -> Recent {
        Recent {
            pattern: self.pattern@,
            lang: self.lang@,
            matches: self.matches as nat,
            agent: self.agent@,
            ts: self.ts@,
        }
    }
}

/// What a list of the latest searches stands for.
pub open spec fn recents(list: Seq<RecentEntry>) -> Seq<Recent> {
    Seq::new(list.len(), |i: int| list[i]@)
}

/// The most searches in the list of the latest.
pub const RECENT: usize = 15;

/// A row as the list of the latest shows it. A row without a time, or with a number of matches
/// below zero, is not shown.
pub open spec fn recent_of(e: Event) -> Seq<Recent> {
    match e.at {
        Some(ts) => if e.matches >= 0 {
            seq![
                Recent {
                    pattern: e.pattern,
                    lang: e.lang,
                    matches: e.matches as nat,
                    agent: e.agent,
                    ts,
                },
            ]
        } else {
            Seq::empty()
        },
        None => Seq::empty(),
    }
}

/// The latest `n` searches that ast-grep filtered, the last one first.
pub open spec fn latest(rows: Seq<Event>, n: nat) -> Seq<Recent>
    decreases rows.len(),
{
    if rows.len() == 0 || n == 0 {
        Seq::empty()
    } else if is_structural(rows.last()) {
        recent_of(rows.last()) + latest(rows.drop_last(), (n - 1) as nat)
    } else {
        latest(rows.drop_last(), n)
    }
}

/// The latest searches that ast-grep filtered, the last one first.
pub fn recent_redirects(rows: &[EventRow]) -> (r: Vec<RecentEntry>)
    ensures
        recents(r@) == latest(events(rows@), RECENT as nat),
{
    let ghost all = events(rows@);
    let mut out: Vec<RecentEntry> = Vec::new();
    let mut left: usize = RECENT;
    let mut i: usize = rows.len();
    assert(all.take(i as int) =~= all);
    while i > 0 && left > 0
        invariant
            all == events(rows@),
            i <= rows@.len(),
            recents(out@) + latest(all.take(i as int), left as nat) =~= latest(
                all,
                RECENT as nat,
            ),
        decreases i,
    {
        let row: &EventRow = &rows[i - 1];
        let ghost front = all.take(i as int);
        let ghost had = recents(out@);
        assert(front.last() == row@);
        assert(front.drop_last() =~= all.take(i - 1));
        if same_text(row.event.as_str(), "structural") {
            if let Some(ts) = &row.at {
                if row.matches >= 0 {
                    out.push(
                        RecentEntry {
                            pattern: row.pattern.clone(),
                            lang: row.lang.clone(),
                            matches: row.matches as u64,
                            agent: row.agent.clone(),
                            ts: ts.clone(),
                        },
                    );
                    assert(recents(out@) =~= had + recent_of(row@));
                }
            }
            left -= 1;
        }
        i -= 1;
    }
    assert(latest(all.take(i as int), left as nat) =~= Seq::<Recent>::empty());
    out
}

/// The statistics.
#[verifier::ext_equal]
pub struct Report {
    pub total_intercepted: nat,
    pub structural: nat,
    pub passthrough: nat,
    pub errors: nat,
    pub no_match: nat,
    pub redirects: (nat, nat),
    pub total_matches_found: nat,
    pub totals: Totals,
    pub by_event: Seq<(Seq<char>, nat)>,
    pub by_agent: Seq<AgentFigures>,
    pub by_language: Seq<(Seq<char>, nat)>,
    pub by_day: Seq<DayFigures>,
    pub top_patterns: Seq<Ranked>,
    pub recent_redirects: Seq<Recent>,
    pub comparisons: Seq<Listed>,
}

/// The statistics: what became of the searches, by event, agent, language, day and pattern, and
/// what ast-grep spared.
#[derive(Debug)]
pub struct StatsReport {
    pub total_intercepted: u64,
    pub structural: u64,
    pub passthrough: u64,
    pub errors: u64,
    /// The searches without a match, of which ast-grep was not asked.
    pub no_match: u64,
    /// The parts of the fraction of redirected searches.
    pub redirects: (u64, u64),
    pub total_matches_found: u64,
    /// The sums over all the comparisons.
    pub totals: ComparisonTotals,
    pub by_event: Vec<(String, u64)>,
    pub by_agent: Vec<AgentStats>,
    pub by_language: Vec<(String, u64)>,
    pub by_day: Vec<DayStats>,
    pub top_patterns: Vec<PatternStat>,
    pub recent_redirects: Vec<RecentEntry>,
    /// The latest comparisons.
    pub comparisons: Vec<ComparisonStat>,
}

impl View for StatsReport {
    type V = Report;

    open spec fn view(&self) -> Report {
        Report {
            total_intercepted: self.total_intercepted as nat,
            structural: self.structural as nat,
            passthrough: self.passthrough as nat,
            errors: self.errors as nat,
            no_match: self.no_match as nat,
            redirects: (self.redirects.0 as nat, self.redirects.1 as nat),
            total_matches_found: self.total_matches_found as nat,
            totals: self.totals@,
            by_event: order::counts(self.by_event@),
            by_agent: agents(self.by_agent@),
            by_language: order::counts(self.by_language@),
            by_day: days(self.by_day@),
            top_patterns: rank::entries(self.top_patterns@),
            recent_redirects: recents(self.recent_redirects@),
            comparisons: savings::listed(self.comparisons@),
        }
    }
}

/// The statistics of nothing.
pub open spec fn nothing_logged() -> Report {
    Report {
        total_intercepted: 0,
        structural: 0,
        passthrough: 0,
        errors: 0,
        no_match: 0,
        redirects: (0, 0),
        total_matches_found: 0,
        totals: savings::no_totals(),
        by_event: Seq::empty(),
        by_agent: Seq::empty(),
        by_language: Seq::empty(),
        by_day: Seq::empty(),
        top_patterns: Seq::empty(),
        recent_redirects: Seq::empty(),
        comparisons: Seq::empty(),
    }
}

/// The statistics of the rows of the two logs. Without a search there are none.
pub open spec fn report(rows: Seq<Event>, runs: Seq<Run>) -> Report {
    if rows.len() == 0 {
        nothing_logged()
    } else {
        Report {
            total_intercepted: rows.len(),
            structural: count_event(rows, "structural"@),
            passthrough: count_event(rows, "passthrough"@),
            errors: count_failures(rows),
            no_match: count_event(rows, "no_match"@),
            redirects: ratio(
                rows.len(),
                count_event(rows, "structural"@),
                count_event(rows, "no_match"@),
            ),
            total_matches_found: sum_or_zero(sums::checked_sum(structural_matches(rows))),
            totals: match savings::totals_of(runs) {
                Some(t) => t,
                None => savings::no_totals(),
            },
            by_event: order::tallied(event_names(rows)),
            by_agent: by_agent(rows),
            by_language: order::tallied(credited(rows)),
            by_day: by_day(rows),
            top_patterns: top_patterns(rows),
            recent_redirects: latest(rows, RECENT as nat),
            comparisons: savings::page(runs, savings::COMPARISON_PAGE as nat),
        }
    }
}

/// The statistics of nothing.
pub fn empty_stats() -> (r: StatsReport)
    ensures
        r@ == nothing_logged(),
{
    let r = StatsReport {
        total_intercepted: 0,
        structural: 0,
        passthrough: 0,
        errors: 0,
        no_match: 0,
        redirects: (0, 0),
        total_matches_found: 0,
        totals: ComparisonTotals { runs: 0, files_saved: 0, false_positives: 0, tokens_saved: 0 },
        by_event: Vec::new(),
        by_agent: Vec::new(),
        by_language: Vec::new(),
        by_day: Vec::new(),
        top_patterns: Vec::new(),
        recent_redirects: Vec::new(),
        comparisons: Vec::new(),
    };
    assert(r@ =~= nothing_logged());
    r
}

/// The statistics of the rows of the two logs, each with the oldest row first.
pub fn compute_stats(rows: &[EventRow], runs: &[ComparisonRow]) -> (r: StatsReport)
    ensures
        r@ == report(events(rows@), savings::runs(runs@)),
{
    if rows.len() == 0 {
        return empty_stats();
    }
    let total: u64 = rows.len() as u64;
    let structural: u64 = count_of(rows, "structural");
    let no_match: u64 = count_of(rows, "no_match");
    StatsReport {
        total_intercepted: total,
        structural,
        passthrough: count_of(rows, "passthrough"),
        errors: count_errors(rows),
        no_match,
        redirects: redirect_ratio(total, structural, no_match),
        total_matches_found: total_matches(rows),
        totals: comparison_totals(runs),
        by_event: event_counts(rows),
        by_agent: agent_counts(rows),
        by_language: language_counts(rows),
        by_day: day_counts(rows),
        top_patterns: top_pattern_stats(rows),
        recent_redirects: recent_redirects(rows),
        comparisons: comparison_page(runs),
    }
}

} // verus!
