//! What the values of the library stand for: each field of a value stands for itself, and a list
//! stands for its entries in order.

use crate::args;
use crate::args::RgInvocation;
use crate::filter;
use crate::found;
use crate::found::{AgMatch, Captured, RgCapture, RgMatch, RgRecord, Said};
use crate::home;
use crate::json;
use crate::lang;
use crate::lang::Group;
use crate::order;
use crate::pipeline::{
    After, AfterCapture, Comparison, Ending, LogEntry, Next, Step,
};
use crate::rank;
use crate::rank::PatternStat;
use crate::savings;
use crate::savings::{ComparisonRow, ComparisonStat, ComparisonTotals};
use crate::stats;
use crate::stats::{AgentStats, DayStats, EventRow, RecentEntry, StatsReport};
use crate::text;
use vstd::prelude::*;

verus! {

/// Lists of strings, and optional strings, stand for their texts.
pub proof fn texts_stand_for_themselves(list: Seq<String>, s: Option<String>, i: int)
    ensures
        text::texts(list).len() == list.len(),
        0 <= i < list.len() ==> text::texts(list)[i] == list[i]@,
        s is Some ==> text::text_of(s) == Some(s->0@),
        s is None ==> text::text_of(s) is None,
{
}

/// Matches and pieces of code stand for their files, lines and texts.
pub proof fn matches_stand_for_their_fields(
    m: RgMatch,
    n: AgMatch,
    hits: Seq<RgMatch>,
    nodes: Seq<AgMatch>,
    i: int,
)
    ensures
        m@.file == m.file@,
        m@.line == m.line,
        m@.text == m.text@,
        n@.file == n.file@,
        n@.line == n.line,
        n@.end_line == n.end_line,
        n@.text == n.text@,
        found::hits(hits).len() == hits.len(),
        0 <= i < hits.len() ==> found::hits(hits)[i].file == hits[i].file@ && found::hits(
            hits,
        )[i].line == hits[i].line && found::hits(hits)[i].text == hits[i].text@,
        found::nodes(nodes).len() == nodes.len(),
        0 <= i < nodes.len() ==> found::nodes(nodes)[i].file == nodes[i].file@ && found::nodes(
            nodes,
        )[i].line == nodes[i].line && found::nodes(nodes)[i].end_line == nodes[i].end_line
            && found::nodes(nodes)[i].text == nodes[i].text@,
{
}

/// Records, and what came of a capture run, stand for what they say.
pub proof fn records_stand_for_what_they_say(
    m: RgMatch,
    kept: Vec<RgMatch>,
    list: Seq<RgRecord>,
    runs: Seq<Vec<AgMatch>>,
    i: int,
)
    ensures
        RgRecord::Match(m)@ == Said::Match(m@),
        RgRecord::Other@ == Said::Other,
        RgRecord::Unreadable@ == Said::Unreadable,
        found::records(list).len() == list.len(),
        0 <= i < list.len() ==> found::records(list)[i] == list[i]@,
        RgCapture::Matches(kept)@ == Captured::Matches(found::hits(kept@)),
        RgCapture::OverCap(kept)@ == Captured::OverCap(found::hits(kept@)),
        RgCapture::Failed@ == Captured::Failed,
        RgCapture::Unparseable@ == Captured::Unparseable,
        filter::found_by(runs).len() == runs.len(),
        0 <= i < runs.len() ==> filter::found_by(runs)[i] == found::nodes(runs[i]@),
{
}

/// What is known of a call stands for its fields.
pub proof fn calls_stand_for_their_fields(inv: RgInvocation, list: Seq<usize>, i: int)
    ensures
        inv@.pattern == text::text_of(inv.pattern),
        inv@.path == inv.path@,
        inv@.file_type == text::text_of(inv.file_type),
        inv@.count == inv.count,
        inv@.files_with_matches == inv.files_with_matches,
        inv@.pattern_less == inv.pattern_less,
        inv@.has_path == inv.has_path,
        inv@.reads_stdin == inv.reads_stdin,
        inv@.paths == text::texts(inv.paths@),
        inv@.globs == text::texts(inv.globs@),
        inv@.unsupported == text::text_of(inv.unsupported),
        inv@.no_smart == inv.no_smart,
        inv@.shim_flag_indices == args::positions(inv.shim_flag_indices@),
        inv@.line_numbers == inv.line_numbers,
        inv@.capture_argv == text::texts(inv.capture_argv@),
        args::positions(list).len() == list.len(),
        0 <= i < list.len() ==> args::positions(list)[i] == list[i],
{
}

/// Entries of the log, figures and endings stand for their fields.
pub proof fn endings_stand_for_their_fields(e: LogEntry, c: Comparison, end: Ending)
    ensures
        e@.event == e.event@,
        e@.pattern == e.pattern@,
        e@.reason == e.reason@,
        e@.lang == e.lang@,
        e@.matches == e.matches,
        c@.pattern == c.pattern@,
        c@.lang == c.lang@,
        c@.ag_matches == c.ag_matches,
        c@.ag_files == c.ag_files,
        c@.rg_results == c.rg_results,
        c@.rg_files == c.rg_files,
        end@.notice == text::text_of(end.notice),
        end@.output == end.output@,
        end@.code == end.code,
        end@.entry == end.entry@,
        end.figures is Some ==> end@.figures == Some(end.figures->0@),
        end.figures is None ==> end@.figures is None,
{
}

/// Steps stand for what comes next.
pub proof fn steps_stand_for_what_comes_next(
    e: LogEntry,
    p: String,
    end: Ending,
    confirm: AfterCapture,
    g: Group,
)
    ensures
        Step::Forward(Some(e))@ == Next::Forward(Some(e@)),
        Step::Forward(None)@ == Next::Forward(None),
        Step::Capture(p)@ == Next::Capture(p@),
        AfterCapture::Forward(e)@ == After::Forward(e@),
        AfterCapture::Stop(end)@ == After::Stop(end@),
        confirm is Confirm ==> confirm@ == (After::Confirm {
            hits: found::hits(confirm->hits@),
            by_lang: confirm->by_lang@,
            sg_pattern: confirm->sg_pattern@,
        }),
        g@.0 == g.lang@,
        g@.1 == text::texts(g.files@),
{
}

/// Rows of the log of searches stand for their fields.
pub proof fn rows_stand_for_their_fields(e: EventRow, list: Seq<EventRow>, i: int)
    ensures
        e@.agent == e.agent@,
        e@.event == e.event@,
        e@.pattern == e.pattern@,
        e@.lang == e.lang@,
        e@.matches == e.matches,
        e@.day == text::text_of(e.day),
        e@.at == text::text_of(e.at),
        stats::events(list).len() == list.len(),
        0 <= i < list.len() ==> stats::events(list)[i] == list[i]@,
{
}

/// Days, agents, patterns and the latest searches stand for their fields.
pub proof fn figures_stand_for_their_fields(
    d: DayStats,
    a: AgentStats,
    p: PatternStat,
    r: RecentEntry,
)
    ensures
        d@.day == d.day@,
        d@.total == d.total,
        d@.structural == d.structural,
        d@.no_match == d.no_match,
        a@.agent == a.agent@,
        a@.total == a.total,
        a@.structural == a.structural,
        a@.passthrough == a.passthrough,
        p@.name == p.pattern@,
        p@.lang == p.lang@,
        p@.count == p.count,
        r@.pattern == r.pattern@,
        r@.lang == r.lang@,
        r@.matches == r.matches,
        r@.agent == r.agent@,
        r@.ts == r.ts@,
{
}

/// Comparisons stand for their fields.
pub proof fn comparisons_stand_for_their_fields(
    c: ComparisonRow,
    s: ComparisonStat,
    t: ComparisonTotals,
)
    ensures
        c@.pattern == c.pattern@,
        c@.lang == c.lang@,
        c@.ag_matches == c.ag_matches,
        c@.ag_files == c.ag_files,
        c@.ag_time_ms == c.ag_time_ms,
        c@.rg_results == c.rg_results,
        c@.rg_files == c.rg_files,
        c@.rg_time_ms == c.rg_time_ms,
        c@.files_saved == c.files_saved,
        c@.estimated_tokens_saved == c.estimated_tokens_saved,
        c@.text_tokens == c.text_tokens,
        c@.ast_tokens == c.ast_tokens,
        s@.row == s.row,
        s@.run.pattern == s.pattern@,
        s@.run.lang == s.lang@,
        s@.run.ag_matches == s.ag_matches,
        s@.run.ag_files == s.ag_files,
        s@.run.ag_time_ms == s.ag_time_ms,
        s@.run.rg_results == s.rg_results,
        s@.run.rg_files == s.rg_files,
        s@.run.rg_time_ms == s.rg_time_ms,
        s@.run.files_saved == s.files_saved,
        s@.run.estimated_tokens_saved == s.estimated_tokens_saved,
        s@.run.text_tokens == s.text_tokens,
        s@.run.ast_tokens == s.ast_tokens,
        t@.runs == t.runs,
        t@.files_saved == t.files_saved,
        t@.false_positives == t.false_positives,
        t@.tokens_saved == t.tokens_saved,
{
}

/// A report stands for its parts.
pub proof fn reports_stand_for_their_parts(r: StatsReport)
    ensures
        r@.total_intercepted == r.total_intercepted,
        r@.structural == r.structural,
        r@.passthrough == r.passthrough,
        r@.errors == r.errors,
        r@.no_match == r.no_match,
        r@.redirects.0 == r.redirects.0,
        r@.redirects.1 == r.redirects.1,
        r@.total_matches_found == r.total_matches_found,
        r@.totals == r.totals@,
        r@.by_event == order::counts(r.by_event@),
        r@.by_agent == stats::agents(r.by_agent@),
        r@.by_language == order::counts(r.by_language@),
        r@.by_day == stats::days(r.by_day@),
        r@.top_patterns == rank::entries(r.top_patterns@),
        r@.recent_redirects == stats::recents(r.recent_redirects@),
        r@.comparisons == savings::listed(r.comparisons@),
{
}

/// The lists of a report stand for their entries, in order.
pub proof fn lists_stand_for_their_entries(
    counts: Seq<(String, u64)>,
    agents: Seq<AgentStats>,
    days: Seq<DayStats>,
    patterns: Seq<PatternStat>,
    recents: Seq<RecentEntry>,
    shown: Seq<ComparisonStat>,
    runs: Seq<ComparisonRow>,
    i: int,
)
    ensures
        order::counts(counts).len() == counts.len(),
        0 <= i < counts.len() ==> order::counts(counts)[i] == (counts[i].0@, counts[i].1 as nat),
        stats::agents(agents).len() == agents.len(),
        0 <= i < agents.len() ==> stats::agents(agents)[i] == agents[i]@,
        stats::days(days).len() == days.len(),
        0 <= i < days.len() ==> stats::days(days)[i] == days[i]@,
        rank::entries(patterns).len() == patterns.len(),
        0 <= i < patterns.len() ==> rank::entries(patterns)[i] == patterns[i]@,
        stats::recents(recents).len() == recents.len(),
        0 <= i < recents.len() ==> stats::recents(recents)[i] == recents[i]@,
        savings::listed(shown).len() == shown.len(),
        0 <= i < shown.len() ==> savings::listed(shown)[i] == shown[i]@,
        savings::runs(runs).len() == runs.len(),
        0 <= i < runs.len() ==> savings::runs(runs)[i] == runs[i]@,
{
}

/// Components of a path, and the names on a way into a document, stand for themselves, in order.
pub proof fn parts_stand_for_themselves(path: Seq<Vec<u8>>, way: Seq<&str>, i: int)
    ensures
        home::parts(path).len() == path.len(),
        0 <= i < path.len() ==> home::parts(path)[i] == path[i]@,
        json::names(way).len() == way.len(),
        0 <= i < way.len() ==> json::names(way)[i] == way[i]@,
{
}

/// Groups have the languages that they are of, in order.
pub proof fn groups_have_their_languages(groups: Seq<(Seq<char>, Seq<Seq<char>>)>, i: int)
    ensures
        lang::keys_of(groups).len() == groups.len(),
        0 <= i < groups.len() ==> lang::keys_of(groups)[i] == groups[i].0,
{
}

} // verus!
