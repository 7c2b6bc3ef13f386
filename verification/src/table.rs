//! The statistics as a table for the terminal.

use crate::layout;
use crate::layout::{decimal_text, push_left, push_repeated, push_right};
use crate::order;
use crate::rank;
use crate::rank::{PatternStat, Ranked};
use crate::savings;
use crate::savings::{ComparisonStat, Listed};
use crate::stats;
use crate::stats::{
    rank_counts, AgentFigures, AgentStats, DayFigures, DayStats, Report, StatsReport,
};
use crate::text;
use vstd::prelude::*;
use vstd::string::*;

verus! {

/// A cell of a row: a text in a column of some width, at its left or at its right.
#[verifier::ext_equal]
pub struct CellText {
    pub text: Seq<char>,
    pub width: nat,
    pub to_right: bool,
}

/// A cell of a row: a text in a column of some width, at its left or at its right.
struct Cell {
    text: String,
    width: usize,
    to_right: bool,
}

/// A cell with the text at the left of its column.
pub open spec fn at_left(text: Seq<char>, width: nat) -> CellText {
    CellText { text, width, to_right: false }
}

/// A cell with the text at the right of its column.
pub open spec fn at_right(text: Seq<char>, width: nat) -> CellText {
    CellText { text, width, to_right: true }
}

/// A cell with a number at the right of its column.
pub open spec fn number(n: nat, width: nat) -> CellText {
    at_right(layout::decimal(n), width)
}

/// A cell, as wide as its column.
pub open spec fn filled(c: CellText) -> Seq<char> {
    if c.to_right {
        layout::right(c.text, c.width, ' ')
    } else {
        layout::left(c.text, c.width)
    }
}

/// A row of cells, with a space between each two of them.
pub open spec fn row(cells: Seq<CellText>) -> Seq<char> {
    "  "@ + text::join(Seq::new(cells.len(), |i: int| filled(cells[i])), " "@)
}

/// A row of dashes.
pub open spec fn dashes(n: nat) -> Seq<char> {
    "  "@ + layout::repeated('-', n)
}

/// The line over and under the title.
pub open spec fn bar() -> Seq<char> {
    "\x1b[1;36m━━━━━━━━━━━━━━━━━━━━━━━━━━━━━━━━━━━━━━━━━━━━━━━\x1b[0m"@
}

/// The line under the name of a part.
pub open spec fn rule() -> Seq<char> {
    "  ─────────────────────────────────────────"@
}

/// A label and a number in a column of six.
pub open spec fn figure(label: Seq<char>, n: nat) -> Seq<char> {
    label + layout::right(layout::decimal(n), 6, ' ')
}

/// The title and the overview. `rate` is the percentage of redirected searches.
pub open spec fn overview(r: Report, rate: Seq<char>) -> Seq<Seq<char>> {
    seq![
        ""@,
        bar(),
        "\x1b[1;36m  \u{1fab6}  smart-rg  \u{2014}  Shim Stats\x1b[0m"@,
        bar(),
        ""@,
        "\x1b[1m  Overview\x1b[0m"@,
        rule(),
        figure("  Total intercepted:    "@, r.total_intercepted),
        figure("  Structural redirects: "@, r.structural) + "  ("@ + rate
            + "% of searches with something to redirect)"@,
        figure("  Passed through (text):"@, r.passthrough),
        figure("  No match (rg empty):  "@, r.no_match),
        figure("  Errors/fallbacks:     "@, r.errors),
        figure("  Total matches found:  "@, r.total_matches_found),
        ""@,
    ]
}

/// The row of an agent.
pub open spec fn agent_row(a: AgentFigures) -> Seq<char> {
    row(
        seq![
            at_left(a.agent, 20),
            number(a.total, 6),
            number(a.structural, 10),
            number(a.passthrough, 6),
        ],
    )
}

/// The part on the agents; nothing where there is none.
pub open spec fn agent_part(list: Seq<AgentFigures>) -> Seq<Seq<char>> {
    if list.len() == 0 {
        Seq::empty()
    } else {
        seq![
            "\x1b[1m  By Agent\x1b[0m"@,
            rule(),
            row(
                seq![
                    at_left("AGENT"@, 20),
                    at_right("TOTAL"@, 6),
                    at_right("STRUCTURAL"@, 10),
                    at_right("PASS"@, 6),
                ],
            ),
            dashes(46),
        ] + Seq::new(list.len(), |i: int| agent_row(list[i])) + seq![""@]
    }
}

/// The row of a language.
pub open spec fn language_row(e: Ranked) -> Seq<char> {
    row(seq![at_left(e.name, 20), number(e.count, 6)])
}

/// The part on the languages, the most frequent first; nothing where there is none.
pub open spec fn language_part(list: Seq<(Seq<char>, nat)>) -> Seq<Seq<char>> {
    let langs = rank::ranked(stats::without_lang(list));
    if list.len() == 0 {
        Seq::empty()
    } else {
        seq!["\x1b[1m  By Language (structural redirects)\x1b[0m"@, rule()] + Seq::new(
            langs.len(),
            |i: int| language_row(langs[i]),
        ) + seq![""@]
    }
}

/// The row of a day.
pub open spec fn day_row(d: DayFigures) -> Seq<char> {
    row(seq![at_left(d.day, 12), number(d.total, 6), number(d.structural, 10)])
}

/// The part on the days; nothing where there is none.
pub open spec fn day_part(list: Seq<DayFigures>) -> Seq<Seq<char>> {
    if list.len() == 0 {
        Seq::empty()
    } else {
        seq![
            "\x1b[1m  By Day\x1b[0m"@,
            rule(),
            row(seq![at_left("DAY"@, 12), at_right("TOTAL"@, 6), at_right("REDIRECTS"@, 10)]),
            dashes(32),
        ] + Seq::new(list.len(), |i: int| day_row(list[i])) + seq![""@]
    }
}

/// The row of a pattern.
pub open spec fn pattern_row(e: Ranked) -> Seq<char> {
    row(seq![at_left(e.name, 30), number(e.count, 3)]) + "x"@ + if e.lang.len() == 0 {
        Seq::<char>::empty()
    } else {
        " ["@ + e.lang + "]"@
    }
}

/// The part on the patterns; nothing where there is none.
pub open spec fn pattern_part(list: Seq<Ranked>) -> Seq<Seq<char>> {
    if list.len() == 0 {
        Seq::empty()
    } else {
        seq!["\x1b[1m  Top Redirected Patterns\x1b[0m"@, rule()] + Seq::new(
            list.len(),
            |i: int| pattern_row(list[i]),
        ) + seq![""@]
    }
}

/// The row of a comparison.
pub open spec fn comparison_row(c: Listed) -> Seq<char> {
    row(
        seq![
            at_left(c.run.pattern, 25),
            number(c.run.ag_files as nat, 10),
            number(c.run.rg_files as nat, 10),
            number(c.run.files_saved as nat, 10),
            number(c.run.estimated_tokens_saved as nat, 10),
        ],
    )
}

/// The part on the comparisons; nothing where none is listed. The sums are those of all of them.
pub open spec fn comparison_part(r: Report) -> Seq<Seq<char>> {
    let list = r.comparisons;
    if list.len() == 0 {
        Seq::empty()
    } else {
        seq![
            "\x1b[1m  rg vs ag \u{2014} File Savings\x1b[0m"@,
            rule(),
            row(
                seq![
                    at_left("PATTERN"@, 25),
                    at_right("AG FILES"@, 10),
                    at_right("RG FILES"@, 10),
                    at_right("SAVED"@, 10),
                    at_right("EST. TOKENS"@, 10),
                ],
            ),
            dashes(70),
        ] + Seq::new(list.len(), |i: int| comparison_row(list[i])) + seq![""@] + (if list.len()
            < r.totals.runs {
            seq![
                "  (showing the "@ + layout::decimal(list.len()) + " most recent of "@
                    + layout::decimal(r.totals.runs) + " runs)"@,
            ]
        } else {
            Seq::empty()
        }) + seq![
            "  Total files saved:  "@ + layout::right(
                layout::decimal(r.totals.files_saved),
                10,
                ' ',
            ),
            "  Total tokens saved: "@ + layout::right(
                layout::decimal(r.totals.tokens_saved),
                10,
                ' ',
            ),
            ""@,
        ]
    }
}

/// The lines of the table.
pub open spec fn table(r: Report, rate: Seq<char>) -> Seq<Seq<char>> {
    if r.total_intercepted == 0 {
        overview(r, rate) + seq![
            "\x1b[33m  No data yet. Start using smart-rg to see stats.\x1b[0m"@,
            ""@,
        ]
    } else {
        overview(r, rate) + agent_part(r.by_agent) + language_part(r.by_language) + day_part(
            r.by_day,
        ) + pattern_part(r.top_patterns) + comparison_part(r)
    }
}

/// What a cell stands for.
spec fn cell_text(c: Cell) -> CellText {
    CellText { text: c.text@, width: c.width as nat, to_right: c.to_right }
}

/// What some cells stand for.
spec fn cell_texts(cells: Seq<Cell>) -> Seq<CellText> {
    Seq::new(cells.len(), |i: int| cell_text(cells[i]))
}

/// A cell with the text at the left of its column.
fn left_cell(s: &str, width: usize) -> (r: Cell)
    ensures
        cell_text(r) == at_left(s@, width as nat),
{
    Cell { text: s.to_string(), width, to_right: false }
}

/// A cell with the text at the right of its column.
fn right_cell(s: &str, width: usize) -> (r: Cell)
    ensures
        cell_text(r) == at_right(s@, width as nat),
{
    Cell { text: s.to_string(), width, to_right: true }
}

/// A cell with a number at the right of its column.
fn number_cell(n: u64, width: usize) -> (r: Cell)
    ensures
        cell_text(r) == number(n as nat, width as nat),
{
    Cell { text: decimal_text(n), width, to_right: true }
}

/// A row of cells.
fn make_row(cells: Vec<Cell>) -> (r: String)
    ensures
        r@ == row(cell_texts(cells@)),
{
    let ghost all = cell_texts(cells@);
    let ghost pieces = Seq::new(all.len(), |i: int| filled(all[i]));
    let mut out: String = "  ".to_string();
    let mut i: usize = 0;
    assert(out@ =~= "  "@ + text::join(pieces.take(0), " "@));
    while i < cells.len()
        invariant
            all == cell_texts(cells@),
            pieces == Seq::new(all.len(), |i: int| filled(all[i])),
            i <= cells@.len(),
            out@ == "  "@ + text::join(pieces.take(i as int), " "@),
        decreases cells@.len() - i,
    {
        let c: &Cell = &cells[i];
        assert(all[i as int] == cell_text(*c));
        assert(pieces.take(i + 1).drop_last() =~= pieces.take(i as int));
        if i > 0 {
            out.append(" ");
        }
        if c.to_right {
            push_right(&mut out, c.text.as_str(), c.width, ' ');
        } else {
            push_left(&mut out, c.text.as_str(), c.width);
        }
        assert(out@ =~= "  "@ + text::join(pieces.take(i + 1), " "@));
        i += 1;
    }
    assert(pieces.take(i as int) =~= pieces);
    out
}

/// A row of dashes.
fn make_dashes(n: usize) -> (r: String)
    ensures
        r@ == dashes(n as nat),
{
    let mut out: String = "  ".to_string();
    push_repeated(&mut out, '-', n);
    out
}

/// Adds a line.
fn add_line(lines: &mut Vec<String>, line: String)
    ensures
        text::texts(final(lines)@) == text::texts(old(lines)@).push(line@),
{
    let ghost had = text::texts(lines@);
    lines.push(line);
    assert(text::texts(lines@) =~= had.push(line@));
}

/// Adds a line that is given.
fn add_text(lines: &mut Vec<String>, line: &str)
    ensures
        text::texts(final(lines)@) == text::texts(old(lines)@).push(line@),
{
    add_line(lines, line.to_string());
}

/// Adds the line over and under the title.
fn add_bar(lines: &mut Vec<String>)
    ensures
        text::texts(final(lines)@) == text::texts(old(lines)@).push(bar()),
{
    add_text(
        lines,
        "\x1b[1;36m━━━━━━━━━━━━━━━━━━━━━━━━━━━━━━━━━━━━━━━━━━━━━━━\x1b[0m",
    );
}

/// Adds the line under the name of a part.
fn add_rule(lines: &mut Vec<String>)
    ensures
        text::texts(final(lines)@) == text::texts(old(lines)@).push(rule()),
{
    add_text(lines, "  ─────────────────────────────────────────");
}

/// A label and a number in a column of six.
fn make_figure(label: &str, n: u64) -> (r: String)
    ensures
        r@ == figure(label@, n as nat),
{
    let mut out: String = label.to_string();
    push_right(&mut out, decimal_text(n).as_str(), 6, ' ');
    out
}

/// Adds the title and the overview.
fn add_overview(lines: &mut Vec<String>, s: &StatsReport, rate: &str)
    ensures
        text::texts(final(lines)@) == text::texts(old(lines)@) + overview(s@, rate@),
{
    let ghost had = text::texts(lines@);
    add_text(lines, "");
    add_bar(lines);
    add_text(lines, "\x1b[1;36m  \u{1fab6}  smart-rg  \u{2014}  Shim Stats\x1b[0m");
    add_bar(lines);
    add_text(lines, "");
    add_text(lines, "\x1b[1m  Overview\x1b[0m");
    add_rule(lines);
    add_line(lines, make_figure("  Total intercepted:    ", s.total_intercepted));
    let mut redirects: String = make_figure("  Structural redirects: ", s.structural);
    redirects.append("  (");
    redirects.append(rate);
    redirects.append("% of searches with something to redirect)");
    add_line(lines, redirects);
    add_line(lines, make_figure("  Passed through (text):", s.passthrough));
    add_line(lines, make_figure("  No match (rg empty):  ", s.no_match));
    add_line(lines, make_figure("  Errors/fallbacks:     ", s.errors));
    add_line(lines, make_figure("  Total matches found:  ", s.total_matches_found));
    add_text(lines, "");
    assert(text::texts(lines@) =~= had + overview(s@, rate@));
}

/// Adds the part on the agents.
fn add_agents(lines: &mut Vec<String>, list: &Vec<AgentStats>)
    ensures
        text::texts(final(lines)@) == text::texts(old(lines)@) + agent_part(stats::agents(list@)),
{
    let ghost had = text::texts(lines@);
    let ghost all = stats::agents(list@);
    if list.len() == 0 {
        assert(had + agent_part(all) =~= had);
        return;
    }
    add_text(lines, "\x1b[1m  By Agent\x1b[0m");
    add_rule(lines);
    let head: Vec<Cell> = vec![
        left_cell("AGENT", 20),
        right_cell("TOTAL", 6),
        right_cell("STRUCTURAL", 10),
        right_cell("PASS", 6),
    ];
    assert(cell_texts(head@) =~= seq![
        at_left("AGENT"@, 20),
        at_right("TOTAL"@, 6),
        at_right("STRUCTURAL"@, 10),
        at_right("PASS"@, 6),
    ]);
    add_line(lines, make_row(head));
    add_line(lines, make_dashes(46));
    let ghost start = text::texts(lines@);
    let ghost rows = Seq::new(all.len(), |i: int| agent_row(all[i]));
    let mut i: usize = 0;
    assert(text::texts(lines@) =~= start + rows.take(0));
    while i < list.len()
        invariant
            all == stats::agents(list@),
            rows == Seq::new(all.len(), |i: int| agent_row(all[i])),
            i <= list@.len(),
            text::texts(lines@) =~= start + rows.take(i as int),
        decreases list@.len() - i,
    {
        let a: &AgentStats = &list[i];
        let cells: Vec<Cell> = vec![
            left_cell(a.agent.as_str(), 20),
            number_cell(a.total, 6),
            number_cell(a.structural, 10),
            number_cell(a.passthrough, 6),
        ];
        assert(cell_texts(cells@) =~= seq![
            at_left(a.agent@, 20),
            number(a.total as nat, 6),
            number(a.structural as nat, 10),
            number(a.passthrough as nat, 6),
        ]);
        add_line(lines, make_row(cells));
        assert(rows[i as int] == agent_row(a@));
        i += 1;
    }
    add_text(lines, "");
    assert(text::texts(lines@) =~= had + agent_part(all));
}

/// Adds the part on the languages.
fn add_languages(lines: &mut Vec<String>, list: &Vec<(String, u64)>)
    ensures
        text::texts(final(lines)@) == text::texts(old(lines)@) + language_part(
            order::counts(list@),
        ),
{
    let ghost had = text::texts(lines@);
    if list.len() == 0 {
        assert(had + language_part(order::counts(list@)) =~= had);
        return;
    }
    let langs: Vec<PatternStat> = rank_counts(copy_counts(list));
    let ghost all = rank::entries(langs@);
    add_text(lines, "\x1b[1m  By Language (structural redirects)\x1b[0m");
    add_rule(lines);
    let ghost start = text::texts(lines@);
    let ghost rows = Seq::new(all.len(), |i: int| language_row(all[i]));
    let mut i: usize = 0;
    assert(text::texts(lines@) =~= start + rows.take(0));
    while i < langs.len()
        invariant
            all == rank::entries(langs@),
            rows == Seq::new(all.len(), |i: int| language_row(all[i])),
            i <= langs@.len(),
            text::texts(lines@) =~= start + rows.take(i as int),
        decreases langs@.len() - i,
    {
        let e: &PatternStat = &langs[i];
        let cells: Vec<Cell> = vec![left_cell(e.pattern.as_str(), 20), number_cell(e.count, 6)];
        assert(cell_texts(cells@) =~= seq![at_left(e.pattern@, 20), number(e.count as nat, 6)]);
        add_line(lines, make_row(cells));
        assert(rows[i as int] == language_row(e@));
        i += 1;
    }
    add_text(lines, "");
    assert(text::texts(lines@) =~= had + language_part(order::counts(list@)));
}

/// A copy of some counted texts.
fn copy_counts(list: &Vec<(String, u64)>) -> (r: Vec<(String, u64)>)
    ensures
        order::counts(r@) == order::counts(list@),
{
    let ghost all = order::counts(list@);
    let mut out: Vec<(String, u64)> = Vec::new();
    let mut i: usize = 0;
    while i < list.len()
        invariant
            all == order::counts(list@),
            i <= list@.len(),
            order::counts(out@) =~= all.take(i as int),
        decreases list@.len() - i,
    {
        let ghost had = order::counts(out@);
        let e: &(String, u64) = &list[i];
        out.push((e.0.clone(), e.1));
        assert(order::counts(out@) =~= had.push(all[i as int]));
        i += 1;
    }
    out
}

/// Adds the part on the days.
fn add_days(lines: &mut Vec<String>, list: &Vec<DayStats>)
    ensures
        text::texts(final(lines)@) == text::texts(old(lines)@) + day_part(stats::days(list@)),
{
    let ghost had = text::texts(lines@);
    let ghost all = stats::days(list@);
    if list.len() == 0 {
        assert(had + day_part(all) =~= had);
        return;
    }
    add_text(lines, "\x1b[1m  By Day\x1b[0m");
    add_rule(lines);
    let head: Vec<Cell> = vec![
        left_cell("DAY", 12),
        right_cell("TOTAL", 6),
        right_cell("REDIRECTS", 10),
    ];
    assert(cell_texts(head@) =~= seq![
        at_left("DAY"@, 12),
        at_right("TOTAL"@, 6),
        at_right("REDIRECTS"@, 10),
    ]);
    add_line(lines, make_row(head));
    add_line(lines, make_dashes(32));
    let ghost start = text::texts(lines@);
    let ghost rows = Seq::new(all.len(), |i: int| day_row(all[i]));
    let mut i: usize = 0;
    assert(text::texts(lines@) =~= start + rows.take(0));
    while i < list.len()
        invariant
            all == stats::days(list@),
            rows == Seq::new(all.len(), |i: int| day_row(all[i])),
            i <= list@.len(),
            text::texts(lines@) =~= start + rows.take(i as int),
        decreases list@.len() - i,
    {
        let d: &DayStats = &list[i];
        let cells: Vec<Cell> = vec![
            left_cell(d.day.as_str(), 12),
            number_cell(d.total, 6),
            number_cell(d.structural, 10),
        ];
        assert(cell_texts(cells@) =~= seq![
            at_left(d.day@, 12),
            number(d.total as nat, 6),
            number(d.structural as nat, 10),
        ]);
        add_line(lines, make_row(cells));
        assert(rows[i as int] == day_row(d@));
        i += 1;
    }
    add_text(lines, "");
    assert(text::texts(lines@) =~= had + day_part(all));
}

/// The row of a pattern.
fn make_pattern_row(e: &PatternStat) -> (r: String)
    ensures
        r@ == pattern_row(e@),
{
    let cells: Vec<Cell> = vec![left_cell(e.pattern.as_str(), 30), number_cell(e.count, 3)];
    assert(cell_texts(cells@) =~= seq![at_left(e.pattern@, 30), number(e.count as nat, 3)]);
    let mut out: String = make_row(cells);
    out.append("x");
    if e.lang.as_str().unicode_len() > 0 {
        out.append(" [");
        out.append(e.lang.as_str());
        out.append("]");
    }
    assert(out@ =~= pattern_row(e@));
    out
}

/// Adds the part on the patterns.
fn add_patterns(lines: &mut Vec<String>, list: &Vec<PatternStat>)
    ensures
        text::texts(final(lines)@) == text::texts(old(lines)@) + pattern_part(
            rank::entries(list@),
        ),
{
    let ghost had = text::texts(lines@);
    let ghost all = rank::entries(list@);
    if list.len() == 0 {
        assert(had + pattern_part(all) =~= had);
        return;
    }
    add_text(lines, "\x1b[1m  Top Redirected Patterns\x1b[0m");
    add_rule(lines);
    let ghost start = text::texts(lines@);
    let ghost rows = Seq::new(all.len(), |i: int| pattern_row(all[i]));
    let mut i: usize = 0;
    assert(text::texts(lines@) =~= start + rows.take(0));
    while i < list.len()
        invariant
            all == rank::entries(list@),
            rows == Seq::new(all.len(), |i: int| pattern_row(all[i])),
            i <= list@.len(),
            text::texts(lines@) =~= start + rows.take(i as int),
        decreases list@.len() - i,
    {
        add_line(lines, make_pattern_row(&list[i]));
        assert(rows[i as int] == pattern_row(list@[i as int]@));
        i += 1;
    }
    add_text(lines, "");
    assert(text::texts(lines@) =~= had + pattern_part(all));
}

/// The row of a comparison.
fn make_comparison_row(c: &ComparisonStat) -> (r: String)
    ensures
        r@ == comparison_row(c@),
{
    let cells: Vec<Cell> = vec![
        left_cell(c.pattern.as_str(), 25),
        number_cell(c.ag_files, 10),
        number_cell(c.rg_files, 10),
        number_cell(c.files_saved, 10),
        number_cell(c.estimated_tokens_saved, 10),
    ];
    assert(cell_texts(cells@) =~= seq![
        at_left(c.pattern@, 25),
        number(c.ag_files as nat, 10),
        number(c.rg_files as nat, 10),
        number(c.files_saved as nat, 10),
        number(c.estimated_tokens_saved as nat, 10),
    ]);
    make_row(cells)
}

/// Adds the heading of the part on the comparisons.
fn add_comparison_head(lines: &mut Vec<String>)
    ensures
        text::texts(final(lines)@) == text::texts(old(lines)@) + seq![
            "\x1b[1m  rg vs ag \u{2014} File Savings\x1b[0m"@,
            rule(),
            row(
                seq![
                    at_left("PATTERN"@, 25),
                    at_right("AG FILES"@, 10),
                    at_right("RG FILES"@, 10),
                    at_right("SAVED"@, 10),
                    at_right("EST. TOKENS"@, 10),
                ],
            ),
            dashes(70),
        ],
{
    add_text(lines, "\x1b[1m  rg vs ag \u{2014} File Savings\x1b[0m");
    add_rule(lines);
    let head: Vec<Cell> = vec![
        left_cell("PATTERN", 25),
        right_cell("AG FILES", 10),
        right_cell("RG FILES", 10),
        right_cell("SAVED", 10),
        right_cell("EST. TOKENS", 10),
    ];
    assert(cell_texts(head@) =~= seq![
        at_left("PATTERN"@, 25),
        at_right("AG FILES"@, 10),
        at_right("RG FILES"@, 10),
        at_right("SAVED"@, 10),
        at_right("EST. TOKENS"@, 10),
    ]);
    add_line(lines, make_row(head));
    add_line(lines, make_dashes(70));
}

/// Adds the part on the comparisons.
fn add_comparisons(lines: &mut Vec<String>, s: &StatsReport)
    ensures
        text::texts(final(lines)@) == text::texts(old(lines)@) + comparison_part(s@),
{
    let ghost had = text::texts(lines@);
    let ghost all = savings::listed(s.comparisons@);
    let list: &Vec<ComparisonStat> = &s.comparisons;
    if list.len() == 0 {
        assert(had + comparison_part(s@) =~= had);
        return;
    }
    add_comparison_head(lines);
    let ghost start = text::texts(lines@);
    let ghost rows = Seq::new(all.len(), |i: int| comparison_row(all[i]));
    let mut i: usize = 0;
    assert(text::texts(lines@) =~= start + rows.take(0));
    while i < list.len()
        invariant
            all == savings::listed(list@),
            rows == Seq::new(all.len(), |i: int| comparison_row(all[i])),
            i <= list@.len(),
            text::texts(lines@) =~= start + rows.take(i as int),
        decreases list@.len() - i,
    {
        add_line(lines, make_comparison_row(&list[i]));
        assert(rows[i as int] == comparison_row(list@[i as int]@));
        i += 1;
    }
    add_text(lines, "");
    if (list.len() as u64) < s.totals.runs {
        let mut shown: String = "  (showing the ".to_string();
        shown.append(decimal_text(list.len() as u64).as_str());
        shown.append(" most recent of ");
        shown.append(decimal_text(s.totals.runs).as_str());
        shown.append(" runs)");
        add_line(lines, shown);
    }
    let mut files: String = "  Total files saved:  ".to_string();
    push_right(&mut files, decimal_text(s.totals.files_saved).as_str(), 10, ' ');
    add_line(lines, files);
    let mut tokens: String = "  Total tokens saved: ".to_string();
    push_right(&mut tokens, decimal_text(s.totals.tokens_saved).as_str(), 10, ' ');
    add_line(lines, tokens);
    add_text(lines, "");
    assert(text::texts(lines@) =~= had + comparison_part(s@));
}

/// The lines of the table. `rate` is the percentage of redirected searches.
pub fn stats_table(s: &StatsReport, rate: &str) -> (r: Vec<String>)
    ensures
        text::texts(r@) == table(s@, rate@),
{
    let mut lines: Vec<String> = Vec::new();
    assert(text::texts(lines@) =~= Seq::<Seq<char>>::empty());
    add_overview(&mut lines, s, rate);
    assert(text::texts(lines@) =~= overview(s@, rate@));
    if s.total_intercepted == 0 {
        add_text(
            &mut lines,
            "\x1b[33m  No data yet. Start using smart-rg to see stats.\x1b[0m",
        );
        add_text(&mut lines, "");
        assert(text::texts(lines@) =~= table(s@, rate@));
        return lines;
    }
    add_agents(&mut lines, &s.by_agent);
    add_languages(&mut lines, &s.by_language);
    add_days(&mut lines, &s.by_day);
    add_patterns(&mut lines, &s.top_patterns);
    add_comparisons(&mut lines, s);
    lines
}

} // verus!
