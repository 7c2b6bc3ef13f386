//! What holds of every table.

use crate::layout;
use crate::rank;
use crate::rank::Ranked;
use crate::savings::Listed;
use crate::stats;
use crate::stats::{AgentFigures, DayFigures, Report};
use crate::table;
use crate::table::CellText;
use crate::text;
use vstd::prelude::*;

verus! {

/// Two cells of a row have a blank between them, and a row is set in by two.
proof fn lemma_row(cells: Seq<CellText>)
    ensures
        cells.len() == 2 ==> table::row(cells) == "  "@ + table::filled(cells[0]) + " "@
            + table::filled(cells[1]),
        cells.len() == 3 ==> table::row(cells) == "  "@ + table::filled(cells[0]) + " "@
            + table::filled(cells[1]) + " "@ + table::filled(cells[2]),
        cells.len() == 4 ==> table::row(cells) == "  "@ + table::filled(cells[0]) + " "@
            + table::filled(cells[1]) + " "@ + table::filled(cells[2]) + " "@ + table::filled(
            cells[3],
        ),
        cells.len() == 5 ==> table::row(cells) == "  "@ + table::filled(cells[0]) + " "@
            + table::filled(cells[1]) + " "@ + table::filled(cells[2]) + " "@ + table::filled(
            cells[3],
        ) + " "@ + table::filled(cells[4]),
{
    let pieces = Seq::new(cells.len(), |i: int| table::filled(cells[i]));
    if 2 <= cells.len() <= 5 {
        assert(text::join(pieces.take(1), " "@) =~= table::filled(cells[0]));
        lemma_join_next(pieces, 1);
        if cells.len() > 2 {
            lemma_join_next(pieces, 2);
        }
        if cells.len() > 3 {
            lemma_join_next(pieces, 3);
        }
        if cells.len() > 4 {
            lemma_join_next(pieces, 4);
        }
        assert(pieces.take(pieces.len() as int) =~= pieces);
        if cells.len() == 2 {
            assert(table::row(cells) =~= "  "@ + table::filled(cells[0]) + " "@ + table::filled(
                cells[1],
            ));
        } else if cells.len() == 3 {
            assert(table::row(cells) =~= "  "@ + table::filled(cells[0]) + " "@ + table::filled(
                cells[1],
            ) + " "@ + table::filled(cells[2]));
        } else if cells.len() == 4 {
            assert(table::row(cells) =~= "  "@ + table::filled(cells[0]) + " "@ + table::filled(
                cells[1],
            ) + " "@ + table::filled(cells[2]) + " "@ + table::filled(cells[3]));
        } else {
            assert(table::row(cells) =~= "  "@ + table::filled(cells[0]) + " "@ + table::filled(
                cells[1],
            ) + " "@ + table::filled(cells[2]) + " "@ + table::filled(cells[3]) + " "@
                + table::filled(cells[4]));
        }
    }
}

proof fn lemma_join_next(pieces: Seq<Seq<char>>, n: int)
    requires
        1 <= n < pieces.len(),
    ensures
        text::join(pieces.take(n + 1), " "@) == text::join(pieces.take(n), " "@) + " "@ + pieces[n],
{
    assert(pieces.take(n + 1).drop_last() =~= pieces.take(n));
}

/// The rows of the table: an agent with all its searches, those that ast-grep filtered and those
/// that went to ripgrep; a day with all its searches and those that ast-grep filtered; a language
/// and a pattern with how often they occur; and a comparison with the files of ast-grep, those of
/// ripgrep, and the files and tokens spared.
pub proof fn rows_hold_their_figures(a: AgentFigures, d: DayFigures, e: Ranked, c: Listed)
    ensures
        table::agent_row(a) == "  "@ + layout::left(a.agent, 20) + " "@ + layout::right(
            layout::decimal(a.total),
            6,
            ' ',
        ) + " "@ + layout::right(layout::decimal(a.structural), 10, ' ') + " "@ + layout::right(
            layout::decimal(a.passthrough),
            6,
            ' ',
        ),
        table::day_row(d) == "  "@ + layout::left(d.day, 12) + " "@ + layout::right(
            layout::decimal(d.total),
            6,
            ' ',
        ) + " "@ + layout::right(layout::decimal(d.structural), 10, ' '),
        table::language_row(e) == "  "@ + layout::left(e.name, 20) + " "@ + layout::right(
            layout::decimal(e.count),
            6,
            ' ',
        ),
        table::pattern_row(e) == "  "@ + layout::left(e.name, 30) + " "@ + layout::right(
            layout::decimal(e.count),
            3,
            ' ',
        ) + "x"@ + (if e.lang.len() == 0 {
            Seq::empty()
        } else {
            " ["@ + e.lang + "]"@
        }),
        table::comparison_row(c) == "  "@ + layout::left(c.run.pattern, 25) + " "@ + layout::right(
            layout::decimal(c.run.ag_files as nat),
            10,
            ' ',
        ) + " "@ + layout::right(layout::decimal(c.run.rg_files as nat), 10, ' ') + " "@
            + layout::right(layout::decimal(c.run.files_saved as nat), 10, ' ') + " "@
            + layout::right(layout::decimal(c.run.estimated_tokens_saved as nat), 10, ' '),
{
    let left = |t: Seq<char>, w: nat| CellText { text: t, width: w, to_right: false };
    let number = |n: nat, w: nat| CellText { text: layout::decimal(n), width: w, to_right: true };
    lemma_row(
        seq![left(a.agent, 20), number(a.total, 6), number(a.structural, 10), number(a.passthrough, 6)],
    );
    lemma_row(seq![left(d.day, 12), number(d.total, 6), number(d.structural, 10)]);
    lemma_row(seq![left(e.name, 20), number(e.count, 6)]);
    lemma_row(seq![left(e.name, 30), number(e.count, 3)]);
    lemma_row(
        seq![
            left(c.run.pattern, 25),
            number(c.run.ag_files as nat, 10),
            number(c.run.rg_files as nat, 10),
            number(c.run.files_saved as nat, 10),
            number(c.run.estimated_tokens_saved as nat, 10),
        ],
    );
}

/// The overview of a table has each figure behind its name, at the right of six columns.
pub proof fn the_overview_names_its_figures(r: Report, rate: Seq<char>)
    ensures
        ({
            let lines = table::table(r, rate);
            let six = |n: nat| layout::right(layout::decimal(n), 6, ' ');
            &&& lines.len() >= 14
            &&& lines[7] == "  Total intercepted:    "@ + six(r.total_intercepted)
            &&& lines[8] == "  Structural redirects: "@ + six(r.structural) + "  ("@ + rate
                + "% of searches with something to redirect)"@
            &&& lines[9] == "  Passed through (text):"@ + six(r.passthrough)
            &&& lines[10] == "  No match (rg empty):  "@ + six(r.no_match)
            &&& lines[11] == "  Errors/fallbacks:     "@ + six(r.errors)
            &&& lines[12] == "  Total matches found:  "@ + six(r.total_matches_found)
        }),
{
}

/// Behind the overview a table without a search says so. Any other has its parts in order: the
/// agents, the languages, the days, the patterns and the comparisons, each of them only where it has
/// something to show.
pub proof fn parts_come_in_order(r: Report, rate: Seq<char>)
    ensures
        r.total_intercepted == 0 ==> table::table(r, rate) == table::overview(r, rate) + seq![
            "\x1b[33m  No data yet. Start using smart-rg to see stats.\x1b[0m"@,
            ""@,
        ],
        r.total_intercepted > 0 ==> table::table(r, rate) == table::overview(r, rate)
            + table::agent_part(r.by_agent) + table::language_part(r.by_language) + table::day_part(
            r.by_day,
        ) + table::pattern_part(r.top_patterns) + table::comparison_part(r),
        r.by_agent.len() == 0 <==> table::agent_part(r.by_agent).len() == 0,
        r.by_language.len() == 0 <==> table::language_part(r.by_language).len() == 0,
        r.by_day.len() == 0 <==> table::day_part(r.by_day).len() == 0,
        r.top_patterns.len() == 0 <==> table::pattern_part(r.top_patterns).len() == 0,
        r.comparisons.len() == 0 <==> table::comparison_part(r).len() == 0,
{
}

/// Each part has a row for every entry, in the order of the entries; the languages have theirs with
/// the most frequent first.
pub proof fn every_entry_has_its_row(r: Report, i: int)
    ensures
        r.by_agent.len() > 0 ==> table::agent_part(r.by_agent).len() == r.by_agent.len() + 5,
        0 <= i < r.by_agent.len() ==> table::agent_part(r.by_agent)[4 + i] == table::agent_row(
            r.by_agent[i],
        ),
        r.by_day.len() > 0 ==> table::day_part(r.by_day).len() == r.by_day.len() + 5,
        0 <= i < r.by_day.len() ==> table::day_part(r.by_day)[4 + i] == table::day_row(r.by_day[i]),
        r.by_language.len() > 0 ==> table::language_part(r.by_language).len() == r.by_language.len()
            + 3,
        0 <= i < r.by_language.len() ==> table::language_part(r.by_language)[2 + i]
            == table::language_row(rank::ranked(stats::without_lang(r.by_language))[i]),
        0 <= i < r.by_language.len() ==> stats::without_lang(r.by_language)[i].name
            == r.by_language[i].0 && stats::without_lang(r.by_language)[i].count
            == r.by_language[i].1 && stats::without_lang(r.by_language)[i].lang.len() == 0,
        stats::without_lang(r.by_language).len() == r.by_language.len(),
        r.top_patterns.len() > 0 ==> table::pattern_part(r.top_patterns).len()
            == r.top_patterns.len() + 3,
        0 <= i < r.top_patterns.len() ==> table::pattern_part(r.top_patterns)[2 + i]
            == table::pattern_row(r.top_patterns[i]),
        0 <= i < r.comparisons.len() ==> table::comparison_part(r)[4 + i] == table::comparison_row(
            r.comparisons[i],
        ),
{
    rank::ranked_is_in_rank(stats::without_lang(r.by_language));
}

/// The part on the comparisons ends with the sums over all of them, and says before these how many
/// it shows where that is not all.
pub proof fn comparisons_end_with_their_sums(r: Report)
    requires
        r.comparisons.len() > 0,
    ensures
        ({
            let lines = table::comparison_part(r);
            let n = lines.len() as int;
            let some = r.comparisons.len() < r.totals.runs;
            &&& n == r.comparisons.len() + if some {
                9int
            } else {
                8int
            }
            &&& lines[n - 3] == "  Total files saved:  "@ + layout::right(
                layout::decimal(r.totals.files_saved),
                10,
                ' ',
            )
            &&& lines[n - 2] == "  Total tokens saved: "@ + layout::right(
                layout::decimal(r.totals.tokens_saved),
                10,
                ' ',
            )
            &&& some ==> lines[n - 4] == "  (showing the "@ + layout::decimal(r.comparisons.len())
                + " most recent of "@ + layout::decimal(r.totals.runs) + " runs)"@
        }),
{
}

/// The title over a table, and the headings of its parts.
pub proof fn parts_have_their_headings(r: Report, rate: Seq<char>)
    ensures
        ({
            let lines = table::table(r, rate);
            let line = "  ─────────────────────────────────────────"@;
            &&& lines[1] == lines[3]
            &&& lines[2] == "\x1b[1;36m  \u{1fab6}  smart-rg  \u{2014}  Shim Stats\x1b[0m"@
            &&& lines[5] == "\x1b[1m  Overview\x1b[0m"@
            &&& lines[6] == line
            &&& lines[0] == ""@ && lines[4] == ""@ && lines[13] == ""@
            &&& r.by_agent.len() > 0 ==> {
                let part = table::agent_part(r.by_agent);
                &&& part[0] == "\x1b[1m  By Agent\x1b[0m"@
                &&& part[1] == line
                &&& part[2] == "  "@ + layout::left("AGENT"@, 20) + " "@ + layout::right(
                    "TOTAL"@,
                    6,
                    ' ',
                ) + " "@ + layout::right("STRUCTURAL"@, 10, ' ') + " "@ + layout::right(
                    "PASS"@,
                    6,
                    ' ',
                )
                &&& part[3] == "  "@ + layout::repeated('-', 46)
                &&& part.last() == ""@
            }
            &&& r.by_language.len() > 0 ==> {
                let part = table::language_part(r.by_language);
                &&& part[0] == "\x1b[1m  By Language (structural redirects)\x1b[0m"@
                &&& part[1] == line
                &&& part.last() == ""@
            }
            &&& r.by_day.len() > 0 ==> {
                let part = table::day_part(r.by_day);
                &&& part[0] == "\x1b[1m  By Day\x1b[0m"@
                &&& part[1] == line
                &&& part[2] == "  "@ + layout::left("DAY"@, 12) + " "@ + layout::right(
                    "TOTAL"@,
                    6,
                    ' ',
                ) + " "@ + layout::right("REDIRECTS"@, 10, ' ')
                &&& part[3] == "  "@ + layout::repeated('-', 32)
                &&& part.last() == ""@
            }
            &&& r.top_patterns.len() > 0 ==> {
                let part = table::pattern_part(r.top_patterns);
                &&& part[0] == "\x1b[1m  Top Redirected Patterns\x1b[0m"@
                &&& part[1] == line
                &&& part.last() == ""@
            }
            &&& r.comparisons.len() > 0 ==> {
                let part = table::comparison_part(r);
                &&& part[0] == "\x1b[1m  rg vs ag \u{2014} File Savings\x1b[0m"@
                &&& part[1] == line
                &&& part[2] == "  "@ + layout::left("PATTERN"@, 25) + " "@ + layout::right(
                    "AG FILES"@,
                    10,
                    ' ',
                ) + " "@ + layout::right("RG FILES"@, 10, ' ') + " "@ + layout::right(
                    "SAVED"@,
                    10,
                    ' ',
                ) + " "@ + layout::right("EST. TOKENS"@, 10, ' ')
                &&& part[3] == "  "@ + layout::repeated('-', 70)
                &&& part.last() == ""@
            }
        }),
{
    let left = |t: Seq<char>, w: nat| CellText { text: t, width: w, to_right: false };
    let right = |t: Seq<char>, w: nat| CellText { text: t, width: w, to_right: true };
    lemma_row(
        seq![left("AGENT"@, 20), right("TOTAL"@, 6), right("STRUCTURAL"@, 10), right("PASS"@, 6)],
    );
    lemma_row(seq![left("DAY"@, 12), right("TOTAL"@, 6), right("REDIRECTS"@, 10)]);
    lemma_row(
        seq![
            left("PATTERN"@, 25),
            right("AG FILES"@, 10),
            right("RG FILES"@, 10),
            right("SAVED"@, 10),
            right("EST. TOKENS"@, 10),
        ],
    );
}

} // verus!
