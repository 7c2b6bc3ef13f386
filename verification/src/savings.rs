//! What ast-grep spared the reader: the comparisons of its matches with ripgrep's.

use crate::sums;
use crate::sums::add_checked;
use vstd::prelude::*;

verus! {

/// A row of the log of comparisons, without its costs.
#[verifier::ext_equal]
pub struct Run {
    pub pattern: Seq<char>,
    pub lang: Seq<char>,
    pub ag_matches: int,
    pub ag_files: int,
    pub ag_time_ms: int,
    pub rg_results: int,
    pub rg_files: int,
    pub rg_time_ms: int,
    pub files_saved: int,
    pub estimated_tokens_saved: int,
    pub text_tokens: int,
    pub ast_tokens: int,
}

/// A row of the log of comparisons, without its costs.
#[derive(Debug)]
pub struct ComparisonRow {
    pub pattern: String,
    pub lang: String,
    pub ag_matches: i64,
    pub ag_files: i64,
    pub ag_time_ms: i64,
    pub rg_results: i64,
    pub rg_files: i64,
    pub rg_time_ms: i64,
    pub files_saved: i64,
    pub estimated_tokens_saved: i64,
    pub text_tokens: i64,
    pub ast_tokens: i64,
}

impl View for ComparisonRow {
    type V = Run;

    open spec fn view(&self) -> Run {
        Run {
            pattern: self.pattern@,
            lang: self.lang@,
            ag_matches: self.ag_matches as int,
            ag_files: self.ag_files as int,
            ag_time_ms: self.ag_time_ms as int,
            rg_results: self.rg_results as int,
            rg_files: self.rg_files as int,
            rg_time_ms: self.rg_time_ms as int,
            files_saved: self.files_saved as int,
            estimated_tokens_saved: self.estimated_tokens_saved as int,
            text_tokens: self.text_tokens as int,
            ast_tokens: self.ast_tokens as int,
        }
    }
}

/// What rows of the log of comparisons stand for.
pub open spec fn runs(list: Seq<ComparisonRow>) -> Seq<Run> {
    Seq::new(list.len(), |i: int| list[i]@)
}

/// A difference that is none below zero.
pub open spec fn spared(a: int, b: int) -> int {
    if a > b {
        a - b
    } else {
        0
    }
}

/// The files that were spared.
pub open spec fn files_of(rows: Seq<Run>) -> Seq<int> {
    Seq::new(rows.len(), |i: int| rows[i].files_saved)
}

/// The matches of ripgrep that ast-grep did not take for code.
pub open spec fn avoided_of(rows: Seq<Run>) -> Seq<int> {
    Seq::new(rows.len(), |i: int| spared(rows[i].rg_results, rows[i].ag_matches))
}

/// The tokens that a row spares: the estimate that it holds, or the difference of its tokens.
pub open spec fn row_tokens(r: Run) -> int {
    if r.estimated_tokens_saved > 0 {
        r.estimated_tokens_saved
    } else {
        spared(r.text_tokens, r.ast_tokens)
    }
}

/// The tokens that were spared.
pub open spec fn tokens_of(rows: Seq<Run>) -> Seq<int> {
    Seq::new(rows.len(), |i: int| row_tokens(rows[i]))
}

/// The sums over all the comparisons.
#[verifier::ext_equal]
pub struct Totals {
    pub runs: nat,
    pub files_saved: nat,
    pub false_positives: nat,
    pub tokens_saved: nat,
}

/// The sums over all the comparisons; nothing where one of them does not fit in 64 bits, or is
/// below zero.
pub open spec fn totals_of(rows: Seq<Run>) -> Option<Totals> {
    match (
        sums::checked_sum(files_of(rows)),
        sums::checked_sum(avoided_of(rows)),
        sums::checked_sum(tokens_of(rows)),
    ) {
        (Some(files), Some(avoided), Some(tokens)) => if files >= 0 {
            Some(
                Totals {
                    runs: rows.len(),
                    files_saved: files as nat,
                    false_positives: avoided as nat,
                    tokens_saved: tokens as nat,
                },
            )
        } else {
            None
        },
        _ => None,
    }
}

/// No sums.
pub open spec fn no_totals() -> Totals {
    Totals { runs: 0, files_saved: 0, false_positives: 0, tokens_saved: 0 }
}

/// The sums over all the comparisons: how many there are, the files, the false matches and the
/// tokens that were spared.
#[derive(Debug, Clone, Copy, PartialEq, Eq)]
pub struct ComparisonTotals {
    pub runs: u64,
    pub files_saved: u64,
    pub false_positives: u64,
    pub tokens_saved: u64,
}

impl View for ComparisonTotals {
    type V = Totals;

    open spec fn view(&self) -> Totals {
        Totals {
            runs: self.runs as nat,
            files_saved: self.files_saved as nat,
            false_positives: self.false_positives as nat,
            tokens_saved: self.tokens_saved as nat,
        }
    }
}

/// A difference that is none below zero.
fn spare(a: i64, b: i64) -> (r: i128)
    ensures
        r == spared(a as int, b as int),
{
    if a > b {
        a as i128 - b as i128
    } else {
        0
    }
}

/// The sums over all the comparisons; nothing where one of them cannot be given.
pub fn checked_totals(rows: &[ComparisonRow]) -> (r: Option<ComparisonTotals>)
    ensures
        (match r {
            Some(t) => Some(t@),
            None => None,
        }) == totals_of(runs(rows@)),
{
    let ghost all = runs(rows@);
    let mut files: Option<i64> = Some(0);
    let mut avoided: Option<i64> = Some(0);
    let mut tokens: Option<i64> = Some(0);
    let mut i: usize = 0;
    while i < rows.len()
        invariant
            all == runs(rows@),
            i <= rows@.len(),
            sums::sum_of(files) == sums::checked_sum(files_of(all).take(i as int)),
            sums::sum_of(avoided) == sums::checked_sum(avoided_of(all).take(i as int)),
            sums::sum_of(tokens) == sums::checked_sum(tokens_of(all).take(i as int)),
        decreases rows@.len() - i,
    {
        let r: &ComparisonRow = &rows[i];
        assert(all[i as int] == r@);
        assert(files_of(all).take(i + 1).drop_last() =~= files_of(all).take(i as int));
        assert(avoided_of(all).take(i + 1).drop_last() =~= avoided_of(all).take(i as int));
        assert(tokens_of(all).take(i + 1).drop_last() =~= tokens_of(all).take(i as int));
        files = add_checked(files, r.files_saved as i128);
        avoided = add_checked(avoided, spare(r.rg_results, r.ag_matches));
        let t: i128 = if r.estimated_tokens_saved > 0 {
            r.estimated_tokens_saved as i128
        } else {
            spare(r.text_tokens, r.ast_tokens)
        };
        tokens = add_checked(tokens, t);
        i += 1;
    }
    proof {
        assert(files_of(all).take(i as int) =~= files_of(all));
        assert(avoided_of(all).take(i as int) =~= avoided_of(all));
        assert(tokens_of(all).take(i as int) =~= tokens_of(all));
        lemma_sum_positive(avoided_of(all));
        lemma_sum_positive(tokens_of(all));
    }
    match (files, avoided, tokens) {
        (Some(f), Some(a), Some(t)) => {
            if f < 0 {
                return None;
            }
            Some(
                ComparisonTotals {
                    runs: rows.len() as u64,
                    files_saved: f as u64,
                    false_positives: a as u64,
                    tokens_saved: t as u64,
                },
            )
        },
        _ => None,
    }
}

/// Numbers that are none below zero have such a sum.
proof fn lemma_sum_positive(values: Seq<int>)
    requires
        forall|i: int| 0 <= i < values.len() ==> #[trigger] values[i] >= 0,
    ensures
        sums::checked_sum(values) matches Some(s) ==> s >= 0,
    decreases values.len(),
{
    if values.len() > 0 {
        assert(values[values.len() - 1] >= 0);
        lemma_sum_positive(values.drop_last());
    }
}

/// The sums over all the comparisons, whatever part of them is listed; zeros where one of the sums
/// cannot be given.
pub fn comparison_totals(rows: &[ComparisonRow]) -> (r: ComparisonTotals)
    ensures
        r@ == match totals_of(runs(rows@)) {
            Some(t) => t,
            None => no_totals(),
        },
{
    match checked_totals(rows) {
        Some(t) => t,
        None => ComparisonTotals { runs: 0, files_saved: 0, false_positives: 0, tokens_saved: 0 },
    }
}

/// The most comparisons in the list of them.
pub const COMPARISON_PAGE: usize = 50;

/// A comparison as the list shows it, with its place among the rows.
#[verifier::ext_equal]
pub struct Listed {
    pub row: int,
    pub run: Run,
}

/// A comparison as the list shows it, with its place among the rows.
#[derive(Debug)]
pub struct ComparisonStat {
    pub row: usize,
    pub pattern: String,
    pub lang: String,
    pub ag_matches: u64,
    pub ag_files: u64,
    pub ag_time_ms: u64,
    pub rg_results: u64,
    pub rg_files: u64,
    pub rg_time_ms: u64,
    pub files_saved: u64,
    pub estimated_tokens_saved: u64,
    pub text_tokens: u64,
    pub ast_tokens: u64,
}

impl View for ComparisonStat {
    type V = Listed;

    open spec fn view(&self) -> Listed {
        Listed {
            row: self.row as int,
            run: Run {
                pattern: self.pattern@,
                lang: self.lang@,
                ag_matches: self.ag_matches as int,
                ag_files: self.ag_files as int,
                ag_time_ms: self.ag_time_ms as int,
                rg_results: self.rg_results as int,
                rg_files: self.rg_files as int,
                rg_time_ms: self.rg_time_ms as int,
                files_saved: self.files_saved as int,
                estimated_tokens_saved: self.estimated_tokens_saved as int,
                text_tokens: self.text_tokens as int,
                ast_tokens: self.ast_tokens as int,
            },
        }
    }
}

/// What a list of comparisons stands for.
pub open spec fn listed(list: Seq<ComparisonStat>) -> Seq<Listed> {
    Seq::new(list.len(), |i: int| list[i]@)
}

/// Whether no number of a row is below zero.
pub open spec fn presentable(r: Run) -> bool {
    &&& r.ag_matches >= 0
    &&& r.ag_files >= 0
    &&& r.ag_time_ms >= 0
    &&& r.rg_results >= 0
    &&& r.rg_files >= 0
    &&& r.rg_time_ms >= 0
    &&& r.files_saved >= 0
    &&& r.estimated_tokens_saved >= 0
    &&& r.text_tokens >= 0
    &&& r.ast_tokens >= 0
}

/// The latest `n` comparisons, the last one first. Those with a number below zero are left out.
pub open spec fn page(rows: Seq<Run>, n: nat) -> Seq<Listed>
    decreases rows.len(),
{
    if rows.len() == 0 || n == 0 {
        Seq::empty()
    } else {
        (if presentable(rows.last()) {
            seq![Listed { row: rows.len() - 1, run: rows.last() }]
        } else {
            Seq::empty()
        }) + page(rows.drop_last(), (n - 1) as nat)
    }
}

/// The latest comparisons, the last one first.
pub fn comparison_page(rows: &[ComparisonRow]) -> (r: Vec<ComparisonStat>)
    ensures
        listed(r@) == page(runs(rows@), COMPARISON_PAGE as nat),
{
    let ghost all = runs(rows@);
    let mut out: Vec<ComparisonStat> = Vec::new();
    let mut left: usize = COMPARISON_PAGE;
    let mut i: usize = rows.len();
    assert(all.take(i as int) =~= all);
    while i > 0 && left > 0
        invariant
            all == runs(rows@),
            i <= rows@.len(),
            listed(out@) + page(all.take(i as int), left as nat) =~= page(
                all,
                COMPARISON_PAGE as nat,
            ),
        decreases i,
    {
        let r: &ComparisonRow = &rows[i - 1];
        let ghost front = all.take(i as int);
        let ghost had = listed(out@);
        assert(front.last() == r@);
        assert(front.drop_last() =~= all.take(i - 1));
        if r.ag_matches >= 0 && r.ag_files >= 0 && r.ag_time_ms >= 0 && r.rg_results >= 0
            && r.rg_files >= 0 && r.rg_time_ms >= 0 && r.files_saved >= 0
            && r.estimated_tokens_saved >= 0 && r.text_tokens >= 0 && r.ast_tokens >= 0 {
            out.push(
                ComparisonStat {
                    row: i - 1,
                    pattern: r.pattern.clone(),
                    lang: r.lang.clone(),
                    ag_matches: r.ag_matches as u64,
                    ag_files: r.ag_files as u64,
                    ag_time_ms: r.ag_time_ms as u64,
                    rg_results: r.rg_results as u64,
                    rg_files: r.rg_files as u64,
                    rg_time_ms: r.rg_time_ms as u64,
                    files_saved: r.files_saved as u64,
                    estimated_tokens_saved: r.estimated_tokens_saved as u64,
                    text_tokens: r.text_tokens as u64,
                    ast_tokens: r.ast_tokens as u64,
                },
            );
            assert(listed(out@) =~= had.push(Listed { row: i - 1, run: r@ }));
        }
        left -= 1;
        i -= 1;
    }
    assert(page(all.take(i as int), left as nat) =~= Seq::<Listed>::empty());
    out
}

/// The tokens that are reckoned for a match.
pub const TOKENS_PER_MATCH: u64 = 15;

/// What a comparison spares, by the matches and files of the two tools.
#[derive(Debug, Clone, Copy, PartialEq, Eq)]
pub struct Savings {
    pub files_saved: u64,
    pub ast_tokens: u64,
    pub text_tokens: u64,
    pub estimated_tokens_saved: u64,
}

/// The tokens of some matches, as far as they can be told in 64 bits.
pub open spec fn tokens_for(n: u64) -> int {
    if n * TOKENS_PER_MATCH > u64::MAX {
        u64::MAX as int
    } else {
        n * TOKENS_PER_MATCH
    }
}

/// A product, or the largest number where the product is larger.
fn capped_product(a: u64, b: u64) -> (r: u64)
    ensures
        r == if a * b > u64::MAX {
            u64::MAX as int
        } else {
            a * b
        },
{
    match a.checked_mul(b) {
        Some(n) => n,
        None => u64::MAX,
    }
}

/// What a comparison spares, by the matches and files of the two tools. It is never below zero.
pub fn reckon(ag_matches: u64, ag_files: u64, rg_results: u64, rg_files: u64) -> (r: Savings)
    ensures
        r.files_saved == spared(rg_files as int, ag_files as int),
        r.ast_tokens == tokens_for(ag_matches),
        r.text_tokens == tokens_for(rg_results),
        r.estimated_tokens_saved == spared(tokens_for(rg_results), tokens_for(ag_matches)),
{
    let ast_tokens: u64 = capped_product(ag_matches, TOKENS_PER_MATCH);
    let text_tokens: u64 = capped_product(rg_results, TOKENS_PER_MATCH);
    Savings {
        files_saved: rg_files.saturating_sub(ag_files),
        ast_tokens,
        text_tokens,
        estimated_tokens_saved: text_tokens.saturating_sub(ast_tokens),
    }
}

/// The tokens that a row spares are the difference of its tokens, whether the estimate is read from
/// the row or reckoned again.
pub proof fn estimates_agree(r: Run)
    requires
        r.estimated_tokens_saved == spared(r.text_tokens, r.ast_tokens),
    ensures
        row_tokens(r) == spared(r.text_tokens, r.ast_tokens),
        row_tokens(r) >= 0,
{
}

/// A day in seconds.
pub const DAY_SECONDS: u64 = 86400;

/// The moment before which rows are dropped that are older than some days, in seconds since the
/// epoch.
pub fn prune_cutoff(now: u64, days: u64) -> (r: u64)
    ensures
        r == spared(now as int, days * DAY_SECONDS),
{
    now.saturating_sub(capped_product(days, DAY_SECONDS))
}

/// Every row counts towards the sums, whether or not it is listed.
pub proof fn every_row_counts(rows: Seq<Run>, r: Run)
    requires
        totals_of(rows.push(r)) is Some,
    ensures
        ({
            let t = totals_of(rows.push(r))->0;
            &&& t.runs == rows.len() + 1
            &&& sums::checked_sum(files_of(rows)) == Some(t.files_saved - r.files_saved)
            &&& sums::checked_sum(avoided_of(rows)) == Some(
                t.false_positives - spared(r.rg_results, r.ag_matches),
            )
            &&& sums::checked_sum(tokens_of(rows)) == Some(t.tokens_saved - row_tokens(r))
        }),
{
    let more = rows.push(r);
    assert(files_of(more).drop_last() =~= files_of(rows));
    assert(avoided_of(more).drop_last() =~= avoided_of(rows));
    assert(tokens_of(more).drop_last() =~= tokens_of(rows));
    lemma_sum_positive(avoided_of(more));
    lemma_sum_positive(tokens_of(more));
}

/// The list holds at most as many comparisons as it may, each of them as its row has it.
pub proof fn a_page_shows_rows(rows: Seq<Run>, n: nat)
    ensures
        page(rows, n).len() <= n,
        forall|i: int|
            0 <= i < page(rows, n).len() ==> 0 <= (#[trigger] page(rows, n)[i]).row < rows.len()
                && page(rows, n)[i].run == rows[page(rows, n)[i].row],
    decreases rows.len(),
{
    if rows.len() > 0 && n > 0 {
        let rest = page(rows.drop_last(), (n - 1) as nat);
        a_page_shows_rows(rows.drop_last(), (n - 1) as nat);
        assert forall|i: int| 0 <= i < page(rows, n).len() implies 0 <= (
        #[trigger] page(rows, n)[i]).row < rows.len() && page(rows, n)[i].run == rows[page(
            rows,
            n,
        )[i].row] by {
            let k = if presentable(rows.last()) {
                i - 1
            } else {
                i
            };
            if k >= 0 {
                assert(page(rows, n)[i] == rest[k]);
            }
        }
    }
}

} // verus!
