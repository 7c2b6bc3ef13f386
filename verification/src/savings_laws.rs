//! What holds of all comparisons.

use crate::savings;
use crate::savings::{Listed, Run};
use crate::sums;
use vstd::prelude::*;

verus! {

/// What one more comparison adds to the sums: the files that it spared, the matches of ripgrep beyond
/// those of ast-grep, and the tokens that it spared, which are its estimate where that is above
/// zero, and else the tokens of the text beyond those of the code. No difference is below zero.
pub proof fn one_more_comparison(rows: Seq<Run>, r: Run)
    ensures
        savings::files_of(rows.push(r)) == savings::files_of(rows).push(r.files_saved),
        savings::avoided_of(rows.push(r)) == savings::avoided_of(rows).push(
            if r.rg_results > r.ag_matches {
                r.rg_results - r.ag_matches
            } else {
                0
            },
        ),
        savings::tokens_of(rows.push(r)) == savings::tokens_of(rows).push(
            if r.estimated_tokens_saved > 0 {
                r.estimated_tokens_saved
            } else if r.text_tokens > r.ast_tokens {
                r.text_tokens - r.ast_tokens
            } else {
                0
            },
        ),
        savings::files_of(Seq::empty()) == Seq::<int>::empty(),
        savings::avoided_of(Seq::empty()) == Seq::<int>::empty(),
        savings::tokens_of(Seq::empty()) == Seq::<int>::empty(),
{
    let more = rows.push(r);
    assert(savings::files_of(more) =~= savings::files_of(rows).push(r.files_saved));
    assert(savings::avoided_of(more) =~= savings::avoided_of(rows).push(
        savings::spared(r.rg_results, r.ag_matches),
    ));
    assert(savings::tokens_of(more) =~= savings::tokens_of(rows).push(savings::row_tokens(r)));
    assert(savings::files_of(Seq::empty()) =~= Seq::<int>::empty());
    assert(savings::avoided_of(Seq::empty()) =~= Seq::<int>::empty());
    assert(savings::tokens_of(Seq::empty()) =~= Seq::<int>::empty());
}

/// The sums are those of the files, of the matches and of the tokens, over all the comparisons, and
/// their number; there are none where one of the sums does not fit or the files are below zero.
pub proof fn totals_are_sums(rows: Seq<Run>)
    ensures
        ({
            let files = sums::checked_sum(savings::files_of(rows));
            let avoided = sums::checked_sum(savings::avoided_of(rows));
            let tokens = sums::checked_sum(savings::tokens_of(rows));
            let totals = savings::totals_of(rows);
            &&& totals is Some <==> files is Some && avoided is Some && tokens is Some && files->0
                >= 0
            &&& totals is Some ==> {
                &&& totals->0.runs == rows.len()
                &&& totals->0.files_saved == files->0
                &&& totals->0.false_positives == avoided->0
                &&& totals->0.tokens_saved == tokens->0
            }
        }),
{
    lemma_not_below_zero(savings::avoided_of(rows));
    lemma_not_below_zero(savings::tokens_of(rows));
}

proof fn lemma_not_below_zero(values: Seq<int>)
    requires
        forall|i: int| 0 <= i < values.len() ==> #[trigger] values[i] >= 0,
    ensures
        sums::checked_sum(values) is Some ==> sums::checked_sum(values)->0 >= 0,
    decreases values.len(),
{
    if values.len() > 0 {
        assert(values[values.len() - 1] >= 0);
        lemma_not_below_zero(values.drop_last());
    }
}

/// The list of the latest comparisons, by its newest row: it comes first, as it is and with its place
/// among the rows, unless a number of it is below zero; either way it takes a place. A list without
/// places is empty.
pub proof fn the_latest_comparison_comes_first(rows: Seq<Run>, r: Run, n: nat)
    ensures
        ({
            let shown = r.ag_matches >= 0 && r.ag_files >= 0 && r.ag_time_ms >= 0 && r.rg_results
                >= 0 && r.rg_files >= 0 && r.rg_time_ms >= 0 && r.files_saved >= 0
                && r.estimated_tokens_saved >= 0 && r.text_tokens >= 0 && r.ast_tokens >= 0;
            let after = savings::page(rows.push(r), n + 1);
            let rest = savings::page(rows, n);
            &&& shown ==> {
                &&& after.len() == rest.len() + 1
                &&& after[0].row == rows.len()
                &&& after[0].run == r
                &&& after.skip(1) == rest
            }
            &&& !shown ==> after == rest
        }),
        savings::page(rows, 0) == Seq::<Listed>::empty(),
        savings::page(Seq::empty(), n) == Seq::<Listed>::empty(),
{
    assert(rows.push(r).drop_last() =~= rows);
    let after = savings::page(rows.push(r), n + 1);
    let rest = savings::page(rows, n);
    if savings::presentable(r) {
        assert(after.skip(1) =~= rest);
    } else {
        assert(after =~= rest);
    }
}

/// A match is reckoned at fifteen tokens, as far as that fits in 64 bits, a day at 86400 seconds, and
/// a difference is the larger number less the smaller, or nothing.
pub proof fn figures_are_reckoned(n: u64, a: int, b: int, days: u64)
    ensures
        savings::tokens_for(n) == if 15 * n <= 0xffff_ffff_ffff_ffff {
            15 * n
        } else {
            0xffff_ffff_ffff_ffff
        },
        a >= b ==> savings::spared(a, b) == a - b,
        a < b ==> savings::spared(a, b) == 0,
        days * savings::DAY_SECONDS == days * 24 * 60 * 60,
{
}

} // verus!
