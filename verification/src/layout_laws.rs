//! What holds of all numbers and columns.

use crate::layout;
use vstd::prelude::*;

verus! {

/// A number below ten is its digit, and a larger one is the number without its last digit, and then
/// that digit.
pub proof fn decimals_are_written_digit_by_digit(n: nat, d: nat)
    requires
        d < 10,
    ensures
        layout::decimal(d) == seq!["0123456789"@[d as int]],
        n > 0 ==> layout::decimal(10 * n + d) == layout::decimal(n).push(
            "0123456789"@[d as int],
        ),
{
    reveal_strlit("0123456789");
    assert(layout::digit(d) == "0123456789"@[d as int]);
    if n > 0 {
        assert((10 * n + d) / 10 == n);
        assert((10 * n + d) % 10 == d);
    }
}

/// Different numbers are written differently.
pub proof fn decimals_tell_numbers_apart(m: nat, n: nat)
    requires
        layout::decimal(m) == layout::decimal(n),
    ensures
        m == n,
{
    layout::decimal_reads_back(m);
    layout::decimal_reads_back(n);
}

/// A text in a column stands whole at its left or at its right; the rest of the column, and no more,
/// is filled up.
pub proof fn columns_keep_the_text(s: Seq<char>, width: nat, fill: char)
    ensures
        ({
            let a = layout::left(s, width);
            let b = layout::right(s, width, fill);
            let n = if s.len() < width {
                width
            } else {
                s.len()
            };
            &&& a.len() == n && b.len() == n
            &&& a.take(s.len() as int) == s
            &&& b.skip(n - s.len()) == s
            &&& forall|i: int| s.len() <= i < n ==> #[trigger] a[i] == ' '
            &&& forall|i: int| 0 <= i < n - s.len() ==> #[trigger] b[i] == fill
        }),
{
    let a = layout::left(s, width);
    let b = layout::right(s, width, fill);
    assert(a.take(s.len() as int) =~= s);
    assert(b.skip(b.len() - s.len()) =~= s);
}

/// A moment is its seconds, a dot, at least three digits of milliseconds, and a `Z`.
pub proof fn moments_are_seconds_and_milliseconds(secs: nat, millis: nat)
    ensures
        millis < 1000 ==> layout::moment(secs, millis) == layout::decimal(secs) + seq![
            '.',
            "0123456789"@[(millis / 100) as int],
            "0123456789"@[(millis / 10 % 10) as int],
            "0123456789"@[(millis % 10) as int],
            'Z',
        ],
{
    if millis < 1000 {
        reveal_strlit("0123456789");
        reveal_strlit(".");
        reveal_strlit("Z");
        let d = layout::decimal(millis);
        reveal_with_fuel(layout::decimal, 3);
        assert(layout::digit(0) == '0');
        if millis < 10 {
            assert(d =~= seq![layout::digit(millis)]);
        } else if millis < 100 {
            assert(millis / 10 < 10);
            assert(d =~= seq![layout::digit(millis / 10), layout::digit(millis % 10)]);
            assert(millis / 10 % 10 == millis / 10);
        } else {
            assert(millis / 10 / 10 == millis / 100);
            assert(d =~= seq![
                layout::digit(millis / 100),
                layout::digit(millis / 10 % 10),
                layout::digit(millis % 10),
            ]);
        }
        assert(layout::right(d, 3, '0') =~= seq![
            "0123456789"@[(millis / 100) as int],
            "0123456789"@[(millis / 10 % 10) as int],
            "0123456789"@[(millis % 10) as int],
        ]);
        assert(layout::moment(secs, millis) =~= layout::decimal(secs) + seq![
            '.',
            "0123456789"@[(millis / 100) as int],
            "0123456789"@[(millis / 10 % 10) as int],
            "0123456789"@[(millis % 10) as int],
            'Z',
        ]);
    }
}

} // verus!
