//! Sums that may not fit.

use vstd::prelude::*;

verus! {

/// The sum of some numbers, added up from the first on; nothing where a number or a sum on the way
/// does not fit in 64 bits.
pub open spec fn checked_sum(values: Seq<int>) -> Option<int>
    decreases values.len(),
{
    if values.len() == 0 {
        Some(0int)
    } else {
        match checked_sum(values.drop_last()) {
            Some(s) => if i64::MIN <= values.last() <= i64::MAX && i64::MIN <= s + values.last()
                <= i64::MAX {
                Some(s + values.last())
            } else {
                None
            },
            None => None,
        }
    }
}

/// The number that an optional sum stands for.
pub open spec fn sum_of(sum: Option<i64>) -> Option<int> {
    match sum {
        Some(n) => Some(n as int),
        None => None,
    }
}

/// A sum with one more number.
pub fn add_checked(sum: Option<i64>, v: i128) -> (r: Option<i64>)
    ensures
        sum_of(r) == match sum {
            Some(s) => if i64::MIN <= v <= i64::MAX && i64::MIN <= s + v <= i64::MAX {
                Some(s + v)
            } else {
                None
            },
            None => None,
        },
{
    match sum {
        Some(s) => {
            if v < i64::MIN as i128 || v > i64::MAX as i128 {
                return None;
            }
            let n: i128 = s as i128 + v;
            if n < i64::MIN as i128 || n > i64::MAX as i128 {
                return None;
            }
            Some(n as i64)
        },
        None => None,
    }
}

} // verus!
