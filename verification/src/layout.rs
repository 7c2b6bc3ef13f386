//! Numbers and columns as text.

use vstd::prelude::*;
use vstd::string::*;

verus! {

/// The character of a digit.
pub open spec fn digit(d: nat) -> char {
    (48 + d) as char
}

/// A number in decimal digits.
pub open spec fn decimal(n: nat) -> Seq<char>
    decreases n,
{
    if n < 10 {
        seq![digit(n)]
    } else {
        decimal(n / 10).push(digit(n % 10))
    }
}

/// The number that decimal digits stand for.
pub open spec fn value(s: Seq<char>) -> int
    decreases s.len(),
{
    if s.len() == 0 {
        0
    } else {
        10 * value(s.drop_last()) + (s.last() as int - 48)
    }
}

/// A character, several times.
pub open spec fn repeated(c: char, n: nat) -> Seq<char> {
    Seq::new(n, |i: int| c)
}

/// What is missing of a width.
pub open spec fn missing(s: Seq<char>, width: nat) -> nat {
    if s.len() < width {
        (width - s.len()) as nat
    } else {
        0
    }
}

/// A text at the left of a column. A text that is wider stays as it is.
pub open spec fn left(s: Seq<char>, width: nat) -> Seq<char> {
    s + repeated(' ', missing(s, width))
}

/// A text at the right of a column, with `fill` in front of it. A text that is wider stays as it
/// is.
pub open spec fn right(s: Seq<char>, width: nat, fill: char) -> Seq<char> {
    repeated(fill, missing(s, width)) + s
}

/// The decimal digits of a number stand for it.
pub proof fn decimal_reads_back(n: nat)
    ensures
        value(decimal(n)) == n,
        decimal(n).len() > 0,
    decreases n,
{
    if n < 10 {
        assert(decimal(n).drop_last() =~= Seq::<char>::empty());
        assert(value(Seq::<char>::empty()) == 0);
        assert(digit(n) as int == 48 + n);
    } else {
        decimal_reads_back(n / 10);
        assert(decimal(n).drop_last() =~= decimal(n / 10));
        assert(digit(n % 10) as int == 48 + n % 10);
    }
}

/// Appends a number in decimal digits.
pub fn push_decimal(out: &mut String, n: u64)
    ensures
        final(out)@ == old(out)@ + decimal(n as nat),
    decreases n,
{
    if n >= 10 {
        push_decimal(out, n / 10);
    }
    let d: u8 = (n % 10) as u8;
    let c: char = (48 + d) as char;
    assert(c == digit((n % 10) as nat));
    out.push(c);
    assert(out@ =~= old(out)@ + decimal(n as nat));
}

/// A number in decimal digits.
pub fn decimal_text(n: u64) -> (r: String)
    ensures
        r@ == decimal(n as nat),
{
    let mut out = String::new();
    push_decimal(&mut out, n);
    assert(out@ =~= decimal(n as nat));
    out
}

/// Appends a character several times.
pub fn push_repeated(out: &mut String, c: char, n: usize)
    ensures
        final(out)@ == old(out)@ + repeated(c, n as nat),
{
    let mut i: usize = 0;
    assert(out@ =~= old(out)@ + repeated(c, 0));
    while i < n
        invariant
            i <= n,
            out@ == old(out)@ + repeated(c, i as nat),
        decreases n - i,
    {
        out.push(c);
        i += 1;
        assert(out@ =~= old(out)@ + repeated(c, i as nat));
    }
}

/// Appends a text at the left of a column.
pub fn push_left(out: &mut String, s: &str, width: usize)
    ensures
        final(out)@ == old(out)@ + left(s@, width as nat),
{
    let n: usize = s.unicode_len();
    let ghost before = out@;
    out.append(s);
    if n < width {
        push_repeated(out, ' ', width - n);
    }
    assert(out@ =~= before + left(s@, width as nat));
}

/// Appends a text at the right of a column.
pub fn push_right(out: &mut String, s: &str, width: usize, fill: char)
    ensures
        final(out)@ == old(out)@ + right(s@, width as nat, fill),
{
    let n: usize = s.unicode_len();
    let ghost before = out@;
    if n < width {
        push_repeated(out, fill, width - n);
    }
    out.append(s);
    assert(out@ =~= before + right(s@, width as nat, fill));
}

/// A moment, by the seconds and milliseconds since the epoch, as the logs hold it.
pub open spec fn moment(secs: nat, millis: nat) -> Seq<char> {
    decimal(secs) + "."@ + right(decimal(millis), 3, '0') + "Z"@
}

/// A moment, by the seconds and milliseconds since the epoch, as the logs hold it.
pub fn timestamp(secs: u64, millis: u32) -> (r: String)
    ensures
        r@ == moment(secs as nat, millis as nat),
{
    let mut out: String = decimal_text(secs);
    out.append(".");
    push_right(&mut out, decimal_text(millis as u64).as_str(), 3, '0');
    out.append("Z");
    out
}

} // verus!
