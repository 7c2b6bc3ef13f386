//! Classes of characters, as `char` knows them.
//!
//! In ASCII the classes are the familiar ranges, and they are stated here. Beyond ASCII they are
//! Unicode's tables, which are named and not written out.

use vstd::prelude::*;

verus! {

/// `char::is_alphanumeric` beyond ASCII.
pub uninterp spec fn unicode_alphanumeric(c: char) -> bool;

/// `char::is_uppercase` beyond ASCII.
pub uninterp spec fn unicode_uppercase(c: char) -> bool;

/// `char::is_lowercase` beyond ASCII.
pub uninterp spec fn unicode_lowercase(c: char) -> bool;

/// Whether a character is an upper-case letter.
pub open spec fn uppercase(c: char) -> bool {
    if (c as u32) < 0x80 {
        'A' <= c <= 'Z'
    } else {
        unicode_uppercase(c)
    }
}

/// Whether a character is a lower-case letter.
pub open spec fn lowercase(c: char) -> bool {
    if (c as u32) < 0x80 {
        'a' <= c <= 'z'
    } else {
        unicode_lowercase(c)
    }
}

/// Whether a character is a letter or a digit.
pub open spec fn alphanumeric(c: char) -> bool {
    if (c as u32) < 0x80 {
        'A' <= c <= 'Z' || 'a' <= c <= 'z' || '0' <= c <= '9'
    } else {
        unicode_alphanumeric(c)
    }
}

/// `char::is_alphanumeric`: in ASCII the letters and the digits, beyond it what Unicode counts as
/// alphabetic or numeric.
pub assume_specification[ char::is_alphanumeric ](c: char) -> (b: bool)
    ensures
        b == if (c as u32) < 0x80 {
            'A' <= c <= 'Z' || 'a' <= c <= 'z' || '0' <= c <= '9'
        } else {
            unicode_alphanumeric(c)
        },
;

/// `char::is_uppercase`: in ASCII the letters from `A` to `Z`, beyond it what Unicode counts as
/// upper case.
pub assume_specification[ char::is_uppercase ](c: char) -> (b: bool)
    ensures
        b == if (c as u32) < 0x80 {
            'A' <= c <= 'Z'
        } else {
            unicode_uppercase(c)
        },
;

/// `char::is_lowercase`: in ASCII the letters from `a` to `z`, beyond it what Unicode counts as
/// lower case.
pub assume_specification[ char::is_lowercase ](c: char) -> (b: bool)
    ensures
        b == if (c as u32) < 0x80 {
            'a' <= c <= 'z'
        } else {
            unicode_lowercase(c)
        },
;

/// A character that a name may hold: a letter, a digit or `_`.
pub open spec fn name_char(c: char) -> bool {
    alphanumeric(c) || c == '_'
}

/// Whether a name may hold a character.
pub fn is_name_char(c: char) -> (r: bool)
    ensures
        r == name_char(c),
{
    c.is_alphanumeric() || c == '_'
}

} // verus!
