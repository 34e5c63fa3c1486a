//! Byte classes.

use vstd::prelude::*;

verus! {

/// Whether `b` is one of the six ASCII whitespace bytes: tab, line feed,
/// vertical tab, form feed, carriage return or space.
pub open spec fn is_space(b: u8) -> bool {
    b == 9 || b == 10 || b == 11 || b == 12 || b == 13 || b == 32
}

/// Tests a byte for ASCII whitespace.
pub fn isspace(b: u8) -> (r: bool)
    ensures
        r == is_space(b),
{
    b == 9 || b == 10 || b == 11 || b == 12 || b == 13 || b == 32
}

/// The ASCII lower-case form of a byte; bytes other than `A`..=`Z` are kept.
pub open spec fn ascii_lower(b: u8) -> u8 {
    if 65 <= b <= 90 {
        (b + 32) as u8
    } else {
        b
    }
}

/// Maps `A`..=`Z` to `a`..=`z` and leaves every other byte as it is.
pub fn to_ascii_lower(b: u8) -> (r: u8)
    ensures
        r == ascii_lower(b),
{
    if 65 <= b && b <= 90 {
        b + 32
    } else {
        b
    }
}

} // verus!
