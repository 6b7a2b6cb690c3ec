//! Conversion of text into the code points that patterns and inputs are read as.
use vstd::prelude::*;

verus! {

/// The code points of a sequence of characters.
pub open spec fn code_points_of(s: Seq<char>) -> Seq<u32> {
    s.map_values(|c: char| c as u32)
}

/// Relies on `str::chars` yielding the characters of `s` in order, and on a
/// `char` converting to its code point.
#[verifier::external_body]
pub(crate) fn code_points(s: &str) -> (r: Vec<u32>)
    ensures
        r@ == code_points_of(s@),
{
    s.chars().map(u32::from).collect()
}

} // verus!
