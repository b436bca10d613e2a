//! UTF-8 validity checking through the standard library.

use vstd::prelude::*;
use vstd::utf8::valid_utf8;

verus! {

/// Relies on std's `str::from_utf8`: it succeeds exactly on UTF-8 input.
#[verifier::external_body]
pub fn utf8_ok(v: &[u8]) -> (r: bool)
    ensures
        r == valid_utf8(v@),
{
    std::str::from_utf8(v).is_ok()
}

} // verus!
