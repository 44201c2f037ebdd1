//! Decoding bytes as UTF-8 text.
use vstd::prelude::*;

verus! {

/// The characters that well-formed UTF-8 bytes encode, or `None` when the
/// bytes are not well-formed UTF-8.
pub uninterp spec fn utf8_decode(b: Seq<u8>) -> Option<Seq<char>>;

/// Relies on `std::str::from_utf8`: it succeeds exactly on well-formed UTF-8,
/// and then yields the text those bytes encode.
#[verifier::external_body]
pub(crate) fn decode_utf8(b: &[u8]) -> (r: Option<&str>)
    ensures
        r is Some <==> utf8_decode(b@) is Some,
        r is Some ==> r->0@ == utf8_decode(b@)->0,
{
    std::str::from_utf8(b).ok()
}

} // verus!
