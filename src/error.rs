//! The library's error type.
use vstd::prelude::*;

verus! {

#[verifier::external_type_specification]
#[verifier::external_body]
pub struct ExParseError(url::ParseError);

/// Why a reply, a body line or a request target was rejected.
#[derive(Debug, Clone, Copy, PartialEq, Eq)]
pub enum Error {
    /// The status line is malformed, or its code is not a known status.
    BadHeader,
    /// The request's URL has no host.
    BadHost,
    /// The request's URL does not use the `gemini` scheme.
    BadScheme,
    /// Text that should be UTF-8 is not.
    InvalidUtf8,
    /// The request's URL could not be parsed.
    ParseUrl(url::ParseError),
    /// The status line ended where a byte was required.
    UnexpectedEOF,
}

} // verus!
