//! The status line that opens every reply: `<two digits> <meta>` and a line
//! terminator.
use vstd::prelude::*;
use vstd::slice::slice_subrange;

use crate::error::Error;
use crate::scan::{lemma_line_end, lemma_newline_skip, line_end, newline_from, next_line, CR, LF, SPACE};
use crate::utf8::{decode_utf8, utf8_decode};

verus! {

/// The status codes a server may send.
#[derive(Debug, Clone, Copy, PartialEq, Eq, Structural)]
pub enum Status {
    Input,
    SensitiveInput,
    Success,
    RedirectTemporary,
    RedirectPermanent,
    TemporaryFailure,
    ServerUnavailable,
    CGIError,
    ProxyError,
    SlowDown,
    PermanentFailure,
    NotFound,
    Gone,
    ProxyRequestRefused,
    BadRequest,
    ClientCertificateRequired,
    CertificateNotAuthorised,
    CertificateNotValid,
}

/// The status a two-digit code stands for; `None` for a code outside the set.
pub open spec fn status_of(code: int) -> Option<Status> {
    if code == 10 {
        Some(Status::Input)
    } else if code == 11 {
        Some(Status::SensitiveInput)
    } else if code == 20 {
        Some(Status::Success)
    } else if code == 30 {
        Some(Status::RedirectTemporary)
    } else if code == 31 {
        Some(Status::RedirectPermanent)
    } else if code == 40 {
        Some(Status::TemporaryFailure)
    } else if code == 41 {
        Some(Status::ServerUnavailable)
    } else if code == 42 {
        Some(Status::CGIError)
    } else if code == 43 {
        Some(Status::ProxyError)
    } else if code == 44 {
        Some(Status::SlowDown)
    } else if code == 50 {
        Some(Status::PermanentFailure)
    } else if code == 51 {
        Some(Status::NotFound)
    } else if code == 52 {
        Some(Status::Gone)
    } else if code == 53 {
        Some(Status::ProxyRequestRefused)
    } else if code == 59 {
        Some(Status::BadRequest)
    } else if code == 60 {
        Some(Status::ClientCertificateRequired)
    } else if code == 61 {
        Some(Status::CertificateNotAuthorised)
    } else if code == 62 {
        Some(Status::CertificateNotValid)
    } else {
        None
    }
}

pub open spec fn is_digit(b: u8) -> bool {
    48 <= b <= 57
}

/// Decoding the two status digits that start at `p`.
pub open spec fn status_at(buf: Seq<u8>, p: int) -> Result<Status, Error> {
    if p >= buf.len() {
        Err(Error::UnexpectedEOF)
    } else if !is_digit(buf[p]) {
        Err(Error::BadHeader)
    } else if p + 1 >= buf.len() {
        Err(Error::UnexpectedEOF)
    } else if !is_digit(buf[p + 1]) {
        Err(Error::BadHeader)
    } else {
        match status_of(10 * (buf[p] - 48) + (buf[p + 1] - 48)) {
            Some(s) => Ok(s),
            None => Err(Error::BadHeader),
        }
    }
}

/// The fixed part of a status line: its status and the bounds of its meta
/// text, or why the line is rejected.
pub open spec fn header_at(buf: Seq<u8>) -> Result<(Status, int, int), Error> {
    match status_at(buf, 0) {
        Err(e) => Err(e),
        Ok(s) => if buf.len() < 3 {
            Err(Error::UnexpectedEOF)
        } else if buf[2] != SPACE {
            Err(Error::BadHeader)
        } else {
            Ok((s, 3, line_end(buf, 3)))
        },
    }
}

/// A whole status line decoded: its status and its meta text.
pub open spec fn decode_header(buf: Seq<u8>) -> Result<(Status, Seq<char>), Error> {
    match header_at(buf) {
        Err(e) => Err(e),
        Ok((s, a, b)) => match utf8_decode(buf.subrange(a, b)) {
            Some(t) => Ok((s, t)),
            None => Err(Error::InvalidUtf8),
        },
    }
}

/// A status line: the two digits of `code`, a space, `meta` and `\r\n`.
pub open spec fn status_line(code: u8, meta: Seq<u8>) -> Seq<u8> {
    seq![(48 + code / 10) as u8, (48 + code % 10) as u8, SPACE] + meta + seq![CR, LF]
}

/// Every known status code followed by a space, meta text without a line
/// feed and `\r\n` decodes to that status, and its meta is exactly the bytes
/// between the space and the terminator.
pub proof fn lemma_status_line_decodes(code: u8, meta: Seq<u8>)
    requires
        status_of(code as int) is Some,
        forall|k: int| 0 <= k < meta.len() ==> meta[k] != LF,
    ensures
        header_at(status_line(code, meta)) == Ok::<(Status, int, int), Error>(
            (status_of(code as int)->0, 3int, 3 + meta.len() as int),
        ),
        status_line(code, meta).subrange(3, 3 + meta.len() as int) == meta,
        decode_header(status_line(code, meta)) == match utf8_decode(meta) {
            Some(t) => Ok((status_of(code as int)->0, t)),
            None => Err(Error::InvalidUtf8),
        },
{
    let buf = status_line(code, meta);
    let m = meta.len() as int;
    assert(10 <= code <= 62);
    assert(buf[0] == (48 + code / 10) as u8 && buf[1] == (48 + code % 10) as u8 && buf[2] == SPACE);
    assert(10 * (buf[0] - 48) + (buf[1] - 48) == code);
    assert(forall|k: int| 0 <= k < m ==> buf[3 + k] == meta[k]);
    assert(buf[3 + m] == CR && buf[4 + m] == LF);
    lemma_newline_skip(buf, 3, 4 + m);
    assert(newline_from(buf, 4 + m) == 4 + m);
    assert(buf.subrange(3, 3 + m) =~= meta);
}

/// A status line whose first or second byte is not a digit is rejected as a
/// bad header.
pub proof fn lemma_non_digit_rejected(buf: Seq<u8>)
    requires
        buf.len() >= 2,
        !is_digit(buf[0]) || !is_digit(buf[1]),
    ensures
        header_at(buf) == Err::<(Status, int, int), Error>(Error::BadHeader),
        decode_header(buf) == Err::<(Status, Seq<char>), Error>(Error::BadHeader),
{
}

fn status_from_code(code: u8) -> (r: Option<Status>)
    ensures
        r == status_of(code as int),
{
    match code {
        10 => Some(Status::Input),
        11 => Some(Status::SensitiveInput),
        20 => Some(Status::Success),
        30 => Some(Status::RedirectTemporary),
        31 => Some(Status::RedirectPermanent),
        40 => Some(Status::TemporaryFailure),
        41 => Some(Status::ServerUnavailable),
        42 => Some(Status::CGIError),
        43 => Some(Status::ProxyError),
        44 => Some(Status::SlowDown),
        50 => Some(Status::PermanentFailure),
        51 => Some(Status::NotFound),
        52 => Some(Status::Gone),
        53 => Some(Status::ProxyRequestRefused),
        59 => Some(Status::BadRequest),
        60 => Some(Status::ClientCertificateRequired),
        61 => Some(Status::CertificateNotAuthorised),
        62 => Some(Status::CertificateNotValid),
        _ => None,
    }
}

/// Reads the two status digits at `pos` and moves past them.
pub fn parse_status(buf: &[u8], pos: &mut usize) -> (r: Result<Status, Error>)
    requires
        *old(pos) <= buf@.len(),
    ensures
        r == status_at(buf@, *old(pos) as int),
        r is Ok ==> *final(pos) == *old(pos) + 2,
        *final(pos) <= buf@.len(),
{
    if *pos >= buf.len() {
        return Err(Error::UnexpectedEOF);
    }
    let tens = buf[*pos];
    if !(48 <= tens && tens <= 57) {
        return Err(Error::BadHeader);
    }
    if *pos + 1 >= buf.len() {
        return Err(Error::UnexpectedEOF);
    }
    let ones = buf[*pos + 1];
    if !(48 <= ones && ones <= 57) {
        return Err(Error::BadHeader);
    }
    *pos = *pos + 2;
    match status_from_code((tens - 48) * 10 + (ones - 48)) {
        Some(s) => Ok(s),
        None => Err(Error::BadHeader),
    }
}

/// The unread rest of a reply.
pub struct Body<R> {
    inner: R,
}

impl<R> Body<R> {
    pub closed spec fn source(&self) -> R {
        self.inner
    }

    pub fn new(inner: R) -> (b: Self)
        ensures
            b.source() == inner,
    {
        Body { inner }
    }

    /// Hands back the source, positioned just after the status line.
    pub fn into_inner(self) -> (r: R)
        ensures
            r == self.source(),
    {
        self.inner
    }
}

/// A reply whose status line has been decoded.
pub struct Response<R> {
    pub status: Status,
    pub meta: String,
    pub body: Body<R>,
}

impl<R> Response<R> {
    /// Decodes `line`, the status line read from a reply including its
    /// terminator; `body` is the source positioned just after it.
    pub fn try_from_line(line: &[u8], body: R) -> (r: Result<Self, Error>)
        ensures
            match (r, decode_header(line@)) {
                (Ok(resp), Ok((s, t))) => resp.status == s && resp.meta@ == t && resp.body.source()
                    == body,
                (Err(e), Err(f)) => e == f,
                _ => false,
            },
    {
        let mut pos: usize = 0;
        let status = match parse_status(line, &mut pos) {
            Ok(s) => s,
            Err(e) => return Err(e),
        };
        if pos >= line.len() {
            return Err(Error::UnexpectedEOF);
        }
        if line[pos] != SPACE {
            return Err(Error::BadHeader);
        }
        pos = pos + 1;
        let start: usize = pos;
        let end = next_line(line, &mut pos);
        proof {
            lemma_line_end(line@, 3);
        }
        let meta_bytes = slice_subrange(line, start, end);
        match decode_utf8(meta_bytes) {
            Some(text) => Ok(Response { status, meta: String::from_str(text), body: Body::new(body) }),
            None => Err(Error::InvalidUtf8),
        }
    }
}

} // verus!
