//! A request: the URL to fetch, and where to connect for it.
use vstd::prelude::*;

use crate::error::Error;

verus! {

#[verifier::external_type_specification]
#[verifier::external_body]
pub struct ExUrl(url::Url);

/// Relies on `url::Url::parse` to parse an absolute URL; it returns an error
/// rather than panicking on malformed input.
pub assume_specification[ url::Url::parse ](input: &str) -> Result<url::Url, url::ParseError>;

/// Relies on `url::Url::scheme`: the URL's scheme.
pub assume_specification[ url::Url::scheme ](u: &url::Url) -> &str;

/// Relies on `url::Url::host_str`: the URL's host, `None` when it has none.
pub assume_specification[ url::Url::host_str ](u: &url::Url) -> Option<&str>;

/// Relies on `url::Url::port`: the URL's explicit port, if any.
pub assume_specification[ url::Url::port ](u: &url::Url) -> Option<u16>;

/// Relies on `url::Url::as_str`: the URL's serialization.
pub assume_specification[ url::Url::as_str ](u: &url::Url) -> &str;

/// The port used when a URL names none.
pub const DEFAULT_PORT: u16 = 1965;

/// Where a request goes, and what is sent there.
pub struct Target {
    /// The URL, as written on the request line.
    pub address: String,
    pub host: String,
    pub port: u16,
}

/// A request for one URL.
pub struct Request {
    address: String,
}

fn is_gemini(scheme: &str) -> (r: bool)
    ensures
        r == (scheme@ == "gemini"@),
{
    let expected = "gemini";
    proof {
        reveal_strlit("gemini");
    }
    let n = scheme.unicode_len();
    if n != expected.unicode_len() {
        return false;
    }
    let mut i: usize = 0;
    while i < n
        invariant
            n == scheme@.len(),
            n == expected@.len(),
            expected@ == "gemini"@,
            i <= n,
            forall|k: int| 0 <= k < i ==> scheme@[k] == expected@[k],
        decreases n - i,
    {
        if scheme.get_char(i) != expected.get_char(i) {
            return false;
        }
        i = i + 1;
    }
    proof {
        assert(scheme@ =~= expected@);
    }
    true
}

impl Request {
    pub closed spec fn spec_address(&self) -> Seq<char> {
        self.address@
    }

    pub fn new(address: &str) -> (r: Self)
        ensures
            r.spec_address() == address@,
    {
        Request { address: String::from_str(address) }
    }

    /// The URL as it was given.
    pub fn address(&self) -> (r: &str)
        ensures
            r@ == self.spec_address(),
    {
        self.address.as_str()
    }

    /// Decides where a parsed URL is fetched from: only `gemini` URLs with a
    /// host are accepted, and a missing port is the default one.
    pub fn check_target(address: &str, scheme: &str, host: Option<&str>, port: Option<u16>) -> (r:
        Result<Target, Error>)
        ensures
            scheme@ != "gemini"@ ==> r == Err::<Target, Error>(Error::BadScheme),
            scheme@ == "gemini"@ && host is None ==> r == Err::<Target, Error>(Error::BadHost),
            scheme@ == "gemini"@ && host is Some ==> (r matches Ok(t) && t.address@ == address@
                && t.host@ == host->0@ && t.port == match port {
                Some(p) => p,
                None => DEFAULT_PORT,
            }),
    {
        if !is_gemini(scheme) {
            return Err(Error::BadScheme);
        }
        match host {
            None => Err(Error::BadHost),
            Some(h) => {
                let p = match port {
                    Some(p) => p,
                    None => DEFAULT_PORT,
                };
                Ok(Target { address: String::from_str(address), host: String::from_str(h), port: p })
            },
        }
    }

    /// Parses the request's URL and decides where it is fetched from; a URL
    /// that does not parse is `ParseUrl`.
    pub fn target(&self) -> (r: Result<Target, Error>)
        ensures
            r matches Err(e) ==> (e matches Error::ParseUrl(_) || e == Error::BadScheme || e
                == Error::BadHost),
    {
        match url::Url::parse(self.address.as_str()) {
            Err(e) => Err(Error::ParseUrl(e)),
            Ok(u) => Request::check_target(u.as_str(), u.scheme(), u.host_str(), u.port()),
        }
    }
}

} // verus!
