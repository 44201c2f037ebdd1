use minigem::request::{Request, DEFAULT_PORT};
use minigem::Error;

#[test]
fn target_of_gemini_url_uses_default_port() {
    let target = Request::new("gemini://example.org/foo").target().ok().unwrap();
    assert_eq!(target.host, "example.org");
    assert_eq!(target.port, DEFAULT_PORT);
    assert_eq!(target.port, 1965);
    assert_eq!(target.address, "gemini://example.org/foo");
}

#[test]
fn target_keeps_explicit_port() {
    let target = Request::new("gemini://example.org:1966/").target().ok().unwrap();
    assert_eq!(target.port, 1966);
}

#[test]
fn other_scheme_is_rejected() {
    assert!(matches!(Request::new("https://example.org/").target(), Err(Error::BadScheme)));
}

#[test]
fn url_without_host_is_rejected() {
    assert!(matches!(Request::new("gemini:no-host").target(), Err(Error::BadHost)));
}

#[test]
fn unparsable_url_is_rejected() {
    assert!(matches!(Request::new("not a url").target(), Err(Error::ParseUrl(_))));
}

#[test]
fn check_target_decides_from_parts() {
    assert!(matches!(
        Request::check_target("x", "gopher", Some("h"), None),
        Err(Error::BadScheme)
    ));
    assert!(matches!(Request::check_target("x", "gemini", None, None), Err(Error::BadHost)));
    let t = Request::check_target("gemini://h/", "gemini", Some("h"), Some(7)).ok().unwrap();
    assert_eq!(t.host, "h");
    assert_eq!(t.port, 7);
    assert_eq!(t.address, "gemini://h/");
    assert_eq!(Request::new("gemini://h/").address(), "gemini://h/");
}
