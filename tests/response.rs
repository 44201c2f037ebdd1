use std::io::{BufRead, Cursor};

use minigem::gemtext::{Line, LineKind, Lines};
use minigem::status::Response;
use minigem::{Error, Status};

fn parse_all(input: &[u8]) -> Vec<Result<Line, Error>> {
    let mut source = Cursor::new(input);
    let mut lines = Lines::new();
    let mut out = Vec::new();
    loop {
        let mut raw = Vec::new();
        source.read_until(b'\n', &mut raw).unwrap();
        match lines.read_line(raw) {
            Some(line) => out.push(line),
            None => return out,
        }
    }
}

fn parse_ok(input: &str) -> Vec<Line> {
    parse_all(input.as_bytes()).into_iter().map(|line| line.unwrap()).collect()
}

#[test]
fn it_works() {
    let result = 2 + 2;
    assert_eq!(result, 4);
}

#[test]
fn test_parse() {
    let input = "  normal text line here  \r\n\
### Heading 3\r\n\
```\r\n\
### Heading 3\r\n\
```\r\n\
=> gemini://example.org/\r\n\
=> gemini://example.org/ An example link\r\n\
=> gemini://example.org/foo	Another example link at the same host\r\n\
=> foo/bar/baz.txt	A relative link\r\n\
=> 	gopher://example.org:70/1 A gopher link\r\n\
\x20\x20another normal line here\r\n\
";

    let lines = parse_ok(input);

    assert_eq!(lines[0].kind(), LineKind::Text);
    assert_eq!(lines[0].text().unwrap(), "  normal text line here  ");

    assert_eq!(lines[1].kind(), LineKind::Heading);
    assert_eq!(lines[1].text().unwrap(), "Heading 3");
    assert_eq!(lines[1].level().unwrap(), 3);

    assert!(matches!(lines[2].kind(), LineKind::PreformattingToggle));

    assert_eq!(lines[3].kind(), LineKind::PreformattedText);
    assert_eq!(lines[3].text().unwrap(), "### Heading 3");

    assert!(matches!(lines[4].kind(), LineKind::PreformattingToggle));

    assert_eq!(lines[5].kind(), LineKind::Link);
    assert_eq!(lines[5].link().unwrap(), "gemini://example.org/");
    assert!(lines[5].text().is_none());

    assert_eq!(lines[6].kind(), LineKind::Link);
    assert_eq!(lines[6].link().unwrap(), "gemini://example.org/");
    assert_eq!(lines[6].text().unwrap(), "An example link");

    assert_eq!(lines[7].kind(), LineKind::Link);
    assert_eq!(lines[7].link().unwrap(), "gemini://example.org/foo");
    assert_eq!(
        lines[7].text().unwrap(),
        "Another example link at the same host"
    );

    assert_eq!(lines[8].kind(), LineKind::Link);
    assert_eq!(lines[8].link().unwrap(), "foo/bar/baz.txt");
    assert_eq!(lines[8].text().unwrap(), "A relative link");

    assert_eq!(lines[9].kind(), LineKind::Link);
    assert_eq!(lines[9].link().unwrap(), "gopher://example.org:70/1");
    assert_eq!(lines[9].text().unwrap(), "A gopher link");

    assert_eq!(lines[10].kind(), LineKind::Text);
    assert_eq!(lines[10].text().unwrap(), "  another normal line here");
}

#[test]
fn link_without_name() {
    let lines = parse_ok("=> gemini://example.org/\r\n");
    assert_eq!(lines.len(), 1);
    assert_eq!(lines[0].kind(), LineKind::Link);
    assert_eq!(lines[0].link(), Some("gemini://example.org/"));
    assert_eq!(lines[0].text(), None);
    assert_eq!(lines[0].level(), None);
}

#[test]
fn link_with_tab_separated_name() {
    let lines = parse_ok("=> gemini://example.org/foo\tAnother example link\r\n");
    assert_eq!(lines[0].kind(), LineKind::Link);
    assert_eq!(lines[0].link(), Some("gemini://example.org/foo"));
    assert_eq!(lines[0].text(), Some("Another example link"));
}

#[test]
fn link_at_end_of_stream_without_terminator() {
    let lines = parse_ok("=> gemini://example.org/");
    assert_eq!(lines[0].link(), Some("gemini://example.org/"));
    assert_eq!(lines[0].text(), None);
}

#[test]
fn quote_keeps_leading_space() {
    let lines = parse_ok("> quoted text\r\n");
    assert_eq!(lines[0].kind(), LineKind::Quote);
    assert_eq!(lines[0].text(), Some(" quoted text"));
}

#[test]
fn list_item_drops_marker() {
    let lines = parse_ok("* item\r\n");
    assert_eq!(lines[0].kind(), LineKind::UnorderedListItem);
    assert_eq!(lines[0].text(), Some("item"));
}

#[test]
fn star_without_space_is_text() {
    let lines = parse_ok("*item\n");
    assert_eq!(lines[0].kind(), LineKind::Text);
    assert_eq!(lines[0].text(), Some("*item"));
}

#[test]
fn heading_level_counts_every_marker() {
    let lines = parse_ok("####### seven\n#x\n");
    assert_eq!(lines[0].kind(), LineKind::Heading);
    assert_eq!(lines[0].level(), Some(7));
    assert_eq!(lines[0].text(), Some("seven"));
    assert_eq!(lines[1].level(), Some(1));
    assert_eq!(lines[1].text(), Some("x"));
}

#[test]
fn fenced_block_is_verbatim() {
    let lines = parse_ok("```rust\n# not a heading\n=> not a link\n* not an item\n```\n# heading\n");
    assert_eq!(lines[0].kind(), LineKind::PreformattingToggle);
    assert_eq!(lines[0].text(), None);
    assert_eq!(lines[1].kind(), LineKind::PreformattedText);
    assert_eq!(lines[1].text(), Some("# not a heading"));
    assert_eq!(lines[1].level(), None);
    assert_eq!(lines[2].kind(), LineKind::PreformattedText);
    assert_eq!(lines[2].text(), Some("=> not a link"));
    assert_eq!(lines[2].link(), None);
    assert_eq!(lines[3].kind(), LineKind::PreformattedText);
    assert_eq!(lines[3].text(), Some("* not an item"));
    assert_eq!(lines[4].kind(), LineKind::PreformattingToggle);
    assert_eq!(lines[5].kind(), LineKind::Heading);
    assert_eq!(lines[5].text(), Some("heading"));
}

#[test]
fn line_feed_and_crlf_give_the_same_text() {
    let lf = parse_ok("plain text  \n");
    let crlf = parse_ok("plain text  \r\n");
    assert_eq!(lf[0].text(), Some("plain text  "));
    assert_eq!(crlf[0].text(), Some("plain text  "));
    let lf = parse_ok("=> a b\n");
    let crlf = parse_ok("=> a b\r\n");
    assert_eq!(lf[0].link(), crlf[0].link());
    assert_eq!(lf[0].text(), Some("b"));
    assert_eq!(crlf[0].text(), Some("b"));
}

#[test]
fn empty_read_ends_the_sequence() {
    let mut lines = Lines::new();
    assert!(lines.read_line(Vec::new()).is_none());
    assert!(parse_all(b"").is_empty());
}

#[test]
fn unterminated_last_line_is_yielded() {
    let lines = parse_ok("first\nlast");
    assert_eq!(lines.len(), 2);
    assert_eq!(lines[1].kind(), LineKind::Text);
    assert_eq!(lines[1].text(), Some("last"));
}

#[test]
fn invalid_utf8_line_is_an_error_of_that_step() {
    let lines = parse_all(b"ok\n\xff\xfe\nafter\n");
    assert_eq!(lines.len(), 3);
    assert!(lines[0].is_ok());
    assert!(matches!(lines[1], Err(Error::InvalidUtf8)));
    assert_eq!(lines[2].as_ref().unwrap().text(), Some("after"));
}

#[test]
fn every_known_status_decodes() {
    let codes: [(u8, Status); 18] = [
        (10, Status::Input),
        (11, Status::SensitiveInput),
        (20, Status::Success),
        (30, Status::RedirectTemporary),
        (31, Status::RedirectPermanent),
        (40, Status::TemporaryFailure),
        (41, Status::ServerUnavailable),
        (42, Status::CGIError),
        (43, Status::ProxyError),
        (44, Status::SlowDown),
        (50, Status::PermanentFailure),
        (51, Status::NotFound),
        (52, Status::Gone),
        (53, Status::ProxyRequestRefused),
        (59, Status::BadRequest),
        (60, Status::ClientCertificateRequired),
        (61, Status::CertificateNotAuthorised),
        (62, Status::CertificateNotValid),
    ];
    for (code, status) in codes {
        let line = format!("{} text/gemini; lang=en\r\n", code);
        let resp = Response::try_from_line(line.as_bytes(), ()).ok().unwrap();
        assert_eq!(resp.status, status);
        assert_eq!(resp.meta, "text/gemini; lang=en");
    }
}

#[test]
fn status_meta_with_line_feed_only() {
    let resp = Response::try_from_line(b"20 text/gemini\n", 7u8).ok().unwrap();
    assert_eq!(resp.status, Status::Success);
    assert_eq!(resp.meta, "text/gemini");
    assert_eq!(resp.body.into_inner(), 7u8);
}

#[test]
fn status_with_empty_meta() {
    let resp = Response::try_from_line(b"51 \r\n", ()).ok().unwrap();
    assert_eq!(resp.status, Status::NotFound);
    assert_eq!(resp.meta, "");
}

fn header_error(line: &[u8]) -> Error {
    match Response::try_from_line(line, ()) {
        Ok(_) => panic!("accepted a bad status line"),
        Err(e) => e,
    }
}

#[test]
fn non_digit_status_is_bad_header() {
    assert_eq!(header_error(b"a0 meta\r\n"), Error::BadHeader);
    assert_eq!(header_error(b"2x meta\r\n"), Error::BadHeader);
    assert_eq!(header_error(b" 20 meta\r\n"), Error::BadHeader);
}

#[test]
fn unknown_status_is_bad_header() {
    assert_eq!(header_error(b"21 meta\r\n"), Error::BadHeader);
    assert_eq!(header_error(b"00 meta\r\n"), Error::BadHeader);
    assert_eq!(header_error(b"99 meta\r\n"), Error::BadHeader);
}

#[test]
fn missing_space_is_bad_header() {
    assert_eq!(header_error(b"20\tmeta\r\n"), Error::BadHeader);
    assert_eq!(header_error(b"20\r\n"), Error::BadHeader);
}

#[test]
fn short_status_line_is_unexpected_eof() {
    assert_eq!(header_error(b""), Error::UnexpectedEOF);
    assert_eq!(header_error(b"2"), Error::UnexpectedEOF);
    assert_eq!(header_error(b"20"), Error::UnexpectedEOF);
}

#[test]
fn invalid_utf8_meta() {
    assert_eq!(header_error(b"20 \xc3\x28\r\n"), Error::InvalidUtf8);
}

#[test]
fn empty_link_target_is_kept() {
    let lines = parse_ok("=>\n=>   \r\n");
    assert_eq!(lines[0].kind(), LineKind::Link);
    assert_eq!(lines[0].link(), Some(""));
    assert_eq!(lines[0].text(), None);
    assert_eq!(lines[1].kind(), LineKind::Link);
    assert_eq!(lines[1].link(), Some(""));
    assert_eq!(lines[1].text(), None);
}

#[test]
fn fence_line_trailing_bytes_are_ignored() {
    let lines = parse_ok("```  info\nx\n");
    assert_eq!(lines[0].kind(), LineKind::PreformattingToggle);
    assert_eq!(lines[0].text(), None);
    assert_eq!(lines[1].kind(), LineKind::PreformattedText);
}
