//! Classifying the lines of a reply's body.
use vstd::prelude::*;
use vstd::slice::slice_subrange;

use crate::error::Error;
use crate::scan::{
    consume_header, consume_whitespace, is_inline_ws, is_ws, lemma_line_end, lemma_newline_skip,
    lemma_run_end, lemma_skip_inline_ws, lemma_ws_end, line_end, newline_from, next_line,
    next_whitespace, run_end, skip_inline_ws, ws_end, CR, HASH, LF, SPACE,
};
use crate::utf8::{decode_utf8, utf8_decode};

verus! {

pub const BACKTICK: u8 = 96;
pub const EQUALS: u8 = 61;
pub const GREATER: u8 = 62;
pub const STAR: u8 = 42;

/// The structural kinds of a body line.
#[derive(Debug, Clone, Copy, PartialEq, Eq, Structural)]
pub enum LineKind {
    Text,
    Link,
    PreformattingToggle,
    PreformattedText,
    Heading,
    UnorderedListItem,
    Quote,
}

/// A byte range `start..end` of one line's own bytes.
#[derive(Debug, Clone, Copy, PartialEq, Eq)]
pub struct Slice {
    start: usize,
    end: usize,
}

/// A line that opens or closes a preformatted block: three backticks.
pub open spec fn is_fence(buf: Seq<u8>) -> bool {
    buf.len() >= 3 && buf[0] == BACKTICK && buf[1] == BACKTICK && buf[2] == BACKTICK
}

pub open spec fn starts_with2(buf: Seq<u8>, a: u8, b: u8) -> bool {
    buf.len() >= 2 && buf[0] == a && buf[1] == b
}

/// The kind of a line, given whether a preformatted block is open.
pub open spec fn kind_of(buf: Seq<u8>, pre: bool) -> LineKind {
    if is_fence(buf) {
        LineKind::PreformattingToggle
    } else if pre {
        LineKind::PreformattedText
    } else if starts_with2(buf, EQUALS, GREATER) {
        LineKind::Link
    } else if buf.len() >= 1 && buf[0] == HASH {
        LineKind::Heading
    } else if starts_with2(buf, STAR, SPACE) {
        LineKind::UnorderedListItem
    } else if buf.len() >= 1 && buf[0] == GREATER {
        LineKind::Quote
    } else {
        LineKind::Text
    }
}

/// Whether a preformatted block is open after the line.
pub open spec fn pre_after(buf: Seq<u8>, pre: bool) -> bool {
    if is_fence(buf) {
        !pre
    } else {
        pre
    }
}

/// Where a link line's target starts.
pub open spec fn target_start(buf: Seq<u8>) -> int {
    skip_inline_ws(buf, 2)
}

/// Where a link line's target ends.
pub open spec fn target_end(buf: Seq<u8>) -> int {
    ws_end(buf, target_start(buf))
}

/// Whether a link line ends right after its target.
pub open spec fn target_ends_line(buf: Seq<u8>) -> bool {
    let t = target_end(buf);
    t >= buf.len() || buf[t] == CR || buf[t] == LF
}

/// The bounds of the line's link target, for a link line.
pub open spec fn link_of(buf: Seq<u8>, pre: bool) -> Option<(int, int)> {
    if kind_of(buf, pre) == LineKind::Link {
        Some((target_start(buf), target_end(buf)))
    } else {
        None
    }
}

/// The bounds of the rest of the line from `from`, terminator stripped.
pub open spec fn rest_from(buf: Seq<u8>, from: int) -> Option<(int, int)> {
    Some((from, line_end(buf, from)))
}

/// The bounds of the line's text: its content with markers and the
/// terminator stripped, the name of a link, or none.
pub open spec fn text_of(buf: Seq<u8>, pre: bool) -> Option<(int, int)> {
    match kind_of(buf, pre) {
        LineKind::PreformattingToggle => None,
        LineKind::Link => if target_ends_line(buf) {
            None
        } else {
            rest_from(buf, skip_inline_ws(buf, target_end(buf)))
        },
        LineKind::Heading => rest_from(buf, skip_inline_ws(buf, run_end(buf, 0, HASH))),
        LineKind::UnorderedListItem => rest_from(buf, 2),
        LineKind::Quote => rest_from(buf, 1),
        _ => rest_from(buf, 0),
    }
}

/// A heading's level: the number of leading `#` bytes.
pub open spec fn level_of(buf: Seq<u8>, pre: bool) -> Option<int> {
    if kind_of(buf, pre) == LineKind::Heading {
        Some(run_end(buf, 0, HASH))
    } else {
        None
    }
}

/// The bytes that bounds pick out of a line.
pub open spec fn bytes_of(buf: Seq<u8>, s: Option<(int, int)>) -> Option<Seq<u8>> {
    match s {
        Some((a, b)) => Some(buf.subrange(a, b)),
        None => None,
    }
}

/// Whether the bytes that bounds pick out are UTF-8 (or there are none).
pub open spec fn decodes(buf: Seq<u8>, s: Option<(int, int)>) -> bool {
    match bytes_of(buf, s) {
        Some(b) => utf8_decode(b) is Some,
        None => true,
    }
}

/// Whether the line's text and link target are UTF-8.
pub open spec fn line_decodes(buf: Seq<u8>, pre: bool) -> bool {
    decodes(buf, text_of(buf, pre)) && decodes(buf, link_of(buf, pre))
}

spec fn slice_view(s: Option<Slice>) -> Option<(int, int)> {
    match s {
        Some(sl) => Some((sl.start as int, sl.end as int)),
        None => None,
    }
}

spec fn slice_fits(src: Seq<u8>, s: Option<Slice>) -> bool {
    match s {
        Some(sl) => sl.start <= sl.end <= src.len(),
        None => true,
    }
}

/// One classified line; it keeps its own bytes, and its text and link
/// target are ranges of them.
#[derive(Debug, PartialEq, Eq)]
pub struct Line {
    kind: LineKind,
    src: Vec<u8>,
    link: Option<Slice>,
    text: Option<Slice>,
    level: Option<usize>,
}

impl Line {
    #[verifier::type_invariant]
    spec fn inv(&self) -> bool {
        &&& slice_fits(self.src@, self.text)
        &&& slice_fits(self.src@, self.link)
        &&& decodes(self.src@, slice_view(self.text))
        &&& decodes(self.src@, slice_view(self.link))
    }

    pub closed spec fn spec_kind(&self) -> LineKind {
        self.kind
    }

    /// The line's bytes, terminator included.
    pub closed spec fn spec_src(&self) -> Seq<u8> {
        self.src@
    }

    pub closed spec fn spec_text(&self) -> Option<(int, int)> {
        slice_view(self.text)
    }

    pub closed spec fn spec_link(&self) -> Option<(int, int)> {
        slice_view(self.link)
    }

    pub closed spec fn spec_level(&self) -> Option<int> {
        match self.level {
            Some(n) => Some(n as int),
            None => None,
        }
    }

    pub fn kind(&self) -> (r: LineKind)
        ensures
            r == self.spec_kind(),
    {
        self.kind
    }

    pub fn level(&self) -> (r: Option<usize>)
        ensures
            r matches Some(n) ==> self.spec_level() == Some(n as int),
            r is None <==> self.spec_level() is None,
    {
        self.level
    }

    fn slice_text(&self, s: Option<Slice>) -> (r: Option<&str>)
        requires
            slice_fits(self.src@, s),
            decodes(self.src@, slice_view(s)),
        ensures
            r is Some <==> s is Some,
            r is Some ==> r->0@ == utf8_decode(bytes_of(self.src@, slice_view(s))->0)->0,
    {
        match s {
            Some(sl) => {
                let b = slice_subrange(self.src.as_slice(), sl.start, sl.end);
                decode_utf8(b)
            },
            None => None,
        }
    }

    /// The line's text, if its kind has one.
    pub fn text(&self) -> (r: Option<&str>)
        ensures
            r is Some <==> self.spec_text() is Some,
            r is Some ==> r->0@ == utf8_decode(bytes_of(self.spec_src(), self.spec_text())->0)->0,
    {
        proof {
            use_type_invariant(self);
        }
        self.slice_text(self.text)
    }

    /// A link line's target.
    pub fn link(&self) -> (r: Option<&str>)
        ensures
            r is Some <==> self.spec_link() is Some,
            r is Some ==> r->0@ == utf8_decode(bytes_of(self.spec_src(), self.spec_link())->0)->0,
    {
        proof {
            use_type_invariant(self);
        }
        self.slice_text(self.link)
    }
}

/// `r` is what classifying `src` must give when a preformatted block is open
/// exactly when `pre` holds: the line with its kind, text, link target and
/// level, or `InvalidUtf8` when its text or target is not UTF-8.
pub open spec fn classified(src: Seq<u8>, pre: bool, r: Result<Line, Error>) -> bool {
    match r {
        Ok(line) => {
            &&& line_decodes(src, pre)
            &&& line.spec_src() == src
            &&& line.spec_kind() == kind_of(src, pre)
            &&& line.spec_text() == text_of(src, pre)
            &&& line.spec_link() == link_of(src, pre)
            &&& line.spec_level() == level_of(src, pre)
        },
        Err(e) => !line_decodes(src, pre) && e == Error::InvalidUtf8,
    }
}

/// A fence line always toggles whether a preformatted block is open, and
/// carries no text.
pub proof fn lemma_fence_toggles(buf: Seq<u8>, pre: bool)
    requires
        is_fence(buf),
    ensures
        kind_of(buf, pre) == LineKind::PreformattingToggle,
        pre_after(buf, pre) == !pre,
        text_of(buf, pre) is None,
{
}

/// Inside a preformatted block every line but a fence is preformatted text:
/// its whole content, terminator stripped, whatever it looks like.
pub proof fn lemma_block_is_verbatim(buf: Seq<u8>)
    requires
        !is_fence(buf),
    ensures
        kind_of(buf, true) == LineKind::PreformattedText,
        text_of(buf, true) == Some((0int, line_end(buf, 0))),
        link_of(buf, true) is None,
        level_of(buf, true) is None,
        pre_after(buf, true),
{
}

/// The kinds of successive lines, starting with `pre` as the block state.
pub open spec fn kinds_of(lines: Seq<Seq<u8>>, pre: bool) -> Seq<LineKind>
    decreases lines.len(),
{
    if lines.len() == 0 {
        Seq::empty()
    } else {
        seq![kind_of(lines[0], pre)] + kinds_of(lines.drop_first(), pre_after(lines[0], pre))
    }
}

/// The block state after successive lines.
pub open spec fn pre_after_all(lines: Seq<Seq<u8>>, pre: bool) -> bool
    decreases lines.len(),
{
    if lines.len() == 0 {
        pre
    } else {
        pre_after_all(lines.drop_first(), pre_after(lines[0], pre))
    }
}

proof fn lemma_kinds_len(lines: Seq<Seq<u8>>, pre: bool)
    ensures
        kinds_of(lines, pre).len() == lines.len(),
    decreases lines.len(),
{
    if lines.len() > 0 {
        lemma_kinds_len(lines.drop_first(), pre_after(lines[0], pre));
    }
}

proof fn lemma_block_rest(lines: Seq<Seq<u8>>)
    requires
        lines.len() >= 1,
        is_fence(lines.last()),
        forall|i: int| 0 <= i < lines.len() - 1 ==> !is_fence(#[trigger] lines[i]),
    ensures
        kinds_of(lines, true).len() == lines.len(),
        forall|i: int|
            0 <= i < lines.len() - 1 ==> #[trigger] kinds_of(lines, true)[i]
                == LineKind::PreformattedText,
        kinds_of(lines, true).last() == LineKind::PreformattingToggle,
        !pre_after_all(lines, true),
    decreases lines.len(),
{
    lemma_kinds_len(lines, true);
    let rest = lines.drop_first();
    if lines.len() == 1 {
        assert(kinds_of(rest, false) =~= Seq::<LineKind>::empty());
        assert(rest.len() == 0);
        assert(lines[0] == lines.last());
        assert(pre_after_all(lines, true) == pre_after_all(rest, false));
        assert(!pre_after(lines[0], true));
    } else {
        assert(forall|i: int| 0 <= i < rest.len() - 1 ==> rest[i] == lines[i + 1]);
        lemma_block_rest(rest);
        assert(!is_fence(lines[0]));
        assert(pre_after_all(lines, true) == pre_after_all(rest, true));
        assert(kinds_of(lines, true) == seq![LineKind::PreformattedText] + kinds_of(rest, true));
        assert forall|i: int| 0 <= i < lines.len() - 1 implies #[trigger] kinds_of(lines, true)[i]
            == LineKind::PreformattedText by {
            if i > 0 {
                assert(kinds_of(lines, true)[i] == kinds_of(rest, true)[i - 1]);
            }
        }
    }
}

/// Outside any block, a fence line, lines that are not fences and a closing
/// fence: both fences toggle, every line between them is preformatted text
/// whatever its shape, and the block is closed afterwards.
pub proof fn lemma_fenced_block(lines: Seq<Seq<u8>>)
    requires
        lines.len() >= 2,
        is_fence(lines[0]),
        is_fence(lines.last()),
        forall|i: int| 0 < i < lines.len() - 1 ==> !is_fence(#[trigger] lines[i]),
    ensures
        kinds_of(lines, false).len() == lines.len(),
        kinds_of(lines, false)[0] == LineKind::PreformattingToggle,
        forall|i: int|
            0 < i < lines.len() - 1 ==> #[trigger] kinds_of(lines, false)[i]
                == LineKind::PreformattedText,
        kinds_of(lines, false).last() == LineKind::PreformattingToggle,
        !pre_after_all(lines, false),
{
    let rest = lines.drop_first();
    assert(forall|i: int| 0 <= i < rest.len() ==> rest[i] == lines[i + 1]);
    assert(forall|i: int| 0 <= i < rest.len() - 1 ==> !is_fence(#[trigger] rest[i]));
    lemma_block_rest(rest);
    lemma_kinds_len(lines, false);
    assert(kinds_of(lines, false) == seq![LineKind::PreformattingToggle] + kinds_of(rest, true));
    assert forall|i: int| 0 < i < lines.len() - 1 implies #[trigger] kinds_of(lines, false)[i]
        == LineKind::PreformattedText by {
        assert(kinds_of(lines, false)[i] == kinds_of(rest, true)[i - 1]);
    }
}

/// Outside a block, a line that starts with exactly `n` `#` bytes is a
/// heading of level `n`, however large `n` is.
pub proof fn lemma_heading_level(buf: Seq<u8>, n: int)
    requires
        1 <= n <= buf.len(),
        forall|k: int| 0 <= k < n ==> buf[k] == HASH,
        n == buf.len() || buf[n] != HASH,
    ensures
        kind_of(buf, false) == LineKind::Heading,
        level_of(buf, false) == Some(n),
{
    lemma_run_end(buf, 0, HASH);
    let r = run_end(buf, 0, HASH);
    if r < n {
        assert(buf[r] == HASH);
    }
    if r > n {
        assert(buf[n] == HASH);
    }
}

proof fn lemma_skip_agree(a: Seq<u8>, b: Seq<u8>, m: int, k: int)
    requires
        0 <= k <= m < a.len(),
        m < b.len(),
        forall|j: int| 0 <= j < m ==> a[j] == b[j],
        !is_inline_ws(a[m]),
        !is_inline_ws(b[m]),
    ensures
        skip_inline_ws(a, k) == skip_inline_ws(b, k),
        k <= skip_inline_ws(a, k) <= m,
    decreases m - k,
{
    if k < m {
        lemma_skip_agree(a, b, m, k + 1);
    }
}

proof fn lemma_ws_end_agree(a: Seq<u8>, b: Seq<u8>, m: int, k: int)
    requires
        0 <= k <= m < a.len(),
        m < b.len(),
        forall|j: int| 0 <= j < m ==> a[j] == b[j],
        is_ws(a[m]),
        is_ws(b[m]),
    ensures
        ws_end(a, k) == ws_end(b, k),
        k <= ws_end(a, k) <= m,
    decreases m - k,
{
    if k < m {
        lemma_ws_end_agree(a, b, m, k + 1);
    }
}

proof fn lemma_run_end_agree(a: Seq<u8>, b: Seq<u8>, m: int, k: int, marker: u8)
    requires
        0 <= k <= m < a.len(),
        m < b.len(),
        forall|j: int| 0 <= j < m ==> a[j] == b[j],
        a[m] != marker,
        b[m] != marker,
    ensures
        run_end(a, k, marker) == run_end(b, k, marker),
        k <= run_end(a, k, marker) <= m,
    decreases m - k,
{
    if k < m {
        lemma_run_end_agree(a, b, m, k + 1, marker);
    }
}

/// `c` ended by `\n` and by `\r\n`: every line end found from `k` is `c`'s end.
proof fn lemma_line_end_agree(c: Seq<u8>, k: int)
    requires
        0 <= k <= c.len(),
        forall|j: int| 0 <= j < c.len() ==> c[j] != LF,
        c.len() == 0 || c.last() != CR,
    ensures
        line_end(c.push(LF), k) == c.len(),
        line_end(c + seq![CR, LF], k) == c.len(),
{
    let a = c.push(LF);
    let b = c + seq![CR, LF];
    let m = c.len() as int;
    assert(forall|j: int| 0 <= j < m ==> a[j] == c[j] && b[j] == c[j]);
    lemma_newline_skip(a, k, m);
    lemma_newline_skip(b, k, m + 1);
    assert(newline_from(a, m) == m);
    assert(newline_from(b, m + 1) == m + 1);
}

/// A line ended by `\n` and the same line ended by `\r\n` are classified
/// alike: the same kind, level, text and link target, with exactly the
/// terminator stripped; a plain or preformatted line's text is its content.
pub proof fn lemma_terminators_agree(c: Seq<u8>, pre: bool)
    requires
        forall|j: int| 0 <= j < c.len() ==> c[j] != LF,
        c.len() == 0 || c.last() != CR,
    ensures
        ({
            let a = c.push(LF);
            let b = c + seq![CR, LF];
            &&& kind_of(a, pre) == kind_of(b, pre)
            &&& level_of(a, pre) == level_of(b, pre)
            &&& pre_after(a, pre) == pre_after(b, pre)
            &&& bytes_of(a, text_of(a, pre)) == bytes_of(b, text_of(b, pre))
            &&& bytes_of(a, link_of(a, pre)) == bytes_of(b, link_of(b, pre))
            &&& (kind_of(a, pre) == LineKind::Text || kind_of(a, pre) == LineKind::PreformattedText)
                ==> bytes_of(a, text_of(a, pre)) == Some(c)
        }),
{
    let a = c.push(LF);
    let b = c + seq![CR, LF];
    let m = c.len() as int;
    assert(a.len() == m + 1 && b.len() == m + 2);
    assert(forall|j: int| 0 <= j < m ==> a[j] == c[j] && b[j] == c[j]);
    assert(a[m] == LF && b[m] == CR && b[m + 1] == LF);
    assert(forall|s: int, e: int| 0 <= s <= e <= m ==> a.subrange(s, e) =~= b.subrange(s, e));
    assert(kind_of(a, pre) == kind_of(b, pre));
    assert(is_fence(a) == is_fence(b));
    let kind = kind_of(a, pre);
    if kind == LineKind::Link {
        lemma_skip_agree(a, b, m, 2);
        let ts = target_start(a);
        lemma_ws_end_agree(a, b, m, ts);
        let te = target_end(a);
        assert(target_ends_line(a) == target_ends_line(b));
        if !target_ends_line(a) {
            lemma_skip_agree(a, b, m, te);
            lemma_line_end_agree(c, skip_inline_ws(a, te));
        }
    } else if kind == LineKind::Heading {
        lemma_run_end_agree(a, b, m, 0, HASH);
        lemma_skip_agree(a, b, m, run_end(a, 0, HASH));
        lemma_line_end_agree(c, skip_inline_ws(a, run_end(a, 0, HASH)));
    } else if kind == LineKind::UnorderedListItem {
        lemma_line_end_agree(c, 2);
    } else if kind == LineKind::Quote {
        lemma_line_end_agree(c, 1);
    } else if kind != LineKind::PreformattingToggle {
        lemma_line_end_agree(c, 0);
        assert(a.subrange(0, m) =~= c);
    }
}

fn slice_decodes(buf: &[u8], s: Option<Slice>) -> (r: bool)
    requires
        slice_fits(buf@, s),
    ensures
        r == decodes(buf@, slice_view(s)),
{
    match s {
        Some(sl) => decode_utf8(slice_subrange(buf, sl.start, sl.end)).is_some(),
        None => true,
    }
}

/// Classifies one raw line: its bytes through the terminator, or what was
/// left when the stream ended without one. `pre` tells whether a
/// preformatted block is open.
///
/// A link line whose target is empty (`=>` and nothing else) is still a
/// link, with an empty target and no name.
pub fn classify(src: Vec<u8>, pre: bool) -> (r: Result<Line, Error>)
    ensures
        classified(src@, pre, r),
{
    let buf = src.as_slice();
    let n = buf.len();
    let mut pos: usize = 0;
    let mut kind = LineKind::Text;
    let mut link: Option<Slice> = None;
    let mut text: Option<Slice> = None;
    let mut level: Option<usize> = None;
    if n >= 3 && buf[0] == BACKTICK && buf[1] == BACKTICK && buf[2] == BACKTICK {
        kind = LineKind::PreformattingToggle;
    } else if pre {
        proof {
            lemma_line_end(buf@, 0);
        }
        let end = next_line(buf, &mut pos);
        kind = LineKind::PreformattedText;
        text = Some(Slice { start: 0, end });
    } else if n >= 2 && buf[0] == EQUALS && buf[1] == GREATER {
        pos = 2;
        consume_whitespace(buf, &mut pos);
        proof {
            lemma_skip_inline_ws(buf@, 2);
        }
        let ts: usize = pos;
        let te = next_whitespace(buf, &mut pos);
        proof {
            lemma_ws_end(buf@, ts as int);
        }
        kind = LineKind::Link;
        link = Some(Slice { start: ts, end: te });
        if !(pos >= n || buf[pos] == CR || buf[pos] == LF) {
            consume_whitespace(buf, &mut pos);
            proof {
                lemma_skip_inline_ws(buf@, te as int);
            }
            let s: usize = pos;
            let e = next_line(buf, &mut pos);
            proof {
                lemma_line_end(buf@, s as int);
            }
            text = Some(Slice { start: s, end: e });
        }
    } else if n >= 1 && buf[0] == HASH {
        let count = consume_header(buf, &mut pos);
        proof {
            lemma_run_end(buf@, 0, HASH);
        }
        let h: usize = pos;
        consume_whitespace(buf, &mut pos);
        proof {
            lemma_skip_inline_ws(buf@, h as int);
        }
        let s: usize = pos;
        let e = next_line(buf, &mut pos);
        proof {
            lemma_line_end(buf@, s as int);
        }
        kind = LineKind::Heading;
        text = Some(Slice { start: s, end: e });
        level = Some(count);
    } else if n >= 2 && buf[0] == STAR && buf[1] == SPACE {
        pos = 2;
        proof {
            lemma_line_end(buf@, 2);
        }
        let e = next_line(buf, &mut pos);
        kind = LineKind::UnorderedListItem;
        text = Some(Slice { start: 2, end: e });
    } else if n >= 1 && buf[0] == GREATER {
        pos = 1;
        proof {
            lemma_line_end(buf@, 1);
        }
        let e = next_line(buf, &mut pos);
        kind = LineKind::Quote;
        text = Some(Slice { start: 1, end: e });
    } else {
        proof {
            lemma_line_end(buf@, 0);
        }
        let e = next_line(buf, &mut pos);
        text = Some(Slice { start: 0, end: e });
    }
    if slice_decodes(buf, text) && slice_decodes(buf, link) {
        Ok(Line { kind, src, link, text, level })
    } else {
        Err(Error::InvalidUtf8)
    }
}

/// The state of a walk over a body's lines: whether a preformatted block is
/// open. The caller reads each line from the source and hands it over.
pub struct Lines {
    is_preformatting: bool,
}

impl Lines {
    pub closed spec fn preformatting(&self) -> bool {
        self.is_preformatting
    }

    /// A walk at the start of a body, outside any preformatted block.
    pub fn new() -> (r: Self)
        ensures
            !r.preformatting(),
    {
        Lines { is_preformatting: false }
    }

    /// Takes the next raw line read from the source. An empty read is the end
    /// of the stream and yields nothing; any other line is classified, and a
    /// fence line opens or closes a preformatted block. A last line that the
    /// stream ended before its terminator is classified like any other, so
    /// no data is dropped.
    pub fn read_line(&mut self, raw: Vec<u8>) -> (r: Option<Result<Line, Error>>)
        ensures
            raw@.len() == 0 ==> r is None && final(self).preformatting() == old(self).preformatting(),
            raw@.len() > 0 ==> {
                &&& r matches Some(res) && classified(raw@, old(self).preformatting(), res)
                &&& final(self).preformatting() == pre_after(raw@, old(self).preformatting())
            },
    {
        if raw.len() == 0 {
            return None;
        }
        let pre = self.is_preformatting;
        if raw.len() >= 3 && raw[0] == BACKTICK && raw[1] == BACKTICK && raw[2] == BACKTICK {
            self.is_preformatting = !pre;
        }
        Some(classify(raw, pre))
    }
}

} // verus!
