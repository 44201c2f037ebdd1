//! Cursor primitives over a byte buffer: each one starts at a position,
//! moves it forward and never reads past the end of the buffer.
use vstd::prelude::*;

verus! {

pub const TAB: u8 = 9;
pub const LF: u8 = 10;
pub const CR: u8 = 13;
pub const SPACE: u8 = 32;
pub const HASH: u8 = 35;

/// Tab or space.
pub open spec fn is_inline_ws(b: u8) -> bool {
    b == TAB || b == SPACE
}

/// Tab, space, carriage return or line feed.
pub open spec fn is_ws(b: u8) -> bool {
    is_inline_ws(b) || b == CR || b == LF
}

/// Position of the first line feed at or after `from`, or the buffer's length.
pub open spec fn newline_from(buf: Seq<u8>, from: int) -> int
    decreases buf.len() - from,
{
    if from >= buf.len() {
        from
    } else if buf[from] == LF {
        from
    } else {
        newline_from(buf, from + 1)
    }
}

/// Where the content of the line that starts at `from` ends: before its
/// `\n` or `\r\n`, or at the end of the buffer when the line is unterminated.
pub open spec fn line_end(buf: Seq<u8>, from: int) -> int {
    let n = newline_from(buf, from);
    if n < buf.len() && n > from && buf[n - 1] == CR {
        n - 1
    } else {
        n
    }
}

/// Where the next line starts: just past the terminator, or the buffer's end.
pub open spec fn line_next(buf: Seq<u8>, from: int) -> int {
    let n = newline_from(buf, from);
    if n < buf.len() {
        n + 1
    } else {
        n
    }
}

/// End of the run of tabs and spaces that starts at `from`.
pub open spec fn skip_inline_ws(buf: Seq<u8>, from: int) -> int
    decreases buf.len() - from,
{
    if from >= buf.len() {
        from
    } else if is_inline_ws(buf[from]) {
        skip_inline_ws(buf, from + 1)
    } else {
        from
    }
}

/// First whitespace byte at or after `from`, or the buffer's length.
pub open spec fn ws_end(buf: Seq<u8>, from: int) -> int
    decreases buf.len() - from,
{
    if from >= buf.len() {
        from
    } else if is_ws(buf[from]) {
        from
    } else {
        ws_end(buf, from + 1)
    }
}

/// End of the run of `marker` bytes that starts at `from`.
pub open spec fn run_end(buf: Seq<u8>, from: int, marker: u8) -> int
    decreases buf.len() - from,
{
    if from >= buf.len() {
        from
    } else if buf[from] == marker {
        run_end(buf, from + 1, marker)
    } else {
        from
    }
}

pub proof fn lemma_newline_from(buf: Seq<u8>, from: int)
    requires
        0 <= from <= buf.len(),
    ensures
        from <= newline_from(buf, from) <= buf.len(),
        forall|k: int| from <= k < newline_from(buf, from) ==> buf[k] != LF,
        newline_from(buf, from) < buf.len() ==> buf[newline_from(buf, from)] == LF,
    decreases buf.len() - from,
{
    if from < buf.len() && buf[from] != LF {
        lemma_newline_from(buf, from + 1);
    }
}

/// Over bytes that hold no line feed, the search for one just moves on.
pub proof fn lemma_newline_skip(buf: Seq<u8>, from: int, to: int)
    requires
        0 <= from <= to <= buf.len(),
        forall|k: int| from <= k < to ==> buf[k] != LF,
    ensures
        newline_from(buf, from) == newline_from(buf, to),
    decreases to - from,
{
    if from < to {
        lemma_newline_skip(buf, from + 1, to);
    }
}

pub proof fn lemma_line_end(buf: Seq<u8>, from: int)
    requires
        0 <= from <= buf.len(),
    ensures
        from <= line_end(buf, from) <= line_next(buf, from) <= buf.len(),
        forall|k: int| from <= k < line_end(buf, from) ==> buf[k] != LF,
{
    lemma_newline_from(buf, from);
}

pub proof fn lemma_skip_inline_ws(buf: Seq<u8>, from: int)
    requires
        0 <= from <= buf.len(),
    ensures
        from <= skip_inline_ws(buf, from) <= buf.len(),
        forall|k: int| from <= k < skip_inline_ws(buf, from) ==> is_inline_ws(#[trigger] buf[k]),
        skip_inline_ws(buf, from) < buf.len() ==> !is_inline_ws(buf[skip_inline_ws(buf, from)]),
    decreases buf.len() - from,
{
    if from < buf.len() && is_inline_ws(buf[from]) {
        lemma_skip_inline_ws(buf, from + 1);
    }
}

pub proof fn lemma_ws_end(buf: Seq<u8>, from: int)
    requires
        0 <= from <= buf.len(),
    ensures
        from <= ws_end(buf, from) <= buf.len(),
        forall|k: int| from <= k < ws_end(buf, from) ==> !is_ws(#[trigger] buf[k]),
        ws_end(buf, from) < buf.len() ==> is_ws(buf[ws_end(buf, from)]),
    decreases buf.len() - from,
{
    if from < buf.len() && !is_ws(buf[from]) {
        lemma_ws_end(buf, from + 1);
    }
}

pub proof fn lemma_run_end(buf: Seq<u8>, from: int, marker: u8)
    requires
        0 <= from <= buf.len(),
    ensures
        from <= run_end(buf, from, marker) <= buf.len(),
        forall|k: int| from <= k < run_end(buf, from, marker) ==> #[trigger] buf[k] == marker,
        run_end(buf, from, marker) < buf.len() ==> buf[run_end(buf, from, marker)] != marker,
    decreases buf.len() - from,
{
    if from < buf.len() && buf[from] == marker {
        lemma_run_end(buf, from + 1, marker);
    }
}

/// Moves `pos` past the current line and its terminator; returns where the
/// line's content ends.
pub fn next_line(buf: &[u8], pos: &mut usize) -> (end: usize)
    requires
        *old(pos) <= buf@.len(),
    ensures
        end == line_end(buf@, *old(pos) as int),
        *final(pos) == line_next(buf@, *old(pos) as int),
{
    let start: usize = *pos;
    let mut i: usize = start;
    while i < buf.len() && buf[i] != LF
        invariant
            start <= i <= buf@.len(),
            newline_from(buf@, start as int) == newline_from(buf@, i as int),
        decreases buf@.len() - i,
    {
        i = i + 1;
    }
    if i < buf.len() {
        *pos = i + 1;
        if i > start && buf[i - 1] == CR {
            i - 1
        } else {
            i
        }
    } else {
        *pos = i;
        i
    }
}

/// Moves `pos` to the next whitespace byte (or the end) without consuming it,
/// and returns that position.
pub fn next_whitespace(buf: &[u8], pos: &mut usize) -> (end: usize)
    requires
        *old(pos) <= buf@.len(),
    ensures
        end == ws_end(buf@, *old(pos) as int),
        *final(pos) == end,
{
    let start: usize = *pos;
    let mut i: usize = start;
    while i < buf.len() && !(buf[i] == TAB || buf[i] == SPACE || buf[i] == CR || buf[i] == LF)
        invariant
            start <= i <= buf@.len(),
            ws_end(buf@, start as int) == ws_end(buf@, i as int),
        decreases buf@.len() - i,
    {
        i = i + 1;
    }
    *pos = i;
    i
}

/// Moves `pos` past a run of `#` bytes and returns its length.
pub fn consume_header(buf: &[u8], pos: &mut usize) -> (count: usize)
    requires
        *old(pos) <= buf@.len(),
    ensures
        *final(pos) == run_end(buf@, *old(pos) as int, HASH),
        count == *final(pos) - *old(pos),
{
    let start: usize = *pos;
    let mut i: usize = start;
    while i < buf.len() && buf[i] == HASH
        invariant
            start <= i <= buf@.len(),
            run_end(buf@, start as int, HASH) == run_end(buf@, i as int, HASH),
        decreases buf@.len() - i,
    {
        i = i + 1;
    }
    *pos = i;
    i - start
}

/// Moves `pos` past a run of tabs and spaces.
pub fn consume_whitespace(buf: &[u8], pos: &mut usize)
    requires
        *old(pos) <= buf@.len(),
    ensures
        *final(pos) == skip_inline_ws(buf@, *old(pos) as int),
{
    let start: usize = *pos;
    let mut i: usize = start;
    while i < buf.len() && (buf[i] == TAB || buf[i] == SPACE)
        invariant
            start <= i <= buf@.len(),
            skip_inline_ws(buf@, start as int) == skip_inline_ws(buf@, i as int),
        decreases buf@.len() - i,
    {
        i = i + 1;
    }
    *pos = i;
}

} // verus!
