//! The message framer: decides whether a connection's read buffer holds one
//! complete message and, if so, how many bytes of it the message takes.
//!
//! The head of a message ends at the first blank line. A head with a line
//! that begins `transfer-encoding: chunked`, in any letter case, is
//! followed by a chunked body, which ends where the boundary scan says.
//! Any other head is followed by as many bytes as its first
//! `content-length:` line declares, or by none.

use vstd::prelude::*;
use vstd::slice::*;
use vstd::string::*;
use crate::chunked::{chunked_end, find_chunked_body_end};
use crate::number::{parse_decimal, parse_usize};
use crate::requests::{blank_line, head_end, lemma_blank_line};
use crate::space::{trim, trimmed};
use crate::text::{
    find, find_from, lemma_find_some, lit, lowered, starts_with_ignore_case,
};

verus! {

/// The line feed, as bytes.
pub open spec fn line_feed() -> Seq<u8> {
    lit("\n")
}

/// The line feed is one byte.
pub proof fn lemma_line_feed()
    ensures
        line_feed() == seq![10u8],
        line_feed().len() == 1,
{
    reveal_strlit("\n");
    let s = "\n";
    assert(s@.len() == 1);
    assert(is_ascii(s));
    is_ascii_spec_bytes(s);
    assert(s.spec_bytes() =~= seq![10u8]);
}

/// The colon, as bytes.
pub open spec fn colon() -> Seq<u8> {
    lit(":")
}

/// The prefix of a line that declares the length of the body is fifteen
/// bytes long.
pub proof fn lemma_length_prefix()
    ensures
        lit("content-length:").len() == 15,
{
    reveal_strlit("content-length:");
    let s = "content-length:";
    assert(s@.len() == 15);
    assert(is_ascii(s));
    is_ascii_spec_bytes(s);
}

/// Offset at which the line that starts at `pos` ends: that of the next
/// line feed, or the end of `head`.
pub open spec fn line_end(head: Seq<u8>, pos: int) -> int {
    match find_from(head, line_feed(), pos) {
        Some(e) => e,
        None => head.len() as int,
    }
}

/// A line ends at or after its start, within `head`.
pub proof fn lemma_line_end(head: Seq<u8>, pos: int)
    requires
        0 <= pos <= head.len(),
    ensures
        pos <= line_end(head, pos) <= head.len(),
{
    lemma_line_feed();
    if find_from(head, line_feed(), pos) is Some {
        lemma_find_some(head, line_feed(), pos);
    }
}

/// Some line of `head` at or after offset `pos` begins
/// `transfer-encoding: chunked`, in any letter case.
pub open spec fn chunked_line_from(head: Seq<u8>, pos: int) -> bool
    decreases head.len() + 1 - pos,
{
    if pos < 0 || pos >= head.len() {
        false
    } else {
        proof {
            lemma_line_end(head, pos);
        }
        let e = line_end(head, pos);
        lit("transfer-encoding: chunked").is_prefix_of(lowered(head.subrange(pos, e)))
            || chunked_line_from(head, e + 1)
    }
}

/// The length that a `content-length:` line declares: the decimal number
/// between the first colon and the next one, or the end of the line, with
/// white space around it trimmed. A text there that is no number, or a
/// number that no `usize` holds, counts as 0.
pub open spec fn declared_length(line: Seq<u8>) -> usize {
    let rest = line.skip(15);
    let value = match find_from(rest, colon(), 0) {
        Some(c) => rest.take(c),
        None => rest,
    };
    match parse_usize(trim(value), 10) {
        Some(n) => n,
        None => 0,
    }
}

/// The length that the first line of `head` at or after offset `pos` that
/// begins `content-length:`, in any letter case, declares; 0 without such
/// a line.
pub open spec fn content_length_from(head: Seq<u8>, pos: int) -> usize
    decreases head.len() + 1 - pos,
{
    if pos < 0 || pos >= head.len() {
        0
    } else {
        proof {
            lemma_line_end(head, pos);
        }
        let e = line_end(head, pos);
        let line = head.subrange(pos, e);
        if lit("content-length:").is_prefix_of(lowered(line)) {
            declared_length(line)
        } else {
            content_length_from(head, e + 1)
        }
    }
}

/// The head announces a chunked body.
pub open spec fn chunked_head(head: Seq<u8>) -> bool {
    chunked_line_from(head, 0)
}

/// The length of the body that the head announces, when it is not chunked.
pub open spec fn content_length(head: Seq<u8>) -> usize {
    content_length_from(head, 0)
}

/// The number of bytes that the first message of `buf` takes, head and
/// body, as far as `buf` tells: `None` while the head is not complete, or
/// while the end of a chunked body is not in sight.
pub open spec fn required_length(buf: Seq<u8>) -> Option<int> {
    match head_end(buf) {
        None => None,
        Some(end) => {
            let head = buf.take(end);
            if chunked_head(head) {
                match chunked_end(buf.skip(end)) {
                    Some(e) => Some(end + e),
                    None => None,
                }
            } else {
                Some(end + content_length(head))
            }
        },
    }
}

/// The length of the complete message at the front of `buf`: the required
/// length, once `buf` holds that many bytes.
pub open spec fn framed(buf: Seq<u8>) -> Option<int> {
    match required_length(buf) {
        Some(n) => if n <= buf.len() {
            Some(n)
        } else {
            None
        },
        None => None,
    }
}

/// Whether some line of `head` announces a chunked body.
pub fn is_chunked_head(head: &[u8]) -> (r: bool)
    ensures
        r == chunked_head(head@),
{
    let n: usize = head.len();
    let mut pos: usize = 0;
    while pos < n
        invariant
            n == head.len(),
            chunked_head(head@) == chunked_line_from(head@, pos as int),
        decreases n - pos,
    {
        proof {
            lemma_line_end(head@, pos as int);
        }
        let e: usize = match find(head, "\n".as_bytes(), pos) {
            Some(e) => e,
            None => n,
        };
        let line = slice_subrange(head, pos, e);
        if starts_with_ignore_case(line, "transfer-encoding: chunked".as_bytes()) {
            return true;
        }
        if e >= n {
            assert(!chunked_line_from(head@, e + 1));
            return false;
        }
        pos = e + 1;
    }
    false
}

/// The length that a `content-length:` line declares.
fn read_declared_length(line: &[u8]) -> (r: usize)
    requires
        line.len() >= 15,
    ensures
        r == declared_length(line@),
{
    let rest = slice_subrange(line, 15, line.len());
    assert(rest@ =~= line@.skip(15));
    let value = match find(rest, ":".as_bytes(), 0) {
        Some(c) => {
            proof {
                lemma_find_some(rest@, colon(), 0);
            }
            let v = slice_subrange(rest, 0, c);
            assert(v@ =~= rest@.take(c as int));
            v
        },
        None => rest,
    };
    match parse_decimal(trimmed(value)) {
        Some(n) => n,
        None => 0,
    }
}

/// The length of the body that `head` announces.
fn read_content_length(head: &[u8]) -> (r: usize)
    ensures
        r == content_length(head@),
{
    let n: usize = head.len();
    let mut pos: usize = 0;
    while pos < n
        invariant
            n == head.len(),
            content_length(head@) == content_length_from(head@, pos as int),
        decreases n - pos,
    {
        proof {
            lemma_line_end(head@, pos as int);
            lemma_length_prefix();
        }
        let e: usize = match find(head, "\n".as_bytes(), pos) {
            Some(e) => e,
            None => n,
        };
        let line = slice_subrange(head, pos, e);
        if starts_with_ignore_case(line, "content-length:".as_bytes()) {
            return read_declared_length(line);
        }
        if e >= n {
            assert(content_length_from(head@, e + 1) == 0);
            return 0;
        }
        pos = e + 1;
    }
    0
}

/// Decides whether `buf` holds a complete message, and returns the number
/// of bytes that the message takes from the front of `buf`. The message
/// is complete once `buf` holds its head and as many bytes after it as the
/// head's framing asks for; until then the answer is `None`.
pub fn frame_message(buf: &[u8]) -> (r: Option<usize>)
    ensures
        match r {
            Some(n) => framed(buf@) == Some(n as int) && n <= buf.len(),
            None => framed(buf@) is None,
        },
{
    let h: usize = match find(buf, "\r\n\r\n".as_bytes(), 0) {
        Some(h) => h,
        None => {
            return None;
        },
    };
    proof {
        lemma_blank_line();
        assert(find_from(buf@, blank_line(), 0) == Some(h as int));
        lemma_find_some(buf@, blank_line(), 0);
        assert(h + 4 <= buf.len());
    }
    let end: usize = h + 4;
    let head = slice_subrange(buf, 0, end);
    assert(head@ =~= buf@.take(end as int));
    let rest = slice_subrange(buf, end, buf.len());
    assert(rest@ =~= buf@.skip(end as int));
    if is_chunked_head(head) {
        match find_chunked_body_end(rest) {
            Some(e) => {
                if e <= buf.len() - end {
                    Some(end + e)
                } else {
                    None
                }
            },
            None => None,
        }
    } else {
        let declared: usize = read_content_length(head);
        if declared <= buf.len() - end {
            Some(end + declared)
        } else {
            None
        }
    }
}

} // verus!
