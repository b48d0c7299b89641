//! What holds of the framer as a connection's buffer grows: a message is
//! reported complete at one length only, and never before all of it is
//! there.

use vstd::prelude::*;
use crate::chunked::{chunked_end, lemma_complete_stream_decodes};
use crate::chunked_laws::{lemma_scan_is_stable, lemma_scan_stops_at_end};
use crate::framer::{chunked_head, content_length, framed};
use crate::requests::{blank_line, head_end, lemma_blank_line, request_body};
use crate::text::{lemma_find_extend, lemma_find_restrict, lemma_find_some};

verus! {

/// The head of a message stays the same when more bytes arrive.
pub proof fn lemma_head_is_stable(short: Seq<u8>, long: Seq<u8>)
    requires
        short.is_prefix_of(long),
        head_end(short) is Some,
    ensures
        head_end(long) == head_end(short),
        4 <= head_end(short)->0 <= short.len(),
        long.take(head_end(short)->0) == short.take(head_end(short)->0),
{
    lemma_blank_line();
    lemma_find_some(short, blank_line(), 0);
    lemma_find_extend(short, long, blank_line(), 0);
    let end = head_end(short)->0;
    assert(long.take(end) =~= short.take(end));
}

/// Once a message is complete it stays complete at the same length,
/// however many bytes arrive after it.
pub proof fn lemma_framing_is_stable(short: Seq<u8>, long: Seq<u8>)
    requires
        short.is_prefix_of(long),
        framed(short) is Some,
    ensures
        framed(long) == framed(short),
{
    lemma_head_is_stable(short, long);
    let end = head_end(short)->0;
    assert(short.skip(end).is_prefix_of(long.skip(end))) by {
        assert(long.skip(end).subrange(0, short.skip(end).len() as int) =~= short.skip(end));
    }
    if chunked_head(short.take(end)) {
        lemma_scan_is_stable(short.skip(end), long.skip(end), 0);
    }
}

/// The buffer holds the whole head of a message but not all of its body:
/// the body is chunked and its end is not in the buffer, or the head
/// declares more bytes than follow it.
pub open spec fn body_is_incomplete(buf: Seq<u8>) -> bool {
    match head_end(buf) {
        None => false,
        Some(end) => {
            let head = buf.take(end);
            if chunked_head(head) {
                match chunked_end(buf.skip(end)) {
                    Some(e) => buf.len() < end + e,
                    None => true,
                }
            } else {
                buf.len() < end + content_length(head)
            }
        },
    }
}

/// A buffer with a complete head and an incomplete body is reported
/// incomplete, and a buffer that is reported complete has all of its body.
pub proof fn lemma_incomplete_body_is_not_framed(buf: Seq<u8>)
    ensures
        body_is_incomplete(buf) ==> framed(buf) is None,
        framed(buf) is Some ==> !body_is_incomplete(buf),
        head_end(buf) is Some && framed(buf) is None ==> body_is_incomplete(buf),
{
}

/// No premature completion. Take a buffer that holds exactly one complete
/// message, and any shorter part of it that already holds the whole head:
/// the part is not reported complete. So a buffer with a complete head and
/// an incomplete body is always reported incomplete.
pub proof fn lemma_no_premature_completion(part: Seq<u8>, message: Seq<u8>)
    requires
        part.is_prefix_of(message),
        part.len() < message.len(),
        head_end(part) is Some,
        framed(message) == Some(message.len() as int),
    ensures
        framed(part) is None,
{
    if framed(part) is Some {
        lemma_framing_is_stable(part, message);
    }
}

/// What the framer reports complete, the parser can read. The bytes of a
/// complete message have their head where the buffer has it, and the body
/// that follows the head in them is one that the parser takes: a body
/// that the framer took for chunked decodes.
pub proof fn lemma_framed_body_is_read(buf: Seq<u8>)
    requires
        framed(buf) is Some,
    ensures
        head_end(buf) is Some,
        head_end(buf)->0 <= framed(buf)->0 <= buf.len(),
        head_end(buf.take(framed(buf)->0)) == head_end(buf),
        request_body(
            buf.take(framed(buf)->0).take(head_end(buf)->0),
            buf.take(framed(buf)->0).skip(head_end(buf)->0),
        ) is Some,
{
    lemma_blank_line();
    lemma_find_some(buf, blank_line(), 0);
    let end = head_end(buf)->0;
    let n = framed(buf)->0;
    let message = buf.take(n);
    let head = buf.take(end);
    if chunked_head(head) {
        lemma_scan_stops_at_end(buf.skip(end), 0);
    }
    lemma_find_restrict(message, buf, blank_line(), 0);
    assert(message.take(end) =~= head);
    if chunked_head(head) {
        let body = buf.skip(end);
        let e = chunked_end(body)->0;
        assert(message.skip(end) =~= body.take(e));
        lemma_complete_stream_decodes(body.take(e), 0);
    }
}

} // verus!
