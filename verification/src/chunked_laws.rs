//! What holds of the two walks over a chunked stream: how they behave when
//! more bytes arrive, and that they agree on a valid stream.

use vstd::prelude::*;
use crate::chunked::{
    chunk_head, chunked_end, chunked_end_from, crlf, decode_from, decoded, lemma_chunk_head,
    lemma_crlf, ChunkHead,
};
use crate::text::{
    find_from, lemma_find_extend, lemma_find_restrict, lemma_find_some, occurs_at,
};

verus! {

/// A size line that can be read stays the same when more bytes arrive.
pub proof fn lemma_chunk_head_extends(short: Seq<u8>, long: Seq<u8>, i: int)
    requires
        short.is_prefix_of(long),
        0 <= i,
        chunk_head(short, i) is Some,
    ensures
        chunk_head(long, i) == chunk_head(short, i),
{
    lemma_crlf();
    lemma_find_some(short, crlf(), i);
    lemma_find_extend(short, long, crlf(), i);
    let c = find_from(short, crlf(), i)->0;
    assert(long.subrange(i, c) =~= short.subrange(i, c));
}

/// A size line that ends inside a prefix reads the same in the prefix.
pub proof fn lemma_chunk_head_restricts(short: Seq<u8>, long: Seq<u8>, i: int)
    requires
        short.is_prefix_of(long),
        0 <= i,
        chunk_head(long, i) is Some,
        chunk_head(long, i)->0.data <= short.len(),
    ensures
        chunk_head(short, i) == chunk_head(long, i),
{
    lemma_crlf();
    lemma_find_some(long, crlf(), i);
    lemma_find_restrict(short, long, crlf(), i);
    let c = find_from(long, crlf(), i)->0;
    assert(long.subrange(i, c) =~= short.subrange(i, c));
}

/// Once the boundary scan has found the end of a stream, it finds the same
/// end however many bytes follow.
pub proof fn lemma_scan_is_stable(short: Seq<u8>, long: Seq<u8>, i: int)
    requires
        short.is_prefix_of(long),
        0 <= i,
        chunked_end_from(short, i) is Some,
    ensures
        chunked_end_from(long, i) == chunked_end_from(short, i),
    decreases short.len() + 2 - i,
{
    lemma_crlf();
    lemma_chunk_head(short, i);
    lemma_chunk_head_extends(short, long, i);
    let head = chunk_head(short, i)->0;
    if head.size != 0 {
        lemma_scan_is_stable(short, long, head.data + head.size + 2);
    } else {
        assert(long.subrange(head.data, head.data + 2) =~= short.subrange(
            head.data,
            head.data + 2,
        ));
    }
}

/// The end that the boundary scan reports lies within the bytes, and the
/// scan reports the same end on the bytes up to it alone: nothing after
/// the end of the stream is read.
pub proof fn lemma_scan_stops_at_end(body: Seq<u8>, i: int)
    requires
        0 <= i,
        chunked_end_from(body, i) is Some,
    ensures
        i + 4 <= chunked_end_from(body, i)->0 <= body.len(),
        chunked_end_from(body.take(chunked_end_from(body, i)->0), i) == chunked_end_from(body, i),
    decreases body.len() + 2 - i,
{
    lemma_crlf();
    lemma_chunk_head(body, i);
    let head = chunk_head(body, i)->0;
    let end = chunked_end_from(body, i)->0;
    if head.size == 0 {
        let short = body.take(end);
        lemma_chunk_head_restricts(short, body, i);
        assert(short.subrange(head.data, head.data + 2) =~= body.subrange(
            head.data,
            head.data + 2,
        ));
    } else {
        let next = head.data + head.size + 2;
        lemma_scan_stops_at_end(body, next);
        let short = body.take(end);
        lemma_chunk_head_restricts(short, body, i);
    }
}

/// The boundary scan never reports an end too early: on a part of a
/// stream it reports nothing, or the end that it reports on the whole.
pub proof fn lemma_scan_never_early(short: Seq<u8>, long: Seq<u8>, i: int)
    requires
        short.is_prefix_of(long),
        0 <= i,
        chunked_end_from(long, i) is Some,
    ensures
        chunked_end_from(short, i) is None || chunked_end_from(short, i) == chunked_end_from(
            long,
            i,
        ),
{
    if chunked_end_from(short, i) is Some {
        lemma_scan_is_stable(short, long, i);
    }
}

/// The bytes of `body` from offset `i` up to `end` are a valid chunked
/// stream: chunks, each with a size line that reads as a positive number,
/// that many bytes of data and a line terminator, and then the last chunk,
/// which is a size line that reads as zero and an empty line.
pub open spec fn valid_stream(body: Seq<u8>, i: int, end: int) -> bool
    decreases body.len() + 2 - i,
{
    if i < 0 || i >= body.len() {
        false
    } else {
        match chunk_head(body, i) {
            None => false,
            Some(ChunkHead { data, size }) => {
                if size == 0 {
                    occurs_at(body, crlf(), data) && end == data + 2
                } else if data + size + 2 > body.len() {
                    false
                } else {
                    proof {
                        lemma_chunk_head(body, i);
                    }
                    occurs_at(body, crlf(), data + size) && valid_stream(
                        body,
                        data + size + 2,
                        end,
                    )
                }
            },
        }
    }
}

/// A valid stream ends after it starts, within the bytes.
pub proof fn lemma_valid_stream_bounds(body: Seq<u8>, i: int, end: int)
    requires
        valid_stream(body, i, end),
    ensures
        i + 4 <= end <= body.len(),
    decreases body.len() + 2 - i,
{
    lemma_crlf();
    lemma_chunk_head(body, i);
    let head = chunk_head(body, i)->0;
    if head.size != 0 {
        lemma_valid_stream_bounds(body, head.data + head.size + 2, end);
    }
}

/// On a valid stream the boundary scan reports the end of the stream.
pub proof fn lemma_scan_finds_end(body: Seq<u8>, i: int, end: int)
    requires
        valid_stream(body, i, end),
    ensures
        chunked_end_from(body, i) == Some(end),
    decreases body.len() + 2 - i,
{
    lemma_chunk_head(body, i);
    let head = chunk_head(body, i)->0;
    if head.size != 0 {
        lemma_scan_finds_end(body, head.data + head.size + 2, end);
    }
}

/// On a valid stream the decoder succeeds, and what it gives depends on
/// the bytes of the stream alone: nothing after the end of the stream is
/// read.
pub proof fn lemma_decode_stops_at_end(body: Seq<u8>, i: int, end: int)
    requires
        valid_stream(body, i, end),
    ensures
        decode_from(body, i) is Some,
        decode_from(body.take(end), i) == decode_from(body, i),
    decreases body.len() + 2 - i,
{
    lemma_crlf();
    lemma_valid_stream_bounds(body, i, end);
    lemma_chunk_head(body, i);
    let head = chunk_head(body, i)->0;
    let short = body.take(end);
    if head.size == 0 {
        lemma_chunk_head_restricts(short, body, i);
    } else {
        let next = head.data + head.size + 2;
        lemma_valid_stream_bounds(body, next, end);
        lemma_chunk_head_restricts(short, body, i);
        lemma_decode_stops_at_end(body, next, end);
        assert(short.subrange(head.data, head.data + head.size) =~= body.subrange(
            head.data,
            head.data + head.size,
        ));
    }
}

/// The decoder and the boundary scan agree on a valid stream. When the
/// first `end` bytes of `body` are a valid chunked stream, the scan
/// reports `end`, on `body` and on those bytes alone, and the decoder
/// succeeds and gives the same data on `body` as on those bytes alone. So
/// both take the stream to be the first `end` bytes, whatever follows.
pub proof fn lemma_decode_and_scan_agree(body: Seq<u8>, end: int)
    requires
        valid_stream(body, 0, end),
    ensures
        0 <= end <= body.len(),
        chunked_end(body) == Some(end),
        chunked_end(body.take(end)) == Some(end),
        decoded(body) is Some,
        decoded(body.take(end)) == decoded(body),
{
    lemma_valid_stream_bounds(body, 0, end);
    lemma_scan_finds_end(body, 0, end);
    lemma_decode_stops_at_end(body, 0, end);
    lemma_valid_stream_restricts(body, 0, end);
    lemma_scan_finds_end(body.take(end), 0, end);
}

/// A valid stream is one without the bytes that follow it.
pub proof fn lemma_valid_stream_restricts(body: Seq<u8>, i: int, end: int)
    requires
        valid_stream(body, i, end),
    ensures
        valid_stream(body.take(end), i, end),
    decreases body.len() + 2 - i,
{
    lemma_crlf();
    lemma_valid_stream_bounds(body, i, end);
    lemma_chunk_head(body, i);
    let head = chunk_head(body, i)->0;
    let short = body.take(end);
    if head.size == 0 {
        lemma_chunk_head_restricts(short, body, i);
        assert(short.subrange(head.data, head.data + 2) =~= body.subrange(
            head.data,
            head.data + 2,
        ));
    } else {
        let next = head.data + head.size + 2;
        lemma_valid_stream_bounds(body, next, end);
        lemma_chunk_head_restricts(short, body, i);
        lemma_valid_stream_restricts(body, next, end);
        assert(short.subrange(head.data + head.size, next) =~= body.subrange(
            head.data + head.size,
            next,
        ));
    }
}

} // verus!
