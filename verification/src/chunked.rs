//! Chunked transfer coding.
//!
//! A chunk is a size line, `<hex-size> CRLF`, followed by that many bytes
//! of data and a CRLF. A stream of chunks ends with a chunk of size zero:
//! a size line that reads as zero, and the CRLF of an empty line right
//! after it. The size line may carry white space around the number and a
//! `+` before it. Trailer lines are not supported.
//!
//! Two walks over the same format are offered. The boundary scan finds
//! where the stream ends without copying anything and treats whatever it
//! cannot read yet as "not complete". The decoder copies the data out and
//! treats what it cannot read as an error.

use vstd::prelude::*;
use vstd::slice::*;
use vstd::string::*;
use crate::number::{parse_hex, parse_number};
use crate::space::{trim, trimmed};
use crate::text::{bytes_eq, find, find_from, lemma_find_some, lit, occurs_at};

verus! {

/// The line terminator, as bytes.
pub open spec fn crlf() -> Seq<u8> {
    lit("\r\n")
}

/// The line terminator is the two bytes 13, 10.
pub proof fn lemma_crlf()
    ensures
        crlf() == seq![13u8, 10u8],
        crlf().len() == 2,
{
    reveal_strlit("\r\n");
    let s = "\r\n";
    assert(s@.len() == 2);
    assert(is_ascii(s));
    is_ascii_spec_bytes(s);
    assert(s.spec_bytes() =~= seq![13u8, 10u8]);
}

/// What a size line says: the offset at which the chunk's data starts, and
/// the size that the line declares.
pub ghost struct ChunkHead {
    pub data: int,
    pub size: nat,
}

/// The size line that starts at offset `i`. `None` when the line is not
/// terminated or its text is not a hexadecimal number.
pub open spec fn chunk_head(body: Seq<u8>, i: int) -> Option<ChunkHead> {
    match find_from(body, crlf(), i) {
        None => None,
        Some(c) => match parse_number(trim(body.subrange(i, c)), 16) {
            None => None,
            Some(n) => Some(ChunkHead { data: c + 2, size: n }),
        },
    }
}

/// The data of a chunk starts after its size line.
pub proof fn lemma_chunk_head(body: Seq<u8>, i: int)
    requires
        chunk_head(body, i) is Some,
    ensures
        i + 2 <= chunk_head(body, i)->0.data <= body.len(),
{
    lemma_crlf();
    lemma_find_some(body, crlf(), i);
}

/// Where a chunked stream that starts at offset `i` ends: the offset just
/// past the line terminator that follows the first size line that declares
/// size zero. `None` while a size line cannot be read, a chunk's data is
/// not all there, or no line terminator stands right after the last size
/// line.
pub open spec fn chunked_end_from(body: Seq<u8>, i: int) -> Option<int>
    decreases body.len() + 2 - i,
{
    if i < 0 || i >= body.len() {
        None
    } else {
        match chunk_head(body, i) {
            None => None,
            Some(ChunkHead { data, size }) => {
                if size == 0 {
                    if occurs_at(body, crlf(), data) {
                        Some(data + 2)
                    } else {
                        None
                    }
                } else if data + size > body.len() {
                    None
                } else {
                    proof {
                        lemma_chunk_head(body, i);
                    }
                    chunked_end_from(body, data + size + 2)
                }
            },
        }
    }
}

/// Where the chunked stream `body` ends.
pub open spec fn chunked_end(body: Seq<u8>) -> Option<int> {
    chunked_end_from(body, 0)
}

/// The data of the chunks from offset `i` on, up to the first chunk of size
/// zero or the end of `body`. `None` when a size line cannot be read or a
/// chunk declares more data than `body` holds.
pub open spec fn decode_from(body: Seq<u8>, i: int) -> Option<Seq<u8>>
    decreases body.len() + 2 - i,
{
    if i < 0 || i >= body.len() {
        Some(Seq::empty())
    } else {
        match chunk_head(body, i) {
            None => None,
            Some(ChunkHead { data, size }) => {
                if size == 0 {
                    Some(Seq::empty())
                } else if data + size > body.len() {
                    None
                } else {
                    proof {
                        lemma_chunk_head(body, i);
                    }
                    match decode_from(body, data + size + 2) {
                        Some(rest) => Some(body.subrange(data, data + size) + rest),
                        None => None,
                    }
                }
            },
        }
    }
}

/// The data that the chunked stream `body` carries.
pub open spec fn decoded(body: Seq<u8>) -> Option<Seq<u8>> {
    decode_from(body, 0)
}

/// Reads the size line at offset `i`. Returns the offset of the chunk's
/// data and the declared size.
fn read_chunk_head(body: &[u8], i: usize) -> (r: Option<(usize, usize)>)
    requires
        i <= body.len(),
    ensures
        match r {
            Some((data, size)) => chunk_head(body@, i as int) == Some(
                ChunkHead { data: data as int, size: size as nat },
            ) && i + 2 <= data <= body.len(),
            None => match chunk_head(body@, i as int) {
                None => true,
                Some(head) => head.size > usize::MAX,
            },
        },
{
    let eol = "\r\n".as_bytes();
    match find(body, eol, i) {
        None => None,
        Some(c) => {
            proof {
                lemma_crlf();
                lemma_find_some(body@, crlf(), i as int);
            }
            let token = trimmed(slice_subrange(body, i, c));
            match parse_hex(token) {
                None => None,
                Some(size) => Some((c + 2, size)),
            }
        },
    }
}

/// Boundary scan: walks the chunks of `body` without copying and returns
/// the offset just past the trailing line terminator of the terminating
/// chunk, or `None` while the stream is not complete.
pub fn find_chunked_body_end(body: &[u8]) -> (r: Option<usize>)
    ensures
        match r {
            Some(e) => chunked_end(body@) == Some(e as int) && e <= body.len(),
            None => chunked_end(body@) is None,
        },
{
    let n: usize = body.len();
    let mut i: usize = 0;
    while i < n
        invariant
            n == body.len(),
            chunked_end(body@) == chunked_end_from(body@, i as int),
        decreases n - i,
    {
        match read_chunk_head(body, i) {
            None => {
                proof {
                    if chunk_head(body@, i as int) is Some {
                        lemma_chunk_head(body@, i as int);
                    }
                }
                return None;
            },
            Some((data, size)) => {
                if size == 0 {
                    proof {
                        lemma_crlf();
                    }
                    if n - data < 2 {
                        return None;
                    }
                    let after = slice_subrange(body, data, data + 2);
                    if bytes_eq(after, "\r\n".as_bytes()) {
                        return Some(data + 2);
                    }
                    return None;
                }
                if size > n - data {
                    return None;
                }
                if n - data - size <= 2 {
                    assert(chunked_end_from(body@, data + size + 2) is None);
                    return None;
                }
                i = data + size + 2;
            },
        }
    }
    None
}

/// Decodes a chunked body: the data of its chunks, in order, up to the
/// first chunk of size zero or the end of `body`. Fails when a size line is
/// not terminated, is not a hexadecimal number, or declares more data than
/// `body` holds.
pub fn decode_chunked_body(body: &[u8]) -> (r: Result<Vec<u8>, ()>)
    ensures
        match decoded(body@) {
            Some(data) => r is Ok && r->Ok_0@ == data,
            None => r is Err,
        },
{
    let n: usize = body.len();
    let mut out: Vec<u8> = Vec::new();
    let mut i: usize = 0;
    while i < n
        invariant
            n == body.len(),
            decoded(body@) == match decode_from(body@, i as int) {
                Some(rest) => Some(out@ + rest),
                None => None,
            },
        decreases n - i,
    {
        match read_chunk_head(body, i) {
            None => {
                proof {
                    if chunk_head(body@, i as int) is Some {
                        lemma_chunk_head(body@, i as int);
                    }
                }
                return Err(());
            },
            Some((data, size)) => {
                if size == 0 {
                    assert(out@ + Seq::<u8>::empty() =~= out@);
                    return Ok(out);
                }
                if size > n - data {
                    return Err(());
                }
                let ghost before = out@;
                let chunk = slice_subrange(body, data, data + size);
                out.extend_from_slice(chunk);
                proof {
                    let next = data + size + 2;
                    match decode_from(body@, next) {
                        Some(rest) => {
                            assert(before + (chunk@ + rest) =~= out@ + rest);
                        },
                        None => {},
                    }
                }
                if n - data - size <= 2 {
                    assert(out@ + Seq::<u8>::empty() =~= out@);
                    return Ok(out);
                }
                i = data + size + 2;
            },
        }
    }
    assert(out@ + Seq::<u8>::empty() =~= out@);
    Ok(out)
}

/// A stream whose end the boundary scan finds is one that the decoder
/// accepts.
pub proof fn lemma_complete_stream_decodes(body: Seq<u8>, i: int)
    requires
        chunked_end_from(body, i) is Some,
    ensures
        decode_from(body, i) is Some,
    decreases body.len() + 2 - i,
{
    let head = chunk_head(body, i)->0;
    if head.size != 0 {
        lemma_chunk_head(body, i);
        lemma_complete_stream_decodes(body, head.data + head.size + 2);
    }
}

} // verus!
