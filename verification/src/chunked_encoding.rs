//! The chunked encoding of a list of chunks, and the round trip: what was
//! encoded is what the decoder gives back, and the boundary scan finds
//! where the encoding ends.

use vstd::prelude::*;
use vstd::string::*;
use crate::chunked::{
    chunk_head, chunked_end, crlf, decode_from, decoded, lemma_crlf, ChunkHead,
};
use crate::chunked_laws::{lemma_scan_finds_end, valid_stream};
use crate::number::{all_digits, digit_value, digits_value, is_digit, number_digits, parse_number};
use crate::space::{space_width, space_width_back, trim, trim_end, trim_start};
use crate::text::{lemma_find_is, lit, occurs_at};

verus! {

/// The hexadecimal digit for a value below 16, in lower case.
pub open spec fn hex_digit(d: nat) -> u8 {
    if d < 10 {
        (0x30 + d) as u8
    } else {
        (0x61 + d - 10) as u8
    }
}

/// The hexadecimal digits of `n`, without leading zeros.
pub open spec fn hex(n: nat) -> Seq<u8>
    decreases n,
{
    if n < 16 {
        seq![hex_digit(n)]
    } else {
        hex(n / 16).push(hex_digit(n % 16))
    }
}

/// The last chunk of every stream, as bytes.
pub open spec fn last_chunk() -> Seq<u8> {
    lit("0\r\n\r\n")
}

/// The chunked encoding of a list of chunks: for each chunk its size in
/// hexadecimal, a line terminator, its data and a line terminator; then
/// the last chunk.
pub open spec fn encoded(chunks: Seq<Seq<u8>>) -> Seq<u8>
    decreases chunks.len(),
{
    if chunks.len() == 0 {
        last_chunk()
    } else {
        hex(chunks[0].len()) + crlf() + chunks[0] + crlf() + encoded(chunks.drop_first())
    }
}

/// The data of a list of chunks, one after the other.
pub open spec fn joined(chunks: Seq<Seq<u8>>) -> Seq<u8>
    decreases chunks.len(),
{
    if chunks.len() == 0 {
        Seq::empty()
    } else {
        chunks[0] + joined(chunks.drop_first())
    }
}

/// No chunk of the list is empty.
pub open spec fn no_empty_chunk(chunks: Seq<Seq<u8>>) -> bool {
    forall|i: int| 0 <= i < chunks.len() ==> (#[trigger] chunks[i]).len() > 0
}

/// The last chunk is the byte `0` and two line terminators.
pub proof fn lemma_last_chunk()
    ensures
        last_chunk() == seq![0x30u8, 13u8, 10u8, 13u8, 10u8],
        last_chunk().len() == 5,
{
    reveal_strlit("0\r\n\r\n");
    let s = "0\r\n\r\n";
    assert(s@.len() == 5);
    assert(is_ascii(s));
    is_ascii_spec_bytes(s);
    assert(s.spec_bytes() =~= seq![0x30u8, 13u8, 10u8, 13u8, 10u8]);
}

/// The hexadecimal digits of a number are digits, and they denote the
/// number.
pub proof fn lemma_hex(n: nat)
    ensures
        hex(n).len() >= 1,
        all_digits(hex(n), 16),
        digits_value(hex(n), 16) == n,
        forall|i: int|
            0 <= i < hex(n).len() ==> (0x30 <= #[trigger] hex(n)[i] <= 0x39) || (0x61 <= hex(n)[i]
                <= 0x66),
    decreases n,
{
    if n < 16 {
        assert(hex(n).drop_last() =~= Seq::<u8>::empty());
        assert(digits_value(hex(n).drop_last(), 16) == 0);
        assert(digit_value(hex_digit(n)) == n);
    } else {
        lemma_hex(n / 16);
        let front = hex(n / 16);
        let all = hex(n);
        assert(all.drop_last() =~= front);
        assert(digit_value(hex_digit(n % 16)) == n % 16);
        assert forall|i: int| 0 <= i < all.len() implies is_digit(#[trigger] all[i], 16) by {
            if i < front.len() {
                assert(all[i] == front[i]);
                assert(is_digit(front[i], 16));
            }
        }
        assert forall|i: int| 0 <= i < all.len() implies (0x30 <= #[trigger] all[i] <= 0x39) || (
        0x61 <= all[i] <= 0x66) by {
            if i < front.len() {
                assert(all[i] == front[i]);
            }
        }
    }
}

/// A size line written with `hex` reads as the number it was written for.
pub proof fn lemma_hex_reads_back(n: nat)
    ensures
        parse_number(trim(hex(n)), 16) == Some(n),
{
    lemma_hex(n);
    let h = hex(n);
    assert(0x30 <= h[0] <= 0x39 || 0x61 <= h[0] <= 0x66);
    assert(space_width(h, 0) == 0);
    assert(trim_start(h) == h);
    let last = h[h.len() - 1];
    assert(0x30 <= last <= 0x39 || 0x61 <= last <= 0x66);
    assert(space_width_back(h) == 0);
    assert(trim_end(h) == h);
    assert(number_digits(h) == h);
}

/// The size line of the last chunk, where it stands after `pre`, reads as
/// zero, and an empty line follows it.
proof fn lemma_last_chunk_at(pre: Seq<u8>, tail: Seq<u8>)
    ensures
        chunk_head(pre + last_chunk() + tail, pre.len() as int) == Some(
            ChunkHead { data: pre.len() as int + 3, size: 0 },
        ),
        occurs_at(pre + last_chunk() + tail, crlf(), pre.len() as int + 3),
{
    lemma_crlf();
    lemma_last_chunk();
    let s = pre + last_chunk() + tail;
    let i = pre.len() as int;
    assert(s.subrange(i, i + 5) =~= last_chunk());
    assert(s.subrange(i + 1, i + 3) =~= crlf());
    assert(s.subrange(i + 3, i + 5) =~= crlf());
    assert(s[i] == 0x30u8);
    assert(!occurs_at(s, crlf(), i)) by {
        if occurs_at(s, crlf(), i) {
            assert(s.subrange(i, i + 2)[0] == 13u8);
        }
    }
    lemma_find_is(s, crlf(), i, i + 1);
    assert(s.subrange(i, i + 1) =~= hex(0));
    lemma_hex_reads_back(0);
}

/// The size line of a chunk that was written with `hex`, where it stands
/// after `pre`, reads as the size of the chunk; the data follows it, and a
/// line terminator follows the data.
proof fn lemma_chunk_at(pre: Seq<u8>, first: Seq<u8>, rest: Seq<u8>)
    ensures
        chunk_head(pre + hex(first.len()) + crlf() + first + crlf() + rest, pre.len() as int)
            == Some(
            ChunkHead { data: (pre.len() + hex(first.len()).len() + 2) as int, size: first.len() },
        ),
        (pre + hex(first.len()) + crlf() + first + crlf() + rest).subrange(
            (pre.len() + hex(first.len()).len() + 2) as int,
            (pre.len() + hex(first.len()).len() + 2 + first.len()) as int,
        ) == first,
        occurs_at(
            pre + hex(first.len()) + crlf() + first + crlf() + rest,
            crlf(),
            (pre.len() + hex(first.len()).len() + 2 + first.len()) as int,
        ),
        (pre + hex(first.len()) + crlf() + first + crlf()).len() == pre.len() + hex(
            first.len(),
        ).len() + 2 + first.len() + 2,
{
    lemma_crlf();
    let n = first.len();
    let h = hex(n);
    lemma_hex(n);
    lemma_hex_reads_back(n);
    let s = pre + h + crlf() + first + crlf() + rest;
    let i = pre.len() as int;
    let k = h.len() as int;
    assert(s.subrange(i, i + k) =~= h);
    assert(s.subrange(i + k, i + k + 2) =~= crlf());
    assert forall|j: int| i <= j < i + k implies !occurs_at(s, crlf(), j) by {
        assert(s[j] == h[j - i]);
        if occurs_at(s, crlf(), j) {
            assert(s.subrange(j, j + 2)[0] == 13u8);
        }
    }
    lemma_find_is(s, crlf(), i, i + k);
    let data = i + k + 2;
    assert(s.subrange(data, data + n) =~= first);
    assert(s.subrange(data + n, data + n + 2) =~= crlf());
}

/// In `pre + encoded(chunks) + tail`, the bytes from the end of `pre` up
/// to the start of `tail` are a valid stream that decodes to the data of
/// the chunks.
proof fn lemma_encoded_at(pre: Seq<u8>, chunks: Seq<Seq<u8>>, tail: Seq<u8>)
    requires
        no_empty_chunk(chunks),
    ensures
        valid_stream(
            pre + encoded(chunks) + tail,
            pre.len() as int,
            (pre.len() + encoded(chunks).len()) as int,
        ),
        decode_from(pre + encoded(chunks) + tail, pre.len() as int) == Some(joined(chunks)),
    decreases chunks.len(),
{
    lemma_last_chunk();
    lemma_crlf();
    let s = pre + encoded(chunks) + tail;
    let i = pre.len() as int;
    if chunks.len() == 0 {
        lemma_last_chunk_at(pre, tail);
    } else {
        let first = chunks[0];
        let rest = chunks.drop_first();
        let h = hex(first.len());
        let after = encoded(rest) + tail;
        lemma_chunk_at(pre, first, after);
        let next_pre = pre + h + crlf() + first + crlf();
        assert(next_pre + after =~= s);
        assert(next_pre + encoded(rest) + tail =~= s);
        assert(encoded(chunks).len() == h.len() + 2 + first.len() + 2 + encoded(rest).len());
        assert forall|j: int| 0 <= j < rest.len() implies (#[trigger] rest[j]).len() > 0 by {
            assert(rest[j] == chunks[j + 1]);
        }
        lemma_encoded_at(next_pre, rest, tail);
        let data = i + h.len() + 2;
        assert(chunk_head(s, i) == Some(ChunkHead { data, size: first.len() }));
        assert(first.len() > 0) by {
            assert(chunks[0].len() > 0);
        }
    }
}

/// Round trip. Encode any list of chunks, none of them empty, and let any
/// bytes follow the encoding: the decoder gives back the data of the
/// chunks, and the boundary scan reports the length of the encoding. Both
/// take the stream to end where the encoding ends.
pub proof fn lemma_round_trip(chunks: Seq<Seq<u8>>, tail: Seq<u8>)
    requires
        no_empty_chunk(chunks),
    ensures
        decoded(encoded(chunks) + tail) == Some(joined(chunks)),
        chunked_end(encoded(chunks) + tail) == Some(encoded(chunks).len() as int),
{
    let pre = Seq::<u8>::empty();
    lemma_encoded_at(pre, chunks, tail);
    assert(pre + encoded(chunks) + tail =~= encoded(chunks) + tail);
    lemma_scan_finds_end(encoded(chunks) + tail, 0, encoded(chunks).len() as int);
}

} // verus!
