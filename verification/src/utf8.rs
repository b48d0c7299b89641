//! Conversion between bytes and `String`, and the facts about UTF-8 that
//! let a parser cut valid text at ASCII delimiters and white space.

use vstd::prelude::*;
use vstd::slice::*;
use vstd::utf8::*;
use crate::space::{skip_spaces, skip_word, space_width};
use crate::text::text_bytes;

verus! {

/// Offset `p` of `bytes` is the start of a character or the end of the
/// text: the byte there, if any, is no continuation byte.
pub open spec fn char_start(bytes: Seq<u8>, p: int) -> bool {
    0 <= p <= bytes.len() && (p < bytes.len() ==> !is_continuation_byte(bytes[p]))
}

/// In valid UTF-8, `char_start` is the character-boundary relation.
pub proof fn lemma_char_start_is_boundary(bytes: Seq<u8>, p: int)
    requires
        valid_utf8(bytes),
        0 <= p <= bytes.len(),
    ensures
        char_start(bytes, p) <==> is_char_boundary(bytes, p),
{
    if p == bytes.len() {
        is_char_boundary_start_end_of_seq(bytes);
    } else {
        is_char_boundary_iff_not_is_continuation_byte(bytes, p);
    }
}

/// The offset just after the character that starts at a boundary is a
/// boundary again.
proof fn lemma_boundary_after(bytes: Seq<u8>, p: int)
    requires
        valid_utf8(bytes),
        0 <= p < bytes.len(),
        is_char_boundary(bytes, p),
    ensures
        p + length_of_first_scalar(bytes.subrange(p, bytes.len() as int)) <= bytes.len(),
        is_char_boundary(
            bytes,
            p + length_of_first_scalar(bytes.subrange(p, bytes.len() as int)),
        ),
    decreases bytes.len(),
{
    let first = length_of_first_scalar(bytes);
    let rest = pop_first_scalar(bytes);
    if p == 0 {
        assert(bytes.subrange(0, bytes.len() as int) =~= bytes);
        assert(is_char_boundary(rest, 0));
    } else {
        assert(is_char_boundary(rest, p - first));
        assert(0 <= p - first < rest.len()) by {
            if p - first != 0 {
                assert(!(p - first < 0 || rest.len() < p - first));
                if p - first == rest.len() {
                    assert(p == bytes.len());
                }
            }
        }
        lemma_boundary_after(rest, p - first);
        assert(rest.subrange(p - first, rest.len() as int) =~= bytes.subrange(
            p,
            bytes.len() as int,
        ));
    }
}

/// A piece of valid UTF-8 cut at two character starts is valid UTF-8.
pub proof fn lemma_valid_piece(bytes: Seq<u8>, a: int, b: int)
    requires
        valid_utf8(bytes),
        a <= b,
        char_start(bytes, a),
        char_start(bytes, b),
    ensures
        valid_utf8(bytes.subrange(a, b)),
{
    lemma_char_start_is_boundary(bytes, a);
    valid_utf8_split(bytes, a);
    let tail = bytes.subrange(a, bytes.len() as int);
    assert(char_start(tail, b - a));
    lemma_char_start_is_boundary(tail, b - a);
    valid_utf8_split(tail, b - a);
    assert(tail.subrange(0, b - a) =~= bytes.subrange(a, b));
}

/// In valid UTF-8 a character starts right after every ASCII byte.
pub proof fn lemma_char_start_after_ascii(bytes: Seq<u8>, p: int)
    requires
        valid_utf8(bytes),
        0 <= p < bytes.len(),
        bytes[p] < 0x80,
    ensures
        char_start(bytes, p + 1),
{
    lemma_char_start_is_boundary(bytes, p);
    lemma_boundary_after(bytes, p);
    lemma_char_start_is_boundary(bytes, p + 1);
}

/// In valid UTF-8 a character starts right after every white-space
/// character.
pub proof fn lemma_char_start_after_space(bytes: Seq<u8>, p: int)
    requires
        valid_utf8(bytes),
        space_width(bytes, p) > 0,
    ensures
        char_start(bytes, p + space_width(bytes, p)),
{
    lemma_char_start_is_boundary(bytes, p);
    lemma_boundary_after(bytes, p);
    lemma_char_start_is_boundary(bytes, p + space_width(bytes, p));
}

/// Skipping white space from a character start ends at a character start.
pub proof fn lemma_skip_spaces_start(s: Seq<u8>, i: int)
    requires
        valid_utf8(s),
        char_start(s, i),
    ensures
        i <= skip_spaces(s, i) <= s.len(),
        char_start(s, skip_spaces(s, i)),
    decreases s.len() - i,
{
    if space_width(s, i) > 0 {
        lemma_char_start_after_space(s, i);
        lemma_skip_spaces_start(s, i + space_width(s, i));
    }
}

/// A word ends at the end of the text or where white space starts, and so
/// at a character start.
pub proof fn lemma_skip_word_start(s: Seq<u8>, i: int)
    requires
        0 <= i <= s.len(),
    ensures
        i <= skip_word(s, i) <= s.len(),
        char_start(s, skip_word(s, i)),
    decreases s.len() - i,
{
    if i < s.len() && space_width(s, i) == 0 {
        lemma_skip_word_start(s, i + 1);
    }
}

/// The text of `s`, as UTF-8 bytes.
pub fn string_bytes(s: &String) -> (r: &[u8])
    ensures
        r@ == text_bytes(s@),
{
    s.as_str().as_bytes()
}

/// `String::from_utf8` of the standard library. This is believed of it, not
/// proved: it succeeds exactly on the byte strings that are valid UTF-8, as
/// `vstd::utf8::valid_utf8` defines it, and the text it gives holds exactly
/// the bytes that were given.
#[verifier::external_body]
pub(crate) fn string_from_utf8(bytes: Vec<u8>) -> (r: Option<String>)
    ensures
        r is Some <==> valid_utf8(bytes@),
        r matches Some(s) ==> text_bytes(s@) == bytes@,
{
    String::from_utf8(bytes).ok()
}

/// `std::str::from_utf8` of the standard library, asked only whether it
/// succeeds. This is believed of it, not proved: it succeeds exactly on the
/// byte strings that are valid UTF-8, as `vstd::utf8::valid_utf8` defines
/// it.
#[verifier::external_body]
pub(crate) fn is_utf8(bytes: &[u8]) -> (r: bool)
    ensures
        r == valid_utf8(bytes@),
{
    std::str::from_utf8(bytes).is_ok()
}

/// The text between offsets `a` and `b` of valid UTF-8, both of which are
/// character starts.
pub(crate) fn text_piece(bytes: &[u8], a: usize, b: usize) -> (r: String)
    requires
        valid_utf8(bytes@),
        a <= b <= bytes.len(),
        char_start(bytes@, a as int),
        char_start(bytes@, b as int),
    ensures
        text_bytes(r@) == bytes@.subrange(a as int, b as int),
{
    proof {
        lemma_valid_piece(bytes@, a as int, b as int);
    }
    match string_from_utf8(slice_to_vec(slice_subrange(bytes, a, b))) {
        Some(s) => s,
        None => String::new(),
    }
}

/// The text made of three valid pieces, one after the other.
pub(crate) fn joined_text(a: &[u8], b: &[u8], c: &[u8]) -> (r: String)
    requires
        valid_utf8(a@),
        valid_utf8(b@),
        valid_utf8(c@),
    ensures
        text_bytes(r@) == a@ + b@ + c@,
{
    let mut bytes: Vec<u8> = Vec::new();
    bytes.extend_from_slice(a);
    bytes.extend_from_slice(b);
    bytes.extend_from_slice(c);
    proof {
        valid_utf8_concat(a@, b@);
        valid_utf8_concat(a@ + b@, c@);
        assert(bytes@ =~= a@ + b@ + c@);
    }
    match string_from_utf8(bytes) {
        Some(s) => s,
        None => String::new(),
    }
}

/// The bytes of a text are valid UTF-8.
pub proof fn lemma_text_is_valid(chars: Seq<char>)
    ensures
        valid_utf8(text_bytes(chars)),
{
    encode_utf8_valid_utf8(chars);
}

} // verus!
