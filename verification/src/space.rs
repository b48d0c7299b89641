//! Unicode white space, recognised directly on UTF-8 bytes.
//!
//! The white-space characters are U+0009..U+000D, U+0020, U+0085, U+00A0,
//! U+1680, U+2000..U+200A, U+2028, U+2029, U+202F, U+205F and U+3000. Each
//! of their encodings starts with a leading byte, so a match can never begin
//! inside another character.

use vstd::prelude::*;
use vstd::slice::*;

verus! {

/// `b` is one of the single-byte white-space characters.
pub open spec fn is_ascii_space(b: u8) -> bool {
    (0x09 <= b <= 0x0d) || b == 0x20
}

/// `a b` encodes U+0085 or U+00A0.
pub open spec fn is_space2(a: u8, b: u8) -> bool {
    a == 0xc2 && (b == 0x85 || b == 0xa0)
}

/// `a b c` encodes one of the three-byte white-space characters.
pub open spec fn is_space3(a: u8, b: u8, c: u8) -> bool {
    ||| (a == 0xe1 && b == 0x9a && c == 0x80)
    ||| (a == 0xe2 && b == 0x80 && ((0x80 <= c <= 0x8a) || c == 0xa8 || c == 0xa9 || c == 0xaf))
    ||| (a == 0xe2 && b == 0x81 && c == 0x9f)
    ||| (a == 0xe3 && b == 0x80 && c == 0x80)
}

/// Length in bytes of the white-space character encoded at offset `i` of
/// `s`, or 0 when none starts there.
pub open spec fn space_width(s: Seq<u8>, i: int) -> int {
    if i < 0 || i >= s.len() {
        0
    } else if is_ascii_space(s[i]) {
        1
    } else if i + 1 < s.len() && is_space2(s[i], s[i + 1]) {
        2
    } else if i + 2 < s.len() && is_space3(s[i], s[i + 1], s[i + 2]) {
        3
    } else {
        0
    }
}

/// Length in bytes of the white-space character whose encoding ends `s`, or
/// 0 when `s` does not end in one.
pub open spec fn space_width_back(s: Seq<u8>) -> int {
    let n = s.len() as int;
    if n >= 1 && is_ascii_space(s[n - 1]) {
        1
    } else if n >= 2 && is_space2(s[n - 2], s[n - 1]) {
        2
    } else if n >= 3 && is_space3(s[n - 3], s[n - 2], s[n - 1]) {
        3
    } else {
        0
    }
}

/// `s` without its leading white space.
pub open spec fn trim_start(s: Seq<u8>) -> Seq<u8>
    decreases s.len(),
{
    let w = space_width(s, 0);
    if w > 0 {
        trim_start(s.skip(w))
    } else {
        s
    }
}

/// `s` without its trailing white space.
pub open spec fn trim_end(s: Seq<u8>) -> Seq<u8>
    decreases s.len(),
{
    let w = space_width_back(s);
    if w > 0 {
        trim_end(s.take(s.len() - w))
    } else {
        s
    }
}

/// `s` without leading and trailing white space.
pub open spec fn trim(s: Seq<u8>) -> Seq<u8> {
    trim_end(trim_start(s))
}

/// Offset of the first byte at or after `i` at which no white space starts.
pub open spec fn skip_spaces(s: Seq<u8>, i: int) -> int
    decreases s.len() - i,
{
    let w = space_width(s, i);
    if w > 0 {
        skip_spaces(s, i + w)
    } else {
        i
    }
}

/// Offset of the first byte at or after `i` at which white space starts, or
/// the length of `s` when there is none.
pub open spec fn skip_word(s: Seq<u8>, i: int) -> int
    decreases s.len() - i,
{
    if i < 0 || i >= s.len() || space_width(s, i) > 0 {
        i
    } else {
        skip_word(s, i + 1)
    }
}

/// Length of the white-space character encoded at offset `i`, or 0.
pub fn space_at(s: &[u8], i: usize) -> (w: usize)
    ensures
        w == space_width(s@, i as int),
        w <= 3,
        i + w <= s.len() || w == 0,
{
    let n: usize = s.len();
    if i >= n {
        return 0;
    }
    let a: u8 = s[i];
    if (a >= 0x09 && a <= 0x0d) || a == 0x20 {
        return 1;
    }
    if n - i >= 2 {
        let b: u8 = s[i + 1];
        if a == 0xc2 && (b == 0x85 || b == 0xa0) {
            return 2;
        }
        if n - i >= 3 {
            let c: u8 = s[i + 2];
            if (a == 0xe1 && b == 0x9a && c == 0x80) || (a == 0xe2 && b == 0x80 && ((c >= 0x80
                && c <= 0x8a) || c == 0xa8 || c == 0xa9 || c == 0xaf)) || (a == 0xe2 && b == 0x81
                && c == 0x9f) || (a == 0xe3 && b == 0x80 && c == 0x80) {
                return 3;
            }
        }
    }
    0
}

/// Length of the white-space character whose encoding ends at offset `end`
/// of `s`, or 0.
fn space_before(s: &[u8], end: usize) -> (w: usize)
    requires
        end <= s.len(),
    ensures
        w == space_width_back(s@.take(end as int)),
        w <= end,
{
    if end >= 1 {
        let c: u8 = s[end - 1];
        if (c >= 0x09 && c <= 0x0d) || c == 0x20 {
            return 1;
        }
        if end >= 2 {
            let b: u8 = s[end - 2];
            if b == 0xc2 && (c == 0x85 || c == 0xa0) {
                return 2;
            }
            if end >= 3 {
                let a: u8 = s[end - 3];
                if (a == 0xe1 && b == 0x9a && c == 0x80) || (a == 0xe2 && b == 0x80 && ((c
                    >= 0x80 && c <= 0x8a) || c == 0xa8 || c == 0xa9 || c == 0xaf)) || (a == 0xe2
                    && b == 0x81 && c == 0x9f) || (a == 0xe3 && b == 0x80 && c == 0x80) {
                    return 3;
                }
            }
        }
    }
    0
}

/// White space at offset `i` of `s` is white space at offset 0 of what
/// follows `i`.
pub proof fn lemma_space_width_skip(s: Seq<u8>, i: int)
    requires
        0 <= i <= s.len(),
    ensures
        space_width(s.skip(i), 0) == space_width(s, i),
{
}

/// Finds where `s` without leading and trailing white space starts and
/// ends. The start is where skipping white space from the front stops; the
/// end is the end of `s` or the start of a white-space character.
pub fn trim_bounds(s: &[u8]) -> (r: (usize, usize))
    ensures
        r.0 <= r.1 <= s.len(),
        s@.subrange(r.0 as int, r.1 as int) == trim(s@),
        r.0 == skip_spaces(s@, 0),
        r.1 == s.len() || space_width(s@, r.1 as int) > 0,
{
    let n: usize = s.len();
    let mut a: usize = 0;
    assert(s@.skip(0) =~= s@);
    loop
        invariant
            a <= n,
            n == s.len(),
            trim_start(s@) == trim_start(s@.skip(a as int)),
            skip_spaces(s@, 0) == skip_spaces(s@, a as int),
        ensures
            a <= n,
            trim_start(s@) == s@.skip(a as int),
            skip_spaces(s@, 0) == a,
        decreases n - a,
    {
        let w: usize = space_at(s, a);
        proof {
            lemma_space_width_skip(s@, a as int);
        }
        if w == 0 {
            break ;
        }
        proof {
            assert(s@.skip(a as int).skip(w as int) =~= s@.skip(a + w));
        }
        a = a + w;
    }
    let mut b: usize = n;
    assert(s@.skip(a as int) =~= s@.subrange(a as int, b as int));
    loop
        invariant
            a <= b <= n,
            n == s.len(),
            skip_spaces(s@, 0) == a,
            trim(s@) == trim_end(s@.subrange(a as int, b as int)),
            b == n || space_width(s@, b as int) > 0,
        decreases b,
    {
        let rest = slice_subrange(s, a, b);
        let w: usize = space_before(rest, b - a);
        proof {
            assert(rest@.take((b - a) as int) =~= rest@);
        }
        if w == 0 {
            return (a, b);
        }
        proof {
            assert(rest@.take(rest@.len() - w) =~= s@.subrange(a as int, b - w));
            assert(rest@[b - a - w] == s@[b - w]);
            if w >= 2 {
                assert(rest@[b - a - w + 1] == s@[b - w + 1]);
            }
            if w >= 3 {
                assert(rest@[b - a - w + 2] == s@[b - w + 2]);
            }
        }
        b = b - w;
    }
}

/// Returns `s` without leading and trailing white space.
pub fn trimmed<'a>(s: &'a [u8]) -> (r: &'a [u8])
    ensures
        r@ == trim(s@),
{
    let (a, b) = trim_bounds(s);
    slice_subrange(s, a, b)
}

} // verus!
