//! Unsigned numbers as ASCII text: parsing in radix 10 and 16, and decimal
//! printing.

use vstd::prelude::*;
use vstd::slice::*;

verus! {

/// `b` is an ASCII digit of radix 10 or 16. Hexadecimal letters count in
/// either letter case.
pub open spec fn is_digit(b: u8, radix: nat) -> bool {
    ||| 0x30 <= b <= 0x39
    ||| (radix == 16 && 0x41 <= b <= 0x46)
    ||| (radix == 16 && 0x61 <= b <= 0x66)
}

/// Value of the ASCII digit `b`.
pub open spec fn digit_value(b: u8) -> nat {
    if 0x30 <= b <= 0x39 {
        (b - 0x30) as nat
    } else if 0x41 <= b <= 0x46 {
        (b - 0x41 + 10) as nat
    } else if 0x61 <= b <= 0x66 {
        (b - 0x61 + 10) as nat
    } else {
        0
    }
}

/// Every byte of `s` is a digit of the radix.
pub open spec fn all_digits(s: Seq<u8>, radix: nat) -> bool {
    forall|i: int| 0 <= i < s.len() ==> is_digit(#[trigger] s[i], radix)
}

/// The number that the digit string `s` denotes, most significant digit
/// first.
pub open spec fn digits_value(s: Seq<u8>, radix: nat) -> nat
    decreases s.len(),
{
    if s.len() == 0 {
        0
    } else {
        digits_value(s.drop_last(), radix) * radix + digit_value(s.last())
    }
}

/// The digits of a number token: the token without one leading `+`.
pub open spec fn number_digits(s: Seq<u8>) -> Seq<u8> {
    if s.len() > 0 && s[0] == 0x2b {
        s.skip(1)
    } else {
        s
    }
}

/// The number that the token `s` denotes: an optional `+` followed by one
/// or more digits of the radix. `None` for any other text.
pub open spec fn parse_number(s: Seq<u8>, radix: nat) -> Option<nat> {
    let d = number_digits(s);
    if d.len() > 0 && all_digits(d, radix) {
        Some(digits_value(d, radix))
    } else {
        None
    }
}

/// The number in `s` if it fits a `usize`.
pub open spec fn parse_usize(s: Seq<u8>, radix: nat) -> Option<usize> {
    match parse_number(s, radix) {
        Some(n) => if n <= usize::MAX {
            Some(n as usize)
        } else {
            None
        },
        None => None,
    }
}

/// A digit string denotes a number that is no smaller than any of its
/// prefixes denotes.
pub proof fn lemma_digits_monotone(s: Seq<u8>, k: int, radix: nat)
    requires
        radix >= 1,
        0 <= k <= s.len(),
    ensures
        digits_value(s.take(k), radix) <= digits_value(s, radix),
    decreases s.len(),
{
    if k == s.len() {
        assert(s.take(k) =~= s);
    } else {
        lemma_digits_monotone(s.drop_last(), k, radix);
        assert(s.drop_last().take(k) =~= s.take(k));
        assert(digits_value(s.drop_last(), radix) * radix >= digits_value(s.drop_last(), radix))
            by (nonlinear_arith)
            requires
                radix >= 1,
        ;
    }
}

/// Value of the digit `b`, or `None` when it is no digit of the radix.
fn digit(b: u8, hex: bool) -> (r: Option<usize>)
    ensures
        match r {
            Some(d) => is_digit(b, if hex { 16 } else { 10 }) && d == digit_value(b) && d < 16,
            None => !is_digit(b, if hex { 16 } else { 10 }),
        },
{
    if b >= 0x30 && b <= 0x39 {
        Some((b - 0x30) as usize)
    } else if hex && b >= 0x41 && b <= 0x46 {
        Some((b - 0x41 + 10) as usize)
    } else if hex && b >= 0x61 && b <= 0x66 {
        Some((b - 0x61 + 10) as usize)
    } else {
        None
    }
}

/// Parses an optional `+` and the digits after it, in radix 16 when `hex`
/// and in radix 10 otherwise. A number that does not fit a `usize` is `None`.
fn parse_radix(s: &[u8], hex: bool) -> (r: Option<usize>)
    ensures
        r == parse_usize(s@, if hex { 16 } else { 10 }),
{
    let ghost radix: nat = if hex { 16 } else { 10 };
    let base: usize = if hex { 16 } else { 10 };
    let n: usize = s.len();
    let start: usize = if n > 0 && s[0] == 0x2b { 1 } else { 0 };
    let ghost d = number_digits(s@);
    assert(d =~= s@.skip(start as int));
    if start == n {
        return None;
    }
    let mut acc: usize = 0;
    let mut i: usize = start;
    assert(d.take(0) =~= Seq::<u8>::empty());
    while i < n
        invariant
            start <= i <= n,
            n == s.len(),
            radix == (if hex { 16nat } else { 10nat }),
            base == radix,
            d == s@.skip(start as int),
            d == number_digits(s@),
            all_digits(d.take(i - start), radix),
            acc == digits_value(d.take(i - start), radix),
        decreases n - i,
    {
        let ghost next = d.take(i - start + 1);
        proof {
            assert(next.drop_last() =~= d.take(i - start));
            assert(next.last() == s[i as int]);
        }
        match digit(s[i], hex) {
            None => {
                assert(!all_digits(d, radix)) by {
                    assert(d[i - start] == s[i as int]);
                }
                return None;
            },
            Some(v) => {
                assert(all_digits(next, radix)) by {
                    assert forall|k: int| 0 <= k < next.len() implies is_digit(
                        #[trigger] next[k],
                        radix,
                    ) by {
                        if k < i - start {
                            assert(next[k] == d.take(i - start)[k]);
                        }
                    }
                }
                let shifted: Option<usize> = acc.checked_mul(base);
                let total: Option<usize> = match shifted {
                    Some(m) => m.checked_add(v),
                    None => None,
                };
                match total {
                    Some(t) => {
                        acc = t;
                    },
                    None => {
                        proof {
                            assert(digits_value(next, radix) > usize::MAX);
                            lemma_digits_monotone(d, i - start + 1, radix);
                        }
                        return None;
                    },
                }
            },
        }
        i += 1;
    }
    assert(d.take(n - start) =~= d);
    Some(acc)
}

/// Parses a hexadecimal number: an optional `+`, then one or more digits
/// `0-9`, `a-f` or `A-F`.
pub fn parse_hex(s: &[u8]) -> (r: Option<usize>)
    ensures
        r == parse_usize(s@, 16),
{
    parse_radix(s, true)
}

/// Parses a decimal number: an optional `+`, then one or more digits.
pub fn parse_decimal(s: &[u8]) -> (r: Option<usize>)
    ensures
        r == parse_usize(s@, 10),
{
    parse_radix(s, false)
}

/// The decimal digits of `n`, without leading zeros.
pub open spec fn decimal(n: nat) -> Seq<u8>
    decreases n,
{
    if n < 10 {
        seq![(0x30 + n) as u8]
    } else {
        decimal(n / 10).push((0x30 + n % 10) as u8)
    }
}

/// Appends the decimal digits of `n` to `out`.
pub fn push_decimal(out: &mut Vec<u8>, n: usize)
    ensures
        final(out)@ == old(out)@ + decimal(n as nat),
{
    let mut rev: Vec<u8> = Vec::new();
    let mut m: usize = n;
    while m >= 10
        invariant
            decimal(n as nat) == decimal(m as nat) + rev@.reverse(),
        decreases m,
    {
        let d: u8 = (m % 10) as u8;
        proof {
            let old_rev = rev@;
            assert(old_rev.push((0x30 + d) as u8).reverse() =~= seq![(0x30 + d) as u8]
                + old_rev.reverse());
            assert(decimal(m as nat) == decimal((m / 10) as nat).push((0x30 + m % 10) as u8));
            assert(decimal((m / 10) as nat).push((0x30 + d) as u8) + old_rev.reverse()
                =~= decimal((m / 10) as nat) + (seq![(0x30 + d) as u8] + old_rev.reverse()));
        }
        rev.push(0x30 + d);
        m = m / 10;
    }
    out.push(0x30 + (m as u8));
    let mut k: usize = rev.len();
    while k > 0
        invariant
            k <= rev.len(),
            m < 10,
            decimal(n as nat) == decimal(m as nat) + rev@.reverse(),
            out@ == old(out)@ + decimal(m as nat) + rev@.reverse().take(rev.len() - k),
        decreases k,
    {
        k -= 1;
        out.push(rev[k]);
        proof {
            let r = rev@.reverse();
            assert(r[rev.len() - 1 - k] == rev@[k as int]);
            assert(r.take(rev.len() - k) =~= r.take(rev.len() - k - 1).push(rev@[k as int]));
        }
    }
    proof {
        assert(rev@.reverse().take(rev.len() as int) =~= rev@.reverse());
        assert(old(out)@ + decimal(m as nat) + rev@.reverse() =~= old(out)@ + (decimal(m as nat)
            + rev@.reverse()));
    }
}

} // verus!
