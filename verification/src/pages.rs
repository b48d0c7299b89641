//! Small HTML responses with a fixed head: a status line, the content type
//! `text/html` and the length of the body.

use vstd::prelude::*;
use vstd::string::*;
use crate::chunked::lemma_crlf;
use crate::number::{decimal, push_decimal};
use crate::requests::{blank_line, lemma_blank_line};
use crate::text::{find_from, lemma_find_is, lit, occurs_at};

verus! {

/// The bytes of an HTML response with the given status text, such as
/// `404 Not Found`, and body.
pub open spec fn html_page_bytes(status: Seq<u8>, body: Seq<u8>) -> Seq<u8> {
    lit("HTTP/1.1 ") + status + lit("\r\nContent-Type: text/html\r\nContent-Length: ") + decimal(
        body.len(),
    ) + lit("\r\n\r\n") + body
}

/// Renders an HTML response with the given status text and body.
pub fn html_page(status: &str, body: &[u8]) -> (out: Vec<u8>)
    ensures
        out@ == html_page_bytes(lit(status), body@),
{
    let mut out: Vec<u8> = Vec::new();
    out.extend_from_slice("HTTP/1.1 ".as_bytes());
    out.extend_from_slice(status.as_bytes());
    out.extend_from_slice("\r\nContent-Type: text/html\r\nContent-Length: ".as_bytes());
    push_decimal(&mut out, body.len());
    out.extend_from_slice("\r\n\r\n".as_bytes());
    out.extend_from_slice(body);
    out
}

/// The head of an HTML response: the status line, the content type and the
/// length line, without the line terminator of the last.
pub open spec fn html_page_head(status: Seq<u8>, body: Seq<u8>) -> Seq<u8> {
    lit("HTTP/1.1 ") + status + lit("\r\nContent-Type: text/html\r\nContent-Length: ") + decimal(
        body.len(),
    )
}

/// The text has no carriage return in it.
pub open spec fn no_carriage_return(text: Seq<u8>) -> bool {
    forall|i: int| 0 <= i < text.len() ==> #[trigger] text[i] != 13
}

/// Decimal digits are digits.
pub proof fn lemma_decimal_digits(n: nat)
    ensures
        forall|i: int| 0 <= i < decimal(n).len() ==> 0x30 <= #[trigger] decimal(n)[i] <= 0x39,
    decreases n,
{
    if n >= 10 {
        lemma_decimal_digits(n / 10);
        let front = decimal(n / 10);
        assert forall|i: int| 0 <= i < decimal(n).len() implies 0x30 <= #[trigger] decimal(n)[i]
            <= 0x39 by {
            if i < front.len() {
                assert(decimal(n)[i] == front[i]);
            }
        }
    }
}

/// The fixed texts of the head, as far as the proofs need them: where
/// their carriage returns stand.
proof fn lemma_head_literals()
    ensures
        no_carriage_return(lit("HTTP/1.1 ")),
        lit("\r\nContent-Type: text/html\r\nContent-Length: ").len() == 43,
        forall|i: int|
            0 <= i < 43 && i != 0 && i != 25 ==> #[trigger] lit(
                "\r\nContent-Type: text/html\r\nContent-Length: ",
            )[i] != 13,
        lit("\r\nContent-Type: text/html\r\nContent-Length: ")[2] != 13,
        lit("\r\nContent-Type: text/html\r\nContent-Length: ")[27] != 13,
{
    reveal_strlit("HTTP/1.1 ");
    let a = "HTTP/1.1 ";
    assert(a@.len() == 9);
    assert(is_ascii(a));
    is_ascii_spec_bytes(a);
    reveal_strlit("\r\nContent-Type: text/html\r\nContent-Length: ");
    let b = "\r\nContent-Type: text/html\r\nContent-Length: ";
    assert(b@.len() == 43);
    assert(is_ascii(b));
    is_ascii_spec_bytes(b);
    let bytes = seq![13u8, 10u8, 67u8, 111u8, 110u8, 116u8, 101u8, 110u8, 116u8, 45u8, 84u8, 121u8, 112u8, 101u8, 58u8, 32u8, 116u8, 101u8, 120u8, 116u8, 47u8, 104u8, 116u8, 109u8, 108u8, 13u8, 10u8, 67u8, 111u8, 110u8, 116u8, 101u8, 110u8, 116u8, 45u8, 76u8, 101u8, 110u8, 103u8, 116u8, 104u8, 58u8, 32u8];
    assert(b.spec_bytes() =~= bytes);
    assert forall|i: int| 0 <= i < 43 && i != 0 && i != 25 implies #[trigger] bytes[i] != 13 by {
        if i == 1 {
            assert(bytes[1] != 13);
        } else if i == 2 {
            assert(bytes[2] != 13);
        } else if i == 3 {
            assert(bytes[3] != 13);
        } else if i == 4 {
            assert(bytes[4] != 13);
        } else if i == 5 {
            assert(bytes[5] != 13);
        } else if i == 6 {
            assert(bytes[6] != 13);
        } else if i == 7 {
            assert(bytes[7] != 13);
        } else if i == 8 {
            assert(bytes[8] != 13);
        } else if i == 9 {
            assert(bytes[9] != 13);
        } else if i == 10 {
            assert(bytes[10] != 13);
        } else if i == 11 {
            assert(bytes[11] != 13);
        } else if i == 12 {
            assert(bytes[12] != 13);
        } else if i == 13 {
            assert(bytes[13] != 13);
        } else if i == 14 {
            assert(bytes[14] != 13);
        } else if i == 15 {
            assert(bytes[15] != 13);
        } else if i == 16 {
            assert(bytes[16] != 13);
        } else if i == 17 {
            assert(bytes[17] != 13);
        } else if i == 18 {
            assert(bytes[18] != 13);
        } else if i == 19 {
            assert(bytes[19] != 13);
        } else if i == 20 {
            assert(bytes[20] != 13);
        } else if i == 21 {
            assert(bytes[21] != 13);
        } else if i == 22 {
            assert(bytes[22] != 13);
        } else if i == 23 {
            assert(bytes[23] != 13);
        } else if i == 24 {
            assert(bytes[24] != 13);
        } else if i == 26 {
            assert(bytes[26] != 13);
        } else if i == 27 {
            assert(bytes[27] != 13);
        } else if i == 28 {
            assert(bytes[28] != 13);
        } else if i == 29 {
            assert(bytes[29] != 13);
        } else if i == 30 {
            assert(bytes[30] != 13);
        } else if i == 31 {
            assert(bytes[31] != 13);
        } else if i == 32 {
            assert(bytes[32] != 13);
        } else if i == 33 {
            assert(bytes[33] != 13);
        } else if i == 34 {
            assert(bytes[34] != 13);
        } else if i == 35 {
            assert(bytes[35] != 13);
        } else if i == 36 {
            assert(bytes[36] != 13);
        } else if i == 37 {
            assert(bytes[37] != 13);
        } else if i == 38 {
            assert(bytes[38] != 13);
        } else if i == 39 {
            assert(bytes[39] != 13);
        } else if i == 40 {
            assert(bytes[40] != 13);
        } else if i == 41 {
            assert(bytes[41] != 13);
        } else if i == 42 {
            assert(bytes[42] != 13);
        }
    }
}

/// The first blank line of an HTML response is the one that ends its
/// head, when the status text has no carriage return in it.
pub proof fn lemma_page_blank_line(status: Seq<u8>, body: Seq<u8>)
    requires
        no_carriage_return(status),
    ensures
        html_page_bytes(status, body) == html_page_head(status, body) + blank_line() + body,
        find_from(html_page_bytes(status, body), blank_line(), 0) == Some(
            html_page_head(status, body).len() as int,
        ),
{
    lemma_blank_line();
    lemma_crlf();
    lemma_head_literals();
    lemma_decimal_digits(body.len());
    let first = lit("HTTP/1.1 ");
    let second = lit("\r\nContent-Type: text/html\r\nContent-Length: ");
    let digits = decimal(body.len());
    let head = html_page_head(status, body);
    let page = html_page_bytes(status, body);
    assert(page =~= head + blank_line() + body);
    let h = head.len() as int;
    let a = first.len() as int;
    let b = a + status.len();
    let c = b + 43;
    assert(h == c + digits.len());
    assert(page.subrange(h, h + 4) =~= blank_line());
    assert forall|j: int| 0 <= j < h implies !occurs_at(page, blank_line(), j) by {
        if occurs_at(page, blank_line(), j) {
            let w = page.subrange(j, j + 4);
            assert(w[0] == 13 && w[2] == 13);
            assert(page[j] == 13 && page[j + 2] == 13);
            if j < a {
                assert(page[j] == first[j]);
            } else if j < b {
                assert(page[j] == status[j - a]);
            } else if j < c {
                assert(page[j] == second[j - b]);
                if j - b == 0 {
                    assert(page[j + 2] == second[2]);
                } else {
                    assert(j - b == 25);
                    assert(page[j + 2] == second[27]);
                }
            } else {
                assert(page[j] == digits[j - c]);
            }
        }
    }
    lemma_find_is(page, blank_line(), 0, h);
}

} // verus!
