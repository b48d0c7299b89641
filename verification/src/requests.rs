//! Requests and responses: the parser that turns the bytes of one complete
//! message into a `Request`, and the assembler that renders a `Response`
//! into bytes.

use vstd::prelude::*;
use vstd::slice::*;
use vstd::string::*;
use vstd::utf8::valid_utf8;
use crate::chunked::{crlf, decode_chunked_body, decoded, lemma_crlf};
use crate::framer::{chunked_head, is_chunked_head};
use crate::number::{decimal, push_decimal};
use crate::space::{skip_spaces, skip_word, space_at, space_width};
use crate::string_map::{lookup, put, Entry, StringMap};
use crate::text::{
    find, find_from, lemma_find_none, lemma_find_some, lit, occurs_at,
    text_bytes,
};
use crate::utf8::{
    is_utf8, lemma_char_start_after_ascii, lemma_char_start_is_boundary,
    lemma_skip_spaces_start, lemma_skip_word_start, lemma_valid_piece, string_bytes, text_piece,
};

verus! {

/// A request: the three words of its request line, its headers and its
/// body. The body of a chunked request is already decoded.
#[derive(Debug)]
pub struct Request {
    pub method: String,
    pub path: String,
    pub version: String,
    pub headers: StringMap,
    pub body: Vec<u8>,
}

/// A response: status, reason phrase, headers and body.
#[derive(Debug)]
pub struct Response {
    pub status_code: u16,
    pub reason_phrase: String,
    pub headers: StringMap,
    pub body: Vec<u8>,
}

/// A request, with every text as its UTF-8 bytes.
pub ghost struct RequestView {
    pub method: Seq<u8>,
    pub path: Seq<u8>,
    pub version: Seq<u8>,
    pub headers: Seq<Entry>,
    pub body: Seq<u8>,
}

/// A response, with every text as its UTF-8 bytes.
pub ghost struct ResponseView {
    pub status_code: nat,
    pub reason_phrase: Seq<u8>,
    pub headers: Seq<Entry>,
    pub body: Seq<u8>,
}

impl View for Request {
    type V = RequestView;

    open spec fn view(&self) -> RequestView {
        RequestView {
            method: text_bytes(self.method@),
            path: text_bytes(self.path@),
            version: text_bytes(self.version@),
            headers: self.headers@,
            body: self.body@,
        }
    }
}

impl View for Response {
    type V = ResponseView;

    open spec fn view(&self) -> ResponseView {
        ResponseView {
            status_code: self.status_code as nat,
            reason_phrase: text_bytes(self.reason_phrase@),
            headers: self.headers@,
            body: self.body@,
        }
    }
}

/// The header lines of a response: `key: value CRLF` for each entry, in
/// order.
pub open spec fn header_lines(entries: Seq<Entry>) -> Seq<u8>
    decreases entries.len(),
{
    if entries.len() == 0 {
        Seq::empty()
    } else {
        header_lines(entries.drop_last()) + entries.last().key + lit(": ") + entries.last().value
            + crlf()
    }
}

/// The `Content-Length` line that the assembler adds when the headers hold
/// none.
pub open spec fn length_line(headers: Seq<Entry>, body: Seq<u8>) -> Seq<u8> {
    if lookup(headers, lit("Content-Length")) is None {
        lit("Content-Length: ") + decimal(body.len()) + crlf()
    } else {
        Seq::empty()
    }
}

/// The head of a rendered response: everything before the blank line.
pub open spec fn response_head(res: ResponseView) -> Seq<u8> {
    lit("HTTP/1.1 ") + decimal(res.status_code) + lit(" ") + res.reason_phrase + crlf()
        + length_line(res.headers, res.body) + header_lines(res.headers)
}

/// A rendered response: status line, headers, blank line, body.
pub open spec fn response_bytes(res: ResponseView) -> Seq<u8> {
    response_head(res) + crlf() + res.body
}

/// Renders a response: the status line `HTTP/1.1 <code> <reason>`, a
/// `Content-Length` line with the length of the body unless the headers
/// already hold one, the headers in their order, a blank line, and the body
/// as it is.
pub fn build_response(res: Response) -> (out: Vec<u8>)
    ensures
        out@ == response_bytes(res@),
{
    let mut out: Vec<u8> = Vec::new();
    out.extend_from_slice("HTTP/1.1 ".as_bytes());
    push_decimal(&mut out, res.status_code as usize);
    out.extend_from_slice(" ".as_bytes());
    out.extend_from_slice(string_bytes(&res.reason_phrase));
    out.extend_from_slice("\r\n".as_bytes());
    if !res.headers.contains_key("Content-Length") {
        out.extend_from_slice("Content-Length: ".as_bytes());
        push_decimal(&mut out, res.body.len());
        out.extend_from_slice("\r\n".as_bytes());
    }
    let ghost start = out@;
    assert(start =~= lit("HTTP/1.1 ") + decimal(res@.status_code) + lit(" ")
        + res@.reason_phrase + crlf() + length_line(res@.headers, res@.body));
    let n: usize = res.headers.len();
    let mut i: usize = 0;
    assert(res.headers@.take(0) =~= Seq::<Entry>::empty());
    while i < n
        invariant
            i <= n,
            n == res.headers@.len(),
            out@ == start + header_lines(res.headers@.take(i as int)),
        decreases n - i,
    {
        let ghost before = out@;
        out.extend_from_slice(string_bytes(res.headers.key_at(i)));
        out.extend_from_slice(": ".as_bytes());
        out.extend_from_slice(string_bytes(res.headers.value_at(i)));
        out.extend_from_slice("\r\n".as_bytes());
        proof {
            let next = res.headers@.take(i + 1);
            assert(next.drop_last() =~= res.headers@.take(i as int));
            assert(next.last() == res.headers@[i as int]);
            assert(out@ =~= start + header_lines(next));
        }
        i += 1;
    }
    assert(res.headers@.take(n as int) =~= res.headers@);
    out.extend_from_slice("\r\n".as_bytes());
    let ghost head = out@;
    out.extend_from_slice(res.body.as_slice());
    assert(out@ =~= response_bytes(res@));
    out
}

/// The blank line that ends the head of a message, as bytes.
pub open spec fn blank_line() -> Seq<u8> {
    lit("\r\n\r\n")
}

/// The blank line is two line terminators.
pub proof fn lemma_blank_line()
    ensures
        blank_line() == crlf() + crlf(),
        blank_line().len() == 4,
{
    lemma_crlf();
    reveal_strlit("\r\n\r\n");
    let s = "\r\n\r\n";
    assert(s@.len() == 4);
    assert(is_ascii(s));
    is_ascii_spec_bytes(s);
    assert(s.spec_bytes() =~= seq![13u8, 10u8, 13u8, 10u8]);
    assert(crlf() + crlf() =~= seq![13u8, 10u8, 13u8, 10u8]);
}

/// The separator between a header's key and its value, as bytes.
pub open spec fn colon_space() -> Seq<u8> {
    lit(": ")
}

/// The separator is a colon and a space.
pub proof fn lemma_colon_space()
    ensures
        colon_space() == seq![58u8, 32u8],
        colon_space().len() == 2,
{
    reveal_strlit(": ");
    let s = ": ";
    assert(s@.len() == 2);
    assert(is_ascii(s));
    is_ascii_spec_bytes(s);
    assert(s.spec_bytes() =~= seq![58u8, 32u8]);
}

/// Length of the head of the message at the front of `raw`: everything up
/// to and including the first blank line. `None` when there is no blank
/// line yet.
pub open spec fn head_end(raw: Seq<u8>) -> Option<int> {
    match find_from(raw, blank_line(), 0) {
        Some(h) => Some(h + 4),
        None => None,
    }
}

/// The first line of a head, without its line terminator.
pub open spec fn request_line(head: Seq<u8>) -> Seq<u8> {
    match find_from(head, crlf(), 0) {
        Some(e) => head.take(e),
        None => head,
    }
}

/// Offset at which the `n`-th word of `s` starts, counting from 0. Words
/// are separated by white space.
pub open spec fn word_start(s: Seq<u8>, n: nat) -> int
    decreases n,
{
    if n == 0 {
        skip_spaces(s, 0)
    } else {
        skip_spaces(s, skip_word(s, word_start(s, (n - 1) as nat)))
    }
}

/// The `n`-th word of `s`, counting from 0.
pub open spec fn word(s: Seq<u8>, n: nat) -> Option<Seq<u8>> {
    let a = word_start(s, n);
    if 0 <= a < s.len() {
        Some(s.subrange(a, skip_word(s, a)))
    } else {
        None
    }
}

/// The headers that the lines of `head` from offset `pos` on add to `acc`.
/// Lines are read up to the first empty one. A line with `": "` in it
/// stores what follows the first `": "` under what precedes it; any other
/// line is passed over.
pub open spec fn header_entries(head: Seq<u8>, pos: int, acc: Seq<Entry>) -> Seq<Entry>
    decreases head.len() - pos,
{
    match find_from(head, crlf(), pos) {
        None => acc,
        Some(e) => {
            if e == pos {
                acc
            } else {
                proof {
                    lemma_crlf();
                    lemma_find_some(head, crlf(), pos);
                }
                let line = head.subrange(pos, e);
                let next = match find_from(line, colon_space(), 0) {
                    Some(k) => put(acc, line.take(k), line.skip(k + 2)),
                    None => acc,
                };
                header_entries(head, e + 2, next)
            }
        },
    }
}

/// The body of a request whose head is followed by `rest`. A head that
/// announces a chunked body, by the rule of the framer, is followed by
/// chunks: the body is their data, and there is none when they do not
/// decode. Any other head is followed by the body as it is.
pub open spec fn request_body(head: Seq<u8>, rest: Seq<u8>) -> Option<Seq<u8>> {
    if chunked_head(head) {
        decoded(rest)
    } else {
        Some(rest)
    }
}

/// The request that the bytes `raw` hold. `None` when `raw` has no blank
/// line, when its head is not valid UTF-8, when its first line has fewer
/// than three words, or when its head announces a chunked body and the
/// chunks do not decode.
pub open spec fn parsed(raw: Seq<u8>) -> Option<RequestView> {
    match head_end(raw) {
        None => None,
        Some(end) => {
            let head = raw.take(end);
            let line = request_line(head);
            if valid_utf8(head) && word(line, 2) is Some && request_body(
                head,
                raw.skip(end),
            ) is Some {
                let headers = header_entries(head, line.len() as int + 2, Seq::empty());
                Some(
                    RequestView {
                        method: word(line, 0)->0,
                        path: word(line, 1)->0,
                        version: word(line, 2)->0,
                        headers,
                        body: request_body(head, raw.skip(end))->0,
                    },
                )
            } else {
                None
            }
        },
    }
}

/// Finds the word of `s` that starts at or after `from`, skipping white
/// space. Returns its start and its end.
fn next_word(s: &[u8], from: usize) -> (r: Option<(usize, usize)>)
    requires
        from <= s.len(),
    ensures
        match r {
            Some((a, b)) => a == skip_spaces(s@, from as int) && b == skip_word(s@, a as int)
                && from <= a < b <= s.len(),
            None => skip_spaces(s@, from as int) >= s.len(),
        },
{
    let n: usize = s.len();
    let mut a: usize = from;
    loop
        invariant
            from <= a <= n,
            n == s.len(),
            skip_spaces(s@, from as int) == skip_spaces(s@, a as int),
        ensures
            from <= a <= n,
            skip_spaces(s@, from as int) == a,
            space_width(s@, a as int) == 0,
        decreases n - a,
    {
        let w: usize = space_at(s, a);
        if w == 0 {
            break ;
        }
        a = a + w;
    }
    if a >= n {
        return None;
    }
    let mut b: usize = a + 1;
    while b < n && space_at(s, b) == 0
        invariant
            a < b <= n,
            n == s.len(),
            skip_word(s@, a as int) == skip_word(s@, b as int),
        decreases n - b,
    {
        b += 1;
    }
    Some((a, b))
}

/// Reads the header lines of `head` from offset `start` on into a map.
fn read_headers(head: &[u8], start: usize) -> (r: StringMap)
    requires
        valid_utf8(head@),
        2 <= start <= head.len(),
        head[start - 1] == 10,
    ensures
        r@ == header_entries(head@, start as int, Seq::empty()),
{
    let mut headers = StringMap::new();
    let mut pos: usize = start;
    loop
        invariant
            valid_utf8(head@),
            1 <= pos <= head.len(),
            head[pos - 1] == 10,
            header_entries(head@, start as int, Seq::empty()) == header_entries(
                head@,
                pos as int,
                headers@,
            ),
        decreases head.len() - pos,
    {
        let e: usize = match find(head, "\r\n".as_bytes(), pos) {
            Some(e) => e,
            None => {
                return headers;
            },
        };
        if e == pos {
            return headers;
        }
        proof {
            lemma_crlf();
            lemma_colon_space();
            lemma_find_some(head@, crlf(), pos as int);
            assert(head@.subrange(e as int, e + 2)[0] == 13);
            assert(head@.subrange(e as int, e + 2)[1] == 10);
            lemma_char_start_after_ascii(head@, pos - 1);
        }
        let line = slice_subrange(head, pos, e);
        match find(line, ": ".as_bytes(), 0) {
            Some(k) => {
                proof {
                    lemma_find_some(line@, colon_space(), 0);
                    assert(line@.subrange(k as int, k + 2)[0] == 58);
                    assert(line@.subrange(k as int, k + 2)[1] == 32);
                    assert(head@[pos + k] == 58);
                    assert(head@[pos + k + 1] == 32);
                    lemma_char_start_after_ascii(head@, pos + k + 1);
                    assert(line@.take(k as int) =~= head@.subrange(pos as int, pos + k));
                    assert(line@.skip(k + 2) =~= head@.subrange(pos + k + 2, e as int));
                }
                let key = text_piece(head, pos, pos + k);
                let value = text_piece(head, pos + k + 2, e);
                headers.insert(key, value);
            },
            None => {},
        }
        pos = e + 2;
    }
}

/// Parses the bytes of one message into a request.
///
/// The head ends at the first blank line and must be valid UTF-8. The first
/// three words of its first line are the method, the path and the version.
/// Each following line up to the first empty one that has `": "` in it is a
/// header; of two headers with one key the later one stays. The body is
/// what follows the blank line. Where the head announces a chunked body,
/// as the framer reads it, the body is the data of the chunks, and a
/// request whose chunks do not decode is no request.
pub fn parse_http_request(raw: &[u8]) -> (r: Option<Request>)
    ensures
        match parsed(raw@) {
            Some(v) => r is Some && r->0@ == v,
            None => r is None,
        },
{
    let h: usize = match find(raw, "\r\n\r\n".as_bytes(), 0) {
        Some(h) => h,
        None => {
            return None;
        },
    };
    proof {
        lemma_crlf();
        lemma_blank_line();
        assert(find_from(raw@, blank_line(), 0) == Some(h as int));
        lemma_find_some(raw@, blank_line(), 0);
        assert(occurs_at(raw@, blank_line(), h as int));
        assert(h + 4 <= raw.len());
    }
    let end: usize = h + 4;
    let head = slice_subrange(raw, 0, end);
    assert(head@ =~= raw@.take(end as int));
    if !is_utf8(head) {
        return None;
    }
    proof {
        assert(head@.subrange(h as int, h + 2) =~= raw@.subrange(h as int, h + 4).subrange(0, 2));
        assert(crlf() =~= blank_line().subrange(0, 2));
        assert(head@.subrange(h + 2, h + 4) =~= raw@.subrange(h as int, h + 4).subrange(2, 4));
        assert(crlf() =~= blank_line().subrange(2, 4));
        assert(occurs_at(head@, crlf(), h as int));
        if find_from(head@, crlf(), 0) is None {
            lemma_find_none(head@, crlf(), 0);
        }
    }
    let e0: usize = match find(head, "\r\n".as_bytes(), 0) {
        Some(e) => e,
        None => {
            return None;
        },
    };
    proof {
        lemma_find_some(head@, crlf(), 0);
        assert(head@.subrange(e0 as int, e0 + 2)[0] == 13);
        assert(head@.subrange(e0 as int, e0 + 2)[1] == 10);
        lemma_char_start_is_boundary(head@, 0);
        lemma_valid_piece(head@, 0, e0 as int);
    }
    let line = slice_subrange(head, 0, e0);
    assert(line@ =~= request_line(head@));
    proof {
        lemma_char_start_is_boundary(line@, 0);
    }
    let (a0, b0) = match next_word(line, 0) {
        Some(w) => w,
        None => {
            proof {
                lemma_words_in_order(line@, 1);
                lemma_words_in_order(line@, 2);
            }
            return None;
        },
    };
    let (a1, b1) = match next_word(line, b0) {
        Some(w) => w,
        None => {
            proof {
                lemma_words_in_order(line@, 2);
            }
            return None;
        },
    };
    let (a2, b2) = match next_word(line, b1) {
        Some(w) => w,
        None => {
            return None;
        },
    };
    proof {
        lemma_skip_spaces_start(line@, 0);
        lemma_skip_word_start(line@, a0 as int);
        lemma_skip_spaces_start(line@, b0 as int);
        lemma_skip_word_start(line@, a1 as int);
        lemma_skip_spaces_start(line@, b1 as int);
        lemma_skip_word_start(line@, a2 as int);
    }
    let method = text_piece(line, a0, b0);
    let path = text_piece(line, a1, b1);
    let version = text_piece(line, a2, b2);
    let headers = read_headers(head, e0 + 2);
    let rest = slice_subrange(raw, end, raw.len());
    assert(rest@ =~= raw@.skip(end as int));
    let body: Vec<u8> = if is_chunked_head(head) {
        match decode_chunked_body(rest) {
            Ok(data) => data,
            Err(_) => {
                return None;
            },
        }
    } else {
        slice_to_vec(rest)
    };
    Some(Request { method, path, version, headers, body })
}

/// A text that has an `n`-th word has every word before it: word starts
/// never move backwards, and a start at the end of the text stays there.
pub proof fn lemma_words_in_order(s: Seq<u8>, n: nat)
    requires
        n >= 1,
    ensures
        0 <= word_start(s, (n - 1) as nat) <= word_start(s, n),
        word_start(s, (n - 1) as nat) >= s.len() ==> word_start(s, n) >= s.len(),
    decreases n,
{
    if n > 1 {
        lemma_words_in_order(s, (n - 1) as nat);
    }
    let a = word_start(s, (n - 1) as nat);
    lemma_skip_spaces_bounds(s, 0);
    lemma_skip_word_bounds(s, a);
    lemma_skip_spaces_bounds(s, skip_word(s, a));
}

/// Skipping white space never moves backwards.
pub proof fn lemma_skip_spaces_bounds(s: Seq<u8>, i: int)
    ensures
        i <= skip_spaces(s, i),
    decreases s.len() - i,
{
    if space_width(s, i) > 0 {
        lemma_skip_spaces_bounds(s, i + space_width(s, i));
    }
}

/// Skipping a word never moves backwards.
pub proof fn lemma_skip_word_bounds(s: Seq<u8>, i: int)
    ensures
        i <= skip_word(s, i),
    decreases s.len() - i,
{
    if 0 <= i < s.len() && space_width(s, i) == 0 {
        lemma_skip_word_bounds(s, i + 1);
    }
}

} // verus!
