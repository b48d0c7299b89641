//! The responses of the dispatch pipeline, and how the session cookie is
//! attached to them.
//!
//! A response that a handler builds as a `Response` carries the cookie in
//! its header map. A response that a sub-handler hands over as bytes gets
//! the cookie spliced in as a `Set-Cookie` line.

use vstd::prelude::*;
use vstd::string::*;
use crate::chunked::{crlf, lemma_crlf};
use crate::requests::{blank_line, build_response, lemma_blank_line, response_bytes, Response, ResponseView};
use crate::static_file::{build_http_response, file_response_bytes, FileResponse};
use crate::pages::{
    html_page_bytes, html_page_head, lemma_page_blank_line, no_carriage_return,
};
use crate::string_map::{put, Entry, StringMap};
use crate::text::{find, find_from, lemma_find_some, lit, occurs_at, text_bytes};
use crate::upload_handler::{
    build_upload_response, upload_response_bytes, upload_result, UploadResult,
};
use crate::utf8::string_bytes;

verus! {

/// The kinds of error page.
#[derive(Debug, Clone, Copy, PartialEq, Eq)]
pub enum ErrorKind {
    BadRequest,
    Forbidden,
    NotFound,
    MethodNotAllowed,
    InternalError,
}

/// What became of the removal of a file: it was removed, it was not
/// there, it may not be removed (it lies outside the document root or is a
/// directory), or the removal failed.
#[derive(Debug, Clone, Copy, PartialEq, Eq)]
pub enum DeleteOutcome {
    Removed,
    Missing,
    Forbidden,
    Failed,
}

/// What the pipeline answers: the bytes of a finished response, or an
/// error page whose custom body, if one is configured, is still to be
/// looked up.
#[derive(Debug)]
pub enum Reply {
    Ready(Vec<u8>),
    ErrorPage { kind: ErrorKind, cookie: Option<String> },
}

/// A reply, with the cookie as UTF-8 bytes.
pub ghost enum ReplyView {
    Ready(Seq<u8>),
    ErrorPage { kind: ErrorKind, cookie: Option<Seq<u8>> },
}

/// The UTF-8 bytes of an optional text.
pub open spec fn opt_bytes(text: Option<String>) -> Option<Seq<u8>> {
    match text {
        Some(t) => Some(text_bytes(t@)),
        None => None,
    }
}

/// The bytes of an optional byte string.
pub open spec fn opt_vec(bytes: Option<Vec<u8>>) -> Option<Seq<u8>> {
    match bytes {
        Some(b) => Some(b@),
        None => None,
    }
}

impl View for Reply {
    type V = ReplyView;

    open spec fn view(&self) -> ReplyView {
        match *self {
            Reply::Ready(bytes) => ReplyView::Ready(bytes@),
            Reply::ErrorPage { kind, cookie } => ReplyView::ErrorPage {
                kind,
                cookie: opt_bytes(cookie),
            },
        }
    }
}

/// The status code of an error page.
pub open spec fn error_code(kind: ErrorKind) -> u16 {
    match kind {
        ErrorKind::BadRequest => 400,
        ErrorKind::Forbidden => 403,
        ErrorKind::NotFound => 404,
        ErrorKind::MethodNotAllowed => 405,
        ErrorKind::InternalError => 500,
    }
}

/// The reason phrase of an error page.
pub open spec fn error_reason(kind: ErrorKind) -> Seq<u8> {
    match kind {
        ErrorKind::BadRequest => lit("Bad Request"),
        ErrorKind::Forbidden => lit("Forbidden"),
        ErrorKind::NotFound => lit("Not Found"),
        ErrorKind::MethodNotAllowed => lit("Method Not Allowed"),
        ErrorKind::InternalError => lit("Internal Server Error"),
    }
}

/// The built-in body of an error page.
pub open spec fn default_error_body(kind: ErrorKind) -> Seq<u8> {
    match kind {
        ErrorKind::BadRequest => lit("<h1>400 Bad Request</h1>"),
        ErrorKind::Forbidden => lit("<h1>403 Forbidden</h1>"),
        ErrorKind::NotFound => lit("<h1>404 Not Found</h1>"),
        ErrorKind::MethodNotAllowed => lit("<h1>405 Method Not Allowed</h1>"),
        ErrorKind::InternalError => lit("<h1>500 Internal Server Error</h1>"),
    }
}

impl ErrorKind {
    /// The status code of the error page.
    pub fn code(&self) -> (r: u16)
        ensures
            r == error_code(*self),
    {
        match self {
            ErrorKind::BadRequest => 400,
            ErrorKind::Forbidden => 403,
            ErrorKind::NotFound => 404,
            ErrorKind::MethodNotAllowed => 405,
            ErrorKind::InternalError => 500,
        }
    }

    /// The reason phrase of the error page.
    pub fn reason(&self) -> (r: &'static str)
        ensures
            lit(r) == error_reason(*self),
    {
        match self {
            ErrorKind::BadRequest => "Bad Request",
            ErrorKind::Forbidden => "Forbidden",
            ErrorKind::NotFound => "Not Found",
            ErrorKind::MethodNotAllowed => "Method Not Allowed",
            ErrorKind::InternalError => "Internal Server Error",
        }
    }

    /// The built-in body of the error page.
    pub fn default_body(&self) -> (r: &'static str)
        ensures
            lit(r) == default_error_body(*self),
    {
        match self {
            ErrorKind::BadRequest => "<h1>400 Bad Request</h1>",
            ErrorKind::Forbidden => "<h1>403 Forbidden</h1>",
            ErrorKind::NotFound => "<h1>404 Not Found</h1>",
            ErrorKind::MethodNotAllowed => "<h1>405 Method Not Allowed</h1>",
            ErrorKind::InternalError => "<h1>500 Internal Server Error</h1>",
        }
    }
}

/// The headers of a response that a handler builds: the first header, and
/// the session cookie when one is to be set.
pub open spec fn reply_headers(key: Seq<u8>, value: Seq<u8>, cookie: Option<Seq<u8>>) -> Seq<
    Entry,
> {
    let first = put(Seq::empty(), key, value);
    match cookie {
        Some(c) => put(first, lit("Set-Cookie"), c),
        None => first,
    }
}

/// Builds the headers of a response: the first header, and the session
/// cookie when one is to be set.
fn build_headers(key: &str, value: String, cookie: Option<String>) -> (r: StringMap)
    ensures
        r@ == reply_headers(lit(key), text_bytes(value@), opt_bytes(cookie)),
{
    let mut headers = StringMap::new();
    headers.insert(String::from_str(key), value);
    match cookie {
        Some(c) => {
            headers.insert(String::from_str("Set-Cookie"), c);
        },
        None => {},
    }
    headers
}

/// An error page: its status and reason, the content type `text/html`, the
/// cookie if one is to be set, and the custom body or else the built-in
/// one.
pub open spec fn error_response(
    kind: ErrorKind,
    custom: Option<Seq<u8>>,
    cookie: Option<Seq<u8>>,
) -> ResponseView {
    ResponseView {
        status_code: error_code(kind) as nat,
        reason_phrase: error_reason(kind),
        headers: reply_headers(lit("Content-Type"), lit("text/html"), cookie),
        body: match custom {
            Some(body) => body,
            None => default_error_body(kind),
        },
    }
}

/// Renders an error page. `custom` is the body of the configured custom
/// page, when there is one and it could be read.
pub fn error_reply(kind: ErrorKind, custom: Option<Vec<u8>>, cookie: Option<String>) -> (out: Vec<
    u8,
>)
    ensures
        out@ == response_bytes(error_response(kind, opt_vec(custom), opt_bytes(cookie))),
{
    let body: Vec<u8> = match custom {
        Some(body) => body,
        None => {
            let mut body: Vec<u8> = Vec::new();
            body.extend_from_slice(kind.default_body().as_bytes());
            assert(body@ =~= default_error_body(kind));
            body
        },
    };
    build_response(
        Response {
            status_code: kind.code(),
            reason_phrase: String::from_str(kind.reason()),
            headers: build_headers("Content-Type", String::from_str("text/html"), cookie),
            body,
        },
    )
}

/// A page with status 200.
pub open spec fn ok_response(content_type: Seq<u8>, body: Seq<u8>, cookie: Option<Seq<u8>>) -> ResponseView {
    ResponseView {
        status_code: 200,
        reason_phrase: lit("OK"),
        headers: reply_headers(lit("Content-Type"), content_type, cookie),
        body,
    }
}

/// Renders a page with status 200.
fn ok_reply(content_type: &str, body: Vec<u8>, cookie: Option<String>) -> (out: Vec<u8>)
    ensures
        out@ == response_bytes(ok_response(lit(content_type), body@, opt_bytes(cookie))),
{
    build_response(
        Response {
            status_code: 200,
            reason_phrase: String::from_str("OK"),
            headers: build_headers("Content-Type", String::from_str(content_type), cookie),
            body,
        },
    )
}

/// The status of a redirection: the configured one, or 302.
pub open spec fn redirect_status(status: Option<u16>) -> u16 {
    match status {
        Some(s) => s,
        None => 302,
    }
}

/// The reason phrase that goes with the status of a redirection.
pub open spec fn redirect_reason(status: u16) -> Seq<u8> {
    if status == 301 {
        lit("Moved Permanently")
    } else if status == 307 {
        lit("Temporary Redirect")
    } else if status == 308 {
        lit("Permanent Redirect")
    } else {
        lit("Found")
    }
}

/// A redirection: the status, a `Location` header with the target, the
/// cookie if one is to be set, and no body.
pub open spec fn redirect_response(
    target: Seq<u8>,
    status: Option<u16>,
    cookie: Option<Seq<u8>>,
) -> ResponseView {
    ResponseView {
        status_code: redirect_status(status) as nat,
        reason_phrase: redirect_reason(redirect_status(status)),
        headers: reply_headers(lit("Location"), target, cookie),
        body: Seq::empty(),
    }
}

/// Renders a redirection to `target`. Without a configured status the
/// status is 302.
pub fn redirect_reply(target: &String, status: Option<u16>, cookie: Option<String>) -> (out: Vec<
    u8,
>)
    ensures
        out@ == response_bytes(redirect_response(text_bytes(target@), status, opt_bytes(cookie))),
{
    let code: u16 = match status {
        Some(s) => s,
        None => 302,
    };
    let reason: &str = if code == 301 {
        "Moved Permanently"
    } else if code == 307 {
        "Temporary Redirect"
    } else if code == 308 {
        "Permanent Redirect"
    } else {
        "Found"
    };
    build_response(
        Response {
            status_code: code,
            reason_phrase: String::from_str(reason),
            headers: build_headers("Location", target.clone(), cookie),
            body: Vec::new(),
        },
    )
}

/// The `Set-Cookie` line for a cookie.
pub open spec fn set_cookie_line(cookie: Seq<u8>) -> Seq<u8> {
    lit("Set-Cookie: ") + cookie + crlf()
}

/// Offset at which a `Set-Cookie` line is spliced into a rendered
/// response: just after the line terminator of the last header line, which
/// is the first half of the first blank line; the end when there is no
/// blank line.
pub open spec fn splice_point(response: Seq<u8>) -> int {
    match find_from(response, blank_line(), 0) {
        Some(p) => p + 2,
        None => response.len() as int,
    }
}

/// A rendered response with the cookie, if any, spliced in as a
/// `Set-Cookie` line at the splice point. Every byte of the response
/// stays as it is: the line becomes the last header line, and the empty
/// line and the body follow it.
pub open spec fn with_cookie(response: Seq<u8>, cookie: Option<Seq<u8>>) -> Seq<u8> {
    match cookie {
        Some(c) => response.take(splice_point(response)) + set_cookie_line(c) + response.skip(
            splice_point(response),
        ),
        None => response,
    }
}

/// Splices the cookie, if any, into a rendered response.
pub fn attach_cookie(response: Vec<u8>, cookie: Option<String>) -> (out: Vec<u8>)
    ensures
        out@ == with_cookie(response@, opt_bytes(cookie)),
{
    let value = match cookie {
        Some(value) => value,
        None => {
            return response;
        },
    };
    let at: usize = match find(response.as_slice(), "\r\n\r\n".as_bytes(), 0) {
        Some(p) => {
            proof {
                lemma_blank_line();
                lemma_find_some(response@, blank_line(), 0);
                assert(occurs_at(response@, blank_line(), p as int));
                assert(p + 4 <= response.len());
            }
            p + 2
        },
        None => response.len(),
    };
    let mut out: Vec<u8> = Vec::new();
    let head = vstd::slice::slice_subrange(response.as_slice(), 0, at);
    let tail = vstd::slice::slice_subrange(response.as_slice(), at, response.len());
    out.extend_from_slice(head);
    out.extend_from_slice("Set-Cookie: ".as_bytes());
    out.extend_from_slice(string_bytes(&value));
    out.extend_from_slice("\r\n".as_bytes());
    out.extend_from_slice(tail);
    proof {
        assert(head@ =~= response@.take(at as int));
        assert(tail@ =~= response@.skip(at as int));
        assert(out@ =~= with_cookie(response@, Some(text_bytes(value@))));
    }
    out
}

/// A response whose head ends at its first blank line gets the cookie as
/// one more header line: the head, a line terminator, the `Set-Cookie`
/// line, the empty line, and the body as it was.
pub proof fn lemma_cookie_is_last_header(head: Seq<u8>, body: Seq<u8>, cookie: Seq<u8>)
    requires
        find_from(head + blank_line() + body, blank_line(), 0) == Some(head.len() as int),
    ensures
        with_cookie(head + blank_line() + body, Some(cookie)) == head + crlf() + set_cookie_line(
            cookie,
        ) + crlf() + body,
{
    lemma_blank_line();
    lemma_crlf();
    let response = head + blank_line() + body;
    let p = head.len() as int;
    assert(response.take(p + 2) =~= head + crlf());
    assert(response.skip(p + 2) =~= crlf() + body);
    assert(response.take(p + 2) + set_cookie_line(cookie) + response.skip(p + 2) =~= head
        + crlf() + set_cookie_line(cookie) + crlf() + body);
}

/// An HTML page with the cookie spliced in: the head of the page, the
/// `Set-Cookie` line as its last header line, the empty line, and the body
/// of the page, byte for byte. The length line still gives the length of
/// that body.
pub proof fn lemma_page_with_cookie(status: Seq<u8>, body: Seq<u8>, cookie: Seq<u8>)
    requires
        no_carriage_return(status),
    ensures
        with_cookie(html_page_bytes(status, body), Some(cookie)) == html_page_head(status, body)
            + crlf() + set_cookie_line(cookie) + crlf() + body,
        with_cookie(html_page_bytes(status, body), None) == html_page_head(status, body)
            + blank_line() + body,
{
    lemma_page_blank_line(status, body);
    lemma_cookie_is_last_header(html_page_head(status, body), body, cookie);
}

/// The status text `200 OK` has no carriage return in it.
pub proof fn lemma_ok_status()
    ensures
        no_carriage_return(lit("200 OK")),
{
    reveal_strlit("200 OK");
    let s = "200 OK";
    assert(s@.len() == 6);
    assert(is_ascii(s));
    is_ascii_spec_bytes(s);
}

/// A file that was found is answered with status 200, a length line that
/// gives the length of the file, the cookie, if one is to be set, as one
/// `Set-Cookie` line at the end of the head, and after the first blank
/// line the bytes of the file and nothing else.
pub proof fn lemma_found_file_reply(contents: Vec<u8>, cookie: Option<Seq<u8>>)
    ensures
        file_reply_view(FileResponse::Found(contents), cookie) == ReplyView::Ready(
            match cookie {
                Some(c) => html_page_head(lit("200 OK"), contents@) + crlf() + set_cookie_line(c)
                    + crlf() + contents@,
                None => html_page_head(lit("200 OK"), contents@) + blank_line() + contents@,
            },
        ),
{
    lemma_ok_status();
    match cookie {
        Some(c) => lemma_page_with_cookie(lit("200 OK"), contents@, c),
        None => lemma_page_with_cookie(lit("200 OK"), contents@, Seq::empty()),
    }
}

/// The reply to a script's run: 200 with the output as plain text, or the
/// error page for an internal error when the script failed.
pub open spec fn script_reply_view(output: Option<Seq<u8>>, cookie: Option<Seq<u8>>) -> ReplyView {
    match output {
        Some(text) => ReplyView::Ready(response_bytes(ok_response(lit("text/plain"), text, cookie))),
        None => ReplyView::ErrorPage { kind: ErrorKind::InternalError, cookie },
    }
}

/// Answers for a script that was run. `output` is what the script wrote,
/// or `None` when it failed.
pub fn script_reply(output: Option<String>, cookie: Option<String>) -> (r: Reply)
    ensures
        r@ == script_reply_view(opt_bytes(output), opt_bytes(cookie)),
{
    match output {
        Some(text) => {
            let mut body: Vec<u8> = Vec::new();
            body.extend_from_slice(string_bytes(&text));
            assert(body@ =~= text_bytes(text@));
            Reply::Ready(ok_reply("text/plain", body, cookie))
        },
        None => Reply::ErrorPage { kind: ErrorKind::InternalError, cookie },
    }
}

/// The reply to the removal of a file: 200 with a short page when it was
/// removed, else the error page 404, 403 or 500.
pub open spec fn delete_reply_view(outcome: DeleteOutcome, cookie: Option<Seq<u8>>) -> ReplyView {
    match outcome {
        DeleteOutcome::Removed => ReplyView::Ready(
            response_bytes(
                ok_response(lit("text/html"), lit("<h1>File deleted successfully</h1>"), cookie),
            ),
        ),
        DeleteOutcome::Missing => ReplyView::ErrorPage { kind: ErrorKind::NotFound, cookie },
        DeleteOutcome::Forbidden => ReplyView::ErrorPage { kind: ErrorKind::Forbidden, cookie },
        DeleteOutcome::Failed => ReplyView::ErrorPage { kind: ErrorKind::InternalError, cookie },
    }
}

/// Answers for a file whose removal was tried.
pub fn delete_reply(outcome: DeleteOutcome, cookie: Option<String>) -> (r: Reply)
    ensures
        r@ == delete_reply_view(outcome, opt_bytes(cookie)),
{
    match outcome {
        DeleteOutcome::Removed => {
            let mut body: Vec<u8> = Vec::new();
            body.extend_from_slice("<h1>File deleted successfully</h1>".as_bytes());
            assert(body@ =~= lit("<h1>File deleted successfully</h1>"));
            Reply::Ready(ok_reply("text/html", body, cookie))
        },
        DeleteOutcome::Missing => Reply::ErrorPage { kind: ErrorKind::NotFound, cookie },
        DeleteOutcome::Forbidden => Reply::ErrorPage { kind: ErrorKind::Forbidden, cookie },
        DeleteOutcome::Failed => Reply::ErrorPage { kind: ErrorKind::InternalError, cookie },
    }
}

/// The reply to a file lookup: the response for the file or the listing
/// with the cookie spliced in, or the error page 404 or 403.
pub open spec fn file_reply_view(file_response: FileResponse, cookie: Option<Seq<u8>>) -> ReplyView {
    match file_response {
        FileResponse::NotFound => ReplyView::ErrorPage { kind: ErrorKind::NotFound, cookie },
        FileResponse::Forbidden => ReplyView::ErrorPage { kind: ErrorKind::Forbidden, cookie },
        _ => ReplyView::Ready(with_cookie(file_response_bytes(file_response), cookie)),
    }
}

/// Answers for a file that was looked up.
pub fn file_reply(file_response: FileResponse, cookie: Option<String>) -> (r: Reply)
    ensures
        r@ == file_reply_view(file_response, opt_bytes(cookie)),
{
    match file_response {
        FileResponse::NotFound => Reply::ErrorPage { kind: ErrorKind::NotFound, cookie },
        FileResponse::Forbidden => Reply::ErrorPage { kind: ErrorKind::Forbidden, cookie },
        FileResponse::Found(contents) => Reply::Ready(
            attach_cookie(build_http_response(FileResponse::Found(contents)), cookie),
        ),
        FileResponse::DirectoryListing(html) => Reply::Ready(
            attach_cookie(build_http_response(FileResponse::DirectoryListing(html)), cookie),
        ),
    }
}

/// The reply to an upload that ended with `result`: the response for the
/// result with the cookie spliced in.
pub open spec fn upload_reply_bytes(result: UploadResult, cookie: Option<Seq<u8>>) -> Seq<u8> {
    with_cookie(upload_response_bytes(result), cookie)
}

/// Answers for an upload that ended with `result`.
pub fn upload_reply(result: UploadResult, cookie: Option<String>) -> (out: Vec<u8>)
    ensures
        out@ == upload_reply_bytes(result, opt_bytes(cookie)),
{
    attach_cookie(build_upload_response(result), cookie)
}

/// Answers for an upload whose file was handed to storage: 200 when it was
/// stored, 500 when storage failed.
pub fn stored_upload_reply(stored: bool, cookie: Option<String>) -> (out: Vec<u8>)
    ensures
        stored ==> out@ == upload_reply_bytes(UploadResult::Stored, opt_bytes(cookie)),
        !stored ==> out@ == upload_reply_bytes(UploadResult::InternalError, opt_bytes(cookie)),
{
    upload_reply(upload_result(stored), cookie)
}

/// An upload whose file was stored is answered with status 200 and the
/// page that says so, with the cookie, if one is to be set, as one
/// `Set-Cookie` line at the end of the head.
pub proof fn lemma_stored_upload_reply(cookie: Option<Seq<u8>>)
    ensures
        upload_reply_bytes(UploadResult::Stored, cookie) == (match cookie {
            Some(c) => html_page_head(
                lit("200 OK"),
                lit("<h1>\u{2705} File uploaded successfully!</h1>"),
            ) + crlf() + set_cookie_line(c) + crlf() + lit(
                "<h1>\u{2705} File uploaded successfully!</h1>",
            ),
            None => html_page_head(
                lit("200 OK"),
                lit("<h1>\u{2705} File uploaded successfully!</h1>"),
            ) + blank_line() + lit("<h1>\u{2705} File uploaded successfully!</h1>"),
        }),
{
    lemma_ok_status();
    let body = lit("<h1>\u{2705} File uploaded successfully!</h1>");
    match cookie {
        Some(c) => lemma_page_with_cookie(lit("200 OK"), body, c),
        None => lemma_page_with_cookie(lit("200 OK"), body, Seq::empty()),
    }
}

} // verus!
