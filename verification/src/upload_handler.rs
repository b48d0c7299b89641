//! Uploads: the multipart extractor, which finds the first file part of a
//! form body, and the responses for what became of an upload.

use vstd::prelude::*;
use vstd::slice::*;
use vstd::string::*;
use vstd::utf8::valid_utf8;
use crate::pages::{html_page, html_page_bytes};
use crate::requests::{blank_line, lemma_blank_line};
use crate::text::{
    contains, find, find_from, lemma_find_some, lit, occurs_at, starts_with, text_bytes,
};
use crate::utf8::{is_utf8, lemma_char_start_after_ascii, string_bytes, text_piece};

verus! {

/// The largest body that an upload may have, in bytes: 5 MiB.
pub const MAX_UPLOAD_SIZE: usize = 5 * 1024 * 1024;

/// What became of an upload.
#[derive(Debug)]
pub enum UploadResult {
    Stored,
    PayloadTooLarge,
    BadRequest,
    InternalError,
}

/// A file taken out of a form body: its name and its bytes.
#[derive(Debug)]
pub struct UploadedFile {
    pub filename: String,
    pub content: Vec<u8>,
}

/// A file, with its name as UTF-8 bytes.
pub ghost struct UploadView {
    pub filename: Seq<u8>,
    pub content: Seq<u8>,
}

impl View for UploadedFile {
    type V = UploadView;

    open spec fn view(&self) -> UploadView {
        UploadView { filename: text_bytes(self.filename@), content: self.content@ }
    }
}

/// A stretch of a text, from `start` up to `end`.
pub ghost struct Span {
    pub start: int,
    pub end: int,
}

/// The text that introduces a boundary token in a content type.
pub open spec fn boundary_key() -> Seq<u8> {
    lit("boundary=")
}

/// The text that introduces a file name in the head of a part, up to and
/// including the opening quote.
pub open spec fn filename_key() -> Seq<u8> {
    lit("filename=\"")
}

/// The double quote, as bytes.
pub open spec fn quote() -> Seq<u8> {
    lit("\"")
}

/// The two hyphens that precede the boundary token in a delimiter.
pub open spec fn hyphens() -> Seq<u8> {
    lit("--")
}

/// The literal texts of the extractor, byte by byte as far as the proofs
/// need them.
pub proof fn lemma_upload_literals()
    ensures
        quote() == seq![34u8],
        hyphens().len() == 2,
        filename_key().len() == 10,
        filename_key()[9] == 34u8,
{
    reveal_strlit("\"");
    let q = "\"";
    assert(q@.len() == 1);
    assert(is_ascii(q));
    is_ascii_spec_bytes(q);
    assert(q.spec_bytes() =~= seq![34u8]);
    reveal_strlit("--");
    let h = "--";
    assert(h@.len() == 2);
    assert(is_ascii(h));
    is_ascii_spec_bytes(h);
    reveal_strlit("filename=\"");
    let f = "filename=\"";
    assert(f@.len() == 10);
    assert(is_ascii(f));
    is_ascii_spec_bytes(f);
    assert(f@[9] == '"');
}

/// The boundary token of a content type: what follows the first
/// `boundary=`, up to the next `boundary=` or the end.
pub open spec fn boundary_token(content_type: Seq<u8>) -> Option<Seq<u8>> {
    match find_from(content_type, boundary_key(), 0) {
        None => None,
        Some(p) => {
            let start = p + boundary_key().len();
            match find_from(content_type, boundary_key(), start) {
                Some(e) => Some(content_type.subrange(start, e)),
                None => Some(content_type.skip(start)),
            }
        },
    }
}

/// The first part of `text` at or after offset `pos` that has a file name
/// in it. Parts are what lies between occurrences of `delimiter`, and
/// before the first and after the last one.
pub open spec fn file_part_from(text: Seq<u8>, delimiter: Seq<u8>, pos: int) -> Option<Span>
    decreases text.len() - pos,
{
    if pos < 0 || pos > text.len() || delimiter.len() == 0 {
        None
    } else {
        match find_from(text, delimiter, pos) {
            Some(d) => {
                proof {
                    lemma_find_some(text, delimiter, pos);
                }
                if contains(text.subrange(pos, d), filename_key()) {
                    Some(Span { start: pos, end: d })
                } else {
                    file_part_from(text, delimiter, d + delimiter.len())
                }
            },
            None => {
                if contains(text.skip(pos), filename_key()) {
                    Some(Span { start: pos, end: text.len() as int })
                } else {
                    None
                }
            },
        }
    }
}

/// The file that a part holds. Its name lies between the first
/// `filename="` and the next double quote; its bytes are all that follows
/// the first blank line of the part. `None` when the quote or the blank
/// line is missing.
pub open spec fn file_in_part(part: Seq<u8>) -> Option<UploadView> {
    match find_from(part, filename_key(), 0) {
        None => None,
        Some(k) => {
            let f = k + filename_key().len();
            match find_from(part, quote(), f) {
                None => None,
                Some(q) => match find_from(part, blank_line(), 0) {
                    None => None,
                    Some(b) => Some(
                        UploadView {
                            filename: part.subrange(f, q),
                            content: part.skip(b + blank_line().len()),
                        },
                    ),
                },
            }
        },
    }
}

/// A file name that stays inside the directory it is stored in: it has no
/// slash and no backslash in it, and no two dots in a row.
pub open spec fn plain_file_name(name: Seq<u8>) -> bool {
    !contains(name, lit("/")) && !contains(name, lit("\\")) && !contains(name, lit(".."))
}

/// Whether a file name stays inside the directory it is stored in.
pub fn is_plain_file_name(name: &[u8]) -> (r: bool)
    ensures
        r == plain_file_name(name@),
{
    find(name, "/".as_bytes(), 0).is_none() && find(name, "\\".as_bytes(), 0).is_none() && find(
        name,
        "..".as_bytes(),
        0,
    ).is_none()
}

/// What an upload request comes to: the file to store, or the result that
/// ends the upload without storing anything.
///
/// A body of more than `MAX_UPLOAD_SIZE` bytes is too large, whatever else
/// holds. Otherwise the request is bad unless the content type begins
/// `multipart/form-data; boundary=`, the body, which is taken as it is, is
/// valid UTF-8, one of its parts has a file name, that part has a closing quote
/// after the name and a blank line, and the name is a plain file name. So
/// no file that is handed out for storing can lie outside the directory
/// that uploads are stored in.
pub open spec fn upload_plan(body: Seq<u8>, content_type: Seq<u8>) -> Result<
    UploadView,
    UploadResult,
> {
    if body.len() > MAX_UPLOAD_SIZE {
        Err(UploadResult::PayloadTooLarge)
    } else if !lit("multipart/form-data; boundary=").is_prefix_of(content_type) {
        Err(UploadResult::BadRequest)
    } else {
        match boundary_token(content_type) {
            Some(token) => {
                if valid_utf8(body) {
                    match file_part_from(body, hyphens() + token, 0) {
                        Some(span) => match file_in_part(body.subrange(span.start, span.end)) {
                            Some(file) => if plain_file_name(file.filename) {
                                Ok(file)
                            } else {
                                Err(UploadResult::BadRequest)
                            },
                            None => Err(UploadResult::BadRequest),
                        },
                        None => Err(UploadResult::BadRequest),
                    }
                } else {
                    Err(UploadResult::BadRequest)
                }
            },
            None => Err(UploadResult::BadRequest),
        }
    }
}

/// Reads the boundary token of a content type.
fn read_boundary_token<'a>(content_type: &'a [u8]) -> (r: Option<&'a [u8]>)
    ensures
        match r {
            Some(token) => boundary_token(content_type@) == Some(token@),
            None => boundary_token(content_type@) is None,
        },
{
    let key = "boundary=".as_bytes();
    match find(content_type, key, 0) {
        None => None,
        Some(p) => {
            proof {
                assert(find_from(content_type@, boundary_key(), 0) == Some(p as int));
                lemma_find_some(content_type@, boundary_key(), 0);
                assert(occurs_at(content_type@, boundary_key(), p as int));
                assert(p + key.len() <= content_type.len());
            }
            let start: usize = p + key.len();
            match find(content_type, key, start) {
                Some(e) => {
                    proof {
                        lemma_find_some(content_type@, boundary_key(), start as int);
                    }
                    Some(slice_subrange(content_type, start, e))
                },
                None => {
                    let token = slice_subrange(content_type, start, content_type.len());
                    assert(token@ =~= content_type@.skip(start as int));
                    Some(token)
                },
            }
        },
    }
}

/// Finds the first part of `text` that has a file name in it.
fn find_file_part(text: &[u8], delimiter: &[u8]) -> (r: Option<(usize, usize)>)
    requires
        delimiter.len() > 0,
    ensures
        match r {
            Some((start, end)) => file_part_from(text@, delimiter@, 0) == Some(
                Span { start: start as int, end: end as int },
            ) && start <= end <= text.len(),
            None => file_part_from(text@, delimiter@, 0) is None,
        },
{
    let n: usize = text.len();
    let mut pos: usize = 0;
    loop
        invariant
            pos <= n,
            n == text.len(),
            delimiter.len() > 0,
            file_part_from(text@, delimiter@, 0) == file_part_from(text@, delimiter@, pos as int),
        decreases n - pos,
    {
        match find(text, delimiter, pos) {
            Some(d) => {
                proof {
                    lemma_find_some(text@, delimiter@, pos as int);
                }
                let part = slice_subrange(text, pos, d);
                if find(part, "filename=\"".as_bytes(), 0).is_some() {
                    return Some((pos, d));
                }
                pos = d + delimiter.len();
            },
            None => {
                let part = slice_subrange(text, pos, n);
                assert(part@ =~= text@.skip(pos as int));
                if find(part, "filename=\"".as_bytes(), 0).is_some() {
                    return Some((pos, n));
                }
                return None;
            },
        }
    }
}

/// Takes the file out of the part of `text` between `start` and `end`.
fn read_file_in_part(text: &[u8], start: usize, end: usize) -> (r: Option<UploadedFile>)
    requires
        valid_utf8(text@),
        start <= end <= text.len(),
    ensures
        match r {
            Some(file) => file_in_part(text@.subrange(start as int, end as int)) == Some(file@),
            None => file_in_part(text@.subrange(start as int, end as int)) is None,
        },
{
    let part = slice_subrange(text, start, end);
    let key = "filename=\"".as_bytes();
    let k: usize = match find(part, key, 0) {
        Some(k) => k,
        None => {
            return None;
        },
    };
    proof {
        lemma_upload_literals();
        lemma_blank_line();
        lemma_find_some(part@, filename_key(), 0);
        assert(part@.subrange(k as int, k + 10)[9] == 34u8);
    }
    let f: usize = k + key.len();
    let q: usize = match find(part, "\"".as_bytes(), f) {
        Some(q) => q,
        None => {
            return None;
        },
    };
    proof {
        lemma_find_some(part@, quote(), f as int);
        assert(part@.subrange(q as int, q + 1)[0] == 34u8);
    }
    let b: usize = match find(part, "\r\n\r\n".as_bytes(), 0) {
        Some(b) => b,
        None => {
            return None;
        },
    };
    proof {
        lemma_find_some(part@, blank_line(), 0);
        assert(text@[start + f - 1] == 34u8);
        lemma_char_start_after_ascii(text@, start + f - 1);
        assert(text@[start + q] == 34u8);
        assert(text@.subrange(start + f, start + q) =~= part@.subrange(f as int, q as int));
    }
    let filename = text_piece(text, start + f, start + q);
    let rest = slice_subrange(part, b + 4, part.len());
    assert(rest@ =~= part@.skip(b + 4));
    Some(UploadedFile { filename, content: slice_to_vec(rest) })
}

/// Decides what an upload request comes to: `Ok` with the first file of
/// the form, which is then to be stored, or `Err` with the result that
/// ends the upload.
pub fn handle_file_upload(body: &[u8], content_type: &str) -> (r: Result<
    UploadedFile,
    UploadResult,
>)
    ensures
        match upload_plan(body@, text_bytes(content_type@)) {
            Ok(file) => r is Ok && r->Ok_0@ == file,
            Err(e) => r is Err && r->Err_0 == e,
        },
{
    let ct = content_type.as_bytes();
    if body.len() > MAX_UPLOAD_SIZE {
        return Err(UploadResult::PayloadTooLarge);
    }
    if !starts_with(ct, "multipart/form-data; boundary=".as_bytes()) {
        return Err(UploadResult::BadRequest);
    }
    let token = match read_boundary_token(ct) {
        Some(token) => token,
        None => {
            return Err(UploadResult::BadRequest);
        },
    };
    let mut delimiter: Vec<u8> = Vec::new();
    delimiter.extend_from_slice("--".as_bytes());
    delimiter.extend_from_slice(token);
    proof {
        lemma_upload_literals();
        assert(delimiter@ =~= hyphens() + token@);
    }
    let text: &[u8] = body;
    if !is_utf8(text) {
        return Err(UploadResult::BadRequest);
    }
    match find_file_part(text, delimiter.as_slice()) {
        None => Err(UploadResult::BadRequest),
        Some((start, end)) => match read_file_in_part(text, start, end) {
            Some(file) => {
                if is_plain_file_name(string_bytes(&file.filename)) {
                    Ok(file)
                } else {
                    Err(UploadResult::BadRequest)
                }
            },
            None => Err(UploadResult::BadRequest),
        },
    }
}

/// A file that an upload hands out for storing has a plain file name.
pub proof fn lemma_stored_name_is_plain(body: Seq<u8>, content_type: Seq<u8>)
    ensures
        upload_plan(body, content_type) matches Ok(file) ==> plain_file_name(file.filename),
{
}

/// The result of an upload whose file was handed to storage: stored, or an
/// internal error when storage failed.
pub fn upload_result(stored: bool) -> (r: UploadResult)
    ensures
        stored ==> r is Stored,
        !stored ==> r is InternalError,
{
    if stored {
        UploadResult::Stored
    } else {
        UploadResult::InternalError
    }
}

/// The response for the result of an upload.
pub open spec fn upload_response_bytes(result: UploadResult) -> Seq<u8> {
    match result {
        UploadResult::Stored => html_page_bytes(
            lit("200 OK"),
            lit("<h1>\u{2705} File uploaded successfully!</h1>"),
        ),
        UploadResult::PayloadTooLarge => html_page_bytes(
            lit("413 Payload Too Large"),
            lit("<h1>413 Payload Too Large</h1>"),
        ),
        UploadResult::BadRequest => html_page_bytes(
            lit("400 Bad Request"),
            lit("<h1>400 Bad Request</h1>"),
        ),
        UploadResult::InternalError => html_page_bytes(
            lit("500 Internal Server Error"),
            lit("<h1>500 Internal Server Error</h1>"),
        ),
    }
}

/// Renders the response for the result of an upload: 200, 413, 400 or 500
/// with a short page.
pub fn build_upload_response(result: UploadResult) -> (out: Vec<u8>)
    ensures
        out@ == upload_response_bytes(result),
{
    match result {
        UploadResult::Stored => html_page(
            "200 OK",
            "<h1>\u{2705} File uploaded successfully!</h1>".as_bytes(),
        ),
        UploadResult::PayloadTooLarge => html_page(
            "413 Payload Too Large",
            "<h1>413 Payload Too Large</h1>".as_bytes(),
        ),
        UploadResult::BadRequest => html_page(
            "400 Bad Request",
            "<h1>400 Bad Request</h1>".as_bytes(),
        ),
        UploadResult::InternalError => html_page(
            "500 Internal Server Error",
            "<h1>500 Internal Server Error</h1>".as_bytes(),
        ),
    }
}

} // verus!
