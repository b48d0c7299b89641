//! What the static-file collaborator hands back, and the responses for it.

use vstd::prelude::*;
use vstd::string::*;
use crate::pages::{html_page, html_page_bytes};
use crate::text::{lit, text_bytes};
use crate::utf8::string_bytes;

verus! {

/// The outcome of looking a path up under a document root: the bytes of a
/// file, nothing there, not allowed, or the markup of a directory listing.
#[derive(Debug)]
pub enum FileResponse {
    Found(Vec<u8>),
    NotFound,
    Forbidden,
    DirectoryListing(String),
}

/// One name in a directory, and whether it is a directory itself.
#[derive(Debug)]
pub struct DirEntry {
    pub name: String,
    pub is_dir: bool,
}

/// The response for a file outcome.
pub open spec fn file_response_bytes(file_response: FileResponse) -> Seq<u8> {
    match file_response {
        FileResponse::Found(contents) => html_page_bytes(lit("200 OK"), contents@),
        FileResponse::NotFound => html_page_bytes(
            lit("404 Not Found"),
            lit("<h1>404 Not Found</h1>"),
        ),
        FileResponse::Forbidden => html_page_bytes(
            lit("403 Forbidden"),
            lit("<h1>403 Forbidden</h1>"),
        ),
        FileResponse::DirectoryListing(html) => html_page_bytes(lit("200 OK"), text_bytes(html@)),
    }
}

/// Renders the response for a file outcome: 200 with the file's bytes or
/// with the listing's markup, 404 or 403 with a short page.
pub fn build_http_response(file_response: FileResponse) -> (out: Vec<u8>)
    ensures
        out@ == file_response_bytes(file_response),
{
    match file_response {
        FileResponse::Found(contents) => html_page("200 OK", contents.as_slice()),
        FileResponse::NotFound => html_page("404 Not Found", "<h1>404 Not Found</h1>".as_bytes()),
        FileResponse::Forbidden => html_page("403 Forbidden", "<h1>403 Forbidden</h1>".as_bytes()),
        FileResponse::DirectoryListing(html) => html_page("200 OK", string_bytes(&html)),
    }
}

/// The name under which a directory entry is listed: directories end in a
/// slash.
pub open spec fn display_name(name: Seq<char>, is_dir: bool) -> Seq<char> {
    if is_dir {
        name + "/"@
    } else {
        name
    }
}

/// The list items of a directory listing, one per entry.
pub open spec fn listing_items(entries: Seq<DirEntry>) -> Seq<char>
    decreases entries.len(),
{
    if entries.len() == 0 {
        Seq::empty()
    } else {
        let last = entries.last();
        let shown = display_name(last.name@, last.is_dir);
        listing_items(entries.drop_last()) + "<li><a href=\""@ + shown + "\">"@ + shown
            + "</a></li>"@
    }
}

/// The markup of a directory listing.
pub open spec fn listing_markup(entries: Seq<DirEntry>) -> Seq<char> {
    "<html><body><h1>Directory listing</h1><ul>"@ + listing_items(entries)
        + "</ul></body></html>"@
}

/// Renders the markup of a directory listing: a heading and one link per
/// entry, in the order given.
pub fn render_directory_listing(entries: &Vec<DirEntry>) -> (html: String)
    ensures
        html@ == listing_markup(entries@),
{
    let mut html = String::from_str("<html><body><h1>Directory listing</h1><ul>");
    let mut i: usize = 0;
    assert(entries@.take(0) =~= Seq::<DirEntry>::empty());
    while i < entries.len()
        invariant
            i <= entries.len(),
            html@ == "<html><body><h1>Directory listing</h1><ul>"@ + listing_items(
                entries@.take(i as int),
            ),
        decreases entries.len() - i,
    {
        let mut shown = entries[i].name.clone();
        if entries[i].is_dir {
            shown.append("/");
        }
        html.append("<li><a href=\"");
        html.append(shown.as_str());
        html.append("\">");
        html.append(shown.as_str());
        html.append("</a></li>");
        proof {
            let next = entries@.take(i + 1);
            assert(next.drop_last() =~= entries@.take(i as int));
            assert(next.last() == entries@[i as int]);
            assert(html@ =~= "<html><body><h1>Directory listing</h1><ul>"@ + listing_items(next));
        }
        i += 1;
    }
    assert(entries@.take(entries.len() as int) =~= entries@);
    html.append("</ul></body></html>");
    html
}

} // verus!
