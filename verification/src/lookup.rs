//! The decisions around the file system: what to do with a request path
//! once the file system has said what the path resolves to. The caller
//! asks the file system; the functions here say what follows.

use vstd::prelude::*;
use vstd::slice::*;
use vstd::string::*;
use crate::replies::{
    delete_reply_view, error_code, error_response, file_reply_view, DeleteOutcome, ErrorKind,
    ReplyView,
};
use crate::static_file::{listing_markup, render_directory_listing, DirEntry, FileResponse};
use crate::text::{bytes_eq, find, find_from, lemma_find_some, lit, text_bytes};

verus! {

/// What the file system says of a request path under a document root: it
/// does not resolve, it resolves to a place outside the root, or it
/// resolves inside the root to a directory or to a file.
#[derive(Debug, Clone, Copy, PartialEq, Eq)]
pub enum PathProbe {
    Missing,
    Outside,
    Directory,
    File,
}

/// What became of the removal of a file that was there a moment ago.
#[derive(Debug, Clone, Copy, PartialEq, Eq)]
pub enum RemovalResult {
    Removed,
    NotFound,
    Failed,
}

/// The slash, as bytes.
pub open spec fn slash() -> Seq<u8> {
    lit("/")
}

/// The slash is one byte.
pub proof fn lemma_slash()
    ensures
        slash().len() == 1,
{
    reveal_strlit("/");
    let s = "/";
    assert(s@.len() == 1);
    assert(is_ascii(s));
    is_ascii_spec_bytes(s);
}

/// How deep below the directory it starts in a walk along a path is after
/// one more component: `..` leads one up, an empty component and `.` stay,
/// and any other component leads one down.
pub open spec fn depth_after(depth: int, component: Seq<u8>) -> int {
    if component == lit("..") {
        depth - 1
    } else if component.len() == 0 || component == lit(".") {
        depth
    } else {
        depth + 1
    }
}

/// A walk along the components of `path` from offset `pos` on, which
/// starts `depth` directories below the root, leaves the root at some
/// point. Components are separated by slashes.
pub open spec fn climbs_out_from(path: Seq<u8>, pos: int, depth: int) -> bool
    decreases path.len() + 1 - pos,
{
    if pos < 0 || pos > path.len() {
        false
    } else {
        match find_from(path, slash(), pos) {
            Some(e) => {
                proof {
                    lemma_slash();
                    lemma_find_some(path, slash(), pos);
                }
                let next = depth_after(depth, path.subrange(pos, e));
                next < 0 || climbs_out_from(path, e + 1, next)
            },
            None => depth_after(depth, path.skip(pos)) < 0,
        }
    }
}

/// The relative path leaves the directory it is relative to: read
/// component by component, it leads above that directory at some point.
pub open spec fn climbs_out(path: Seq<u8>) -> bool {
    climbs_out_from(path, 0, 0)
}

/// Whether a relative path leaves the directory it is relative to, by its
/// text alone.
pub fn path_climbs_out(path: &str) -> (r: bool)
    ensures
        r == climbs_out(text_bytes(path@)),
{
    let bytes = path.as_bytes();
    let n: usize = bytes.len();
    let mut pos: usize = 0;
    let mut depth: usize = 0;
    loop
        invariant
            pos <= n,
            n == bytes.len(),
            depth <= pos,
            bytes@ == text_bytes(path@),
            climbs_out(bytes@) == climbs_out_from(bytes@, pos as int, depth as int),
        decreases n - pos,
    {
        let found = find(bytes, "/".as_bytes(), pos);
        let e: usize = match found {
            Some(e) => e,
            None => n,
        };
        proof {
            lemma_slash();
            if found is Some {
                lemma_find_some(bytes@, slash(), pos as int);
            }
        }
        let component = slice_subrange(bytes, pos, e);
        assert(found is None ==> component@ =~= bytes@.skip(pos as int));
        if bytes_eq(component, "..".as_bytes()) {
            if depth == 0 {
                return true;
            }
            depth = depth - 1;
        } else if e > pos && !bytes_eq(component, ".".as_bytes()) {
            depth = depth + 1;
        }
        if found.is_none() {
            return false;
        }
        pos = e + 1;
    }
}

/// What to take a path for that the file system could not resolve: a path
/// that leaves the document root by its text is outside the root, and any
/// other is missing.
pub open spec fn unresolved_plan(rel_path: Seq<u8>) -> PathProbe {
    if climbs_out(rel_path) {
        PathProbe::Outside
    } else {
        PathProbe::Missing
    }
}

/// Decides what to take a path for that the file system could not
/// resolve.
pub fn unresolved_probe(rel_path: &str) -> (probe: PathProbe)
    ensures
        probe == unresolved_plan(text_bytes(rel_path@)),
{
    if path_climbs_out(rel_path) {
        PathProbe::Outside
    } else {
        PathProbe::Missing
    }
}

/// What a file lookup does next.
#[derive(Debug)]
pub enum LookupStep {
    /// Nothing: the outcome is known.
    Done(FileResponse),
    /// Read the file that the path resolves to, then see `read_outcome`.
    ReadFile,
    /// Ask whether the directory has the route's index file, then see
    /// `index_step`.
    ProbeIndex,
    /// Read the index file of the directory, then see `read_outcome`.
    ReadIndex,
    /// Read the names in the directory, then see `listing_outcome`.
    ListDirectory,
}

/// What to do with a directory that has no index file to serve: list it if
/// the route lists directories, and forbid it otherwise.
pub open spec fn bare_directory_plan(directory_listing: bool) -> LookupStep {
    if directory_listing {
        LookupStep::ListDirectory
    } else {
        LookupStep::Done(FileResponse::Forbidden)
    }
}

/// The first step of a lookup. A path that does not resolve is not found.
/// A path that resolves outside the document root is forbidden, whatever
/// the route offers. A file is read. A directory is looked into for the
/// index file if the route names one, and is else treated as a bare
/// directory.
pub open spec fn lookup_plan(probe: PathProbe, has_index: bool, directory_listing: bool) -> LookupStep {
    match probe {
        PathProbe::Missing => LookupStep::Done(FileResponse::NotFound),
        PathProbe::Outside => LookupStep::Done(FileResponse::Forbidden),
        PathProbe::File => LookupStep::ReadFile,
        PathProbe::Directory => if has_index {
            LookupStep::ProbeIndex
        } else {
            bare_directory_plan(directory_listing)
        },
    }
}

/// The step after the index file was asked for: it is read if it is
/// there, and the directory is else treated as a bare directory.
pub open spec fn index_plan(index_is_file: bool, directory_listing: bool) -> LookupStep {
    if index_is_file {
        LookupStep::ReadIndex
    } else {
        bare_directory_plan(directory_listing)
    }
}

/// Decides the first step of a lookup.
pub fn lookup_step(probe: PathProbe, has_index: bool, directory_listing: bool) -> (step: LookupStep)
    ensures
        step == lookup_plan(probe, has_index, directory_listing),
{
    match probe {
        PathProbe::Missing => LookupStep::Done(FileResponse::NotFound),
        PathProbe::Outside => LookupStep::Done(FileResponse::Forbidden),
        PathProbe::File => LookupStep::ReadFile,
        PathProbe::Directory => {
            if has_index {
                LookupStep::ProbeIndex
            } else if directory_listing {
                LookupStep::ListDirectory
            } else {
                LookupStep::Done(FileResponse::Forbidden)
            }
        },
    }
}

/// Decides the step after the index file was asked for.
pub fn index_step(index_is_file: bool, directory_listing: bool) -> (step: LookupStep)
    ensures
        step == index_plan(index_is_file, directory_listing),
{
    if index_is_file {
        LookupStep::ReadIndex
    } else if directory_listing {
        LookupStep::ListDirectory
    } else {
        LookupStep::Done(FileResponse::Forbidden)
    }
}

/// The outcome of reading a file: its bytes, or not found when it could
/// not be read.
pub fn read_outcome(contents: Option<Vec<u8>>) -> (r: FileResponse)
    ensures
        match contents {
            Some(bytes) => r == FileResponse::Found(bytes),
            None => r is NotFound,
        },
{
    match contents {
        Some(bytes) => FileResponse::Found(bytes),
        None => FileResponse::NotFound,
    }
}

/// The outcome of listing a directory: the markup for its entries.
pub fn listing_outcome(entries: &Vec<DirEntry>) -> (r: FileResponse)
    ensures
        r is DirectoryListing,
        r->DirectoryListing_0@ == listing_markup(entries@),
{
    FileResponse::DirectoryListing(render_directory_listing(entries))
}

/// What a removal comes to before the file is touched, if that is decided
/// by the probe alone: a path that does not resolve is missing, and a path
/// that resolves outside the document root or to a directory may not be
/// removed. `None` for a file, which is then to be removed.
pub open spec fn delete_plan(probe: PathProbe) -> Option<DeleteOutcome> {
    match probe {
        PathProbe::Missing => Some(DeleteOutcome::Missing),
        PathProbe::Outside => Some(DeleteOutcome::Forbidden),
        PathProbe::Directory => Some(DeleteOutcome::Forbidden),
        PathProbe::File => None,
    }
}

/// What the removal of a file comes to.
pub open spec fn removal_plan(result: RemovalResult) -> DeleteOutcome {
    match result {
        RemovalResult::Removed => DeleteOutcome::Removed,
        RemovalResult::NotFound => DeleteOutcome::Missing,
        RemovalResult::Failed => DeleteOutcome::Failed,
    }
}

/// Decides a removal by the probe, where the probe decides it.
pub fn delete_step(probe: PathProbe) -> (r: Option<DeleteOutcome>)
    ensures
        r == delete_plan(probe),
{
    match probe {
        PathProbe::Missing => Some(DeleteOutcome::Missing),
        PathProbe::Outside => Some(DeleteOutcome::Forbidden),
        PathProbe::Directory => Some(DeleteOutcome::Forbidden),
        PathProbe::File => None,
    }
}

/// The outcome of a removal that was tried.
pub fn removal_outcome(result: RemovalResult) -> (r: DeleteOutcome)
    ensures
        r == removal_plan(result),
{
    match result {
        RemovalResult::Removed => DeleteOutcome::Removed,
        RemovalResult::NotFound => DeleteOutcome::Missing,
        RemovalResult::Failed => DeleteOutcome::Failed,
    }
}

/// The outcome of a `DELETE` for a probe and, where the file is to be
/// removed, the result of the removal.
pub open spec fn delete_outcome(probe: PathProbe, result: RemovalResult) -> DeleteOutcome {
    match delete_plan(probe) {
        Some(outcome) => outcome,
        None => removal_plan(result),
    }
}

/// A path that resolves outside the document root is answered with the
/// error page 403, for a lookup and for a removal alike, whatever the
/// route offers and whatever the removal would have come to. Nothing of
/// what the path resolves to is read or removed.
pub proof fn lemma_outside_root_is_forbidden(
    has_index: bool,
    directory_listing: bool,
    result: RemovalResult,
    custom: Option<Seq<u8>>,
    cookie: Option<Seq<u8>>,
)
    ensures
        lookup_plan(PathProbe::Outside, has_index, directory_listing) == LookupStep::Done(
            FileResponse::Forbidden,
        ),
        file_reply_view(FileResponse::Forbidden, cookie) == (ReplyView::ErrorPage {
            kind: ErrorKind::Forbidden,
            cookie,
        }),
        delete_reply_view(delete_outcome(PathProbe::Outside, result), cookie) == (
        ReplyView::ErrorPage { kind: ErrorKind::Forbidden, cookie }),
        error_response(ErrorKind::Forbidden, custom, cookie).status_code == 403,
        error_code(ErrorKind::Forbidden) == 403,
{
}

/// A `DELETE` is answered with a finished response, the one with status
/// 200, exactly when the path resolved to a file and the file was removed.
/// A file that was removed is no longer there, so a second `DELETE` of the
/// same path meets a path that does not resolve, or a removal that finds
/// nothing, and is answered with the error page 404.
pub proof fn lemma_delete_answers(probe: PathProbe, result: RemovalResult, cookie: Option<Seq<u8>>)
    ensures
        delete_reply_view(delete_outcome(probe, result), cookie) is Ready <==> probe
            == PathProbe::File && result == RemovalResult::Removed,
        probe == PathProbe::Missing || (probe == PathProbe::File && result
            == RemovalResult::NotFound) ==> delete_reply_view(
            delete_outcome(probe, result),
            cookie,
        ) == (ReplyView::ErrorPage { kind: ErrorKind::NotFound, cookie }),
        error_code(ErrorKind::NotFound) == 404,
{
}

/// A request for what lies outside the document root. A path that the
/// file system does not resolve and that leaves the root by its text is
/// taken to be outside the root, and whatever is outside the root is
/// forbidden, for a lookup and for a removal alike.
pub proof fn lemma_climbing_path_is_forbidden(
    rel_path: Seq<u8>,
    has_index: bool,
    directory_listing: bool,
)
    requires
        climbs_out(rel_path),
    ensures
        lookup_plan(unresolved_plan(rel_path), has_index, directory_listing) == LookupStep::Done(
            FileResponse::Forbidden,
        ),
        delete_plan(unresolved_plan(rel_path)) == Some(DeleteOutcome::Forbidden),
{
}

} // verus!
