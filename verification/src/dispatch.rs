//! The dispatch pipeline: from the bytes of one complete message to what
//! is to be done for it.
//!
//! The pipeline parses the request, resolves its session, selects a route
//! and classifies the action in a fixed precedence: redirection, method
//! gate, script, upload, delete, static file. Whatever needs the file
//! system or a subprocess is handed back as a `Plan`. The caller carries
//! the plan out and hands the outcome to one of the functions of
//! `replies`, which says what to answer.

use vstd::prelude::*;
use vstd::slice::*;
use vstd::string::*;
use vstd::utf8::valid_utf8;
use crate::replies::{
    opt_bytes, redirect_reply, redirect_response, upload_reply, upload_reply_bytes, ErrorKind,
    Reply, ReplyView,
};
use crate::requests::{parse_http_request, parsed, response_bytes, Request, RequestView};
use crate::router::{route_paths, select_route, selected};
use crate::server_config::{RouterConfig, ServerConfig};
use crate::session_manager::{
    cookie_bytes, is_session_id, known_session, store_put, SessionManager, SessionView,
};
use crate::string_map::{lookup, Entry};
use crate::text::{bytes_eq, contains, ends_with, find, lit, text_bytes};
use crate::upload_handler::{
    handle_file_upload, plain_file_name, upload_plan, UploadView, UploadedFile,
};
use crate::utf8::{
    char_start, joined_text, lemma_text_is_valid, string_bytes, string_from_utf8, text_piece,
};

verus! {

/// What is to be done for a request.
#[derive(Debug)]
pub enum Plan {
    /// Nothing more: the reply is known.
    Reply(Reply),
    /// Run a script with `input` on its standard input and `path_info` in
    /// its environment, then answer with `script_reply`.
    RunScript { script_path: String, input: String, path_info: String, cookie: Option<String> },
    /// Store an uploaded file, then answer with `stored_upload_reply`.
    StoreUpload { file: UploadedFile, cookie: Option<String> },
    /// Remove the file at `rel_path` under `root`, then answer with
    /// `delete_reply`.
    DeleteFile { root: String, rel_path: String, cookie: Option<String> },
    /// Look the file at `rel_path` up under `root`, then answer with
    /// `file_reply`.
    ServeFile {
        rel_path: String,
        root: String,
        index: Option<String>,
        directory_listing: bool,
        cookie: Option<String>,
    },
}

/// A plan, with every text as its UTF-8 bytes.
pub ghost enum PlanView {
    Reply(ReplyView),
    RunScript {
        script_path: Seq<u8>,
        input: Seq<u8>,
        path_info: Seq<u8>,
        cookie: Option<Seq<u8>>,
    },
    StoreUpload { file: UploadView, cookie: Option<Seq<u8>> },
    DeleteFile { root: Seq<u8>, rel_path: Seq<u8>, cookie: Option<Seq<u8>> },
    ServeFile {
        rel_path: Seq<u8>,
        root: Seq<u8>,
        index: Option<Seq<u8>>,
        directory_listing: bool,
        cookie: Option<Seq<u8>>,
    },
}

impl View for Plan {
    type V = PlanView;

    open spec fn view(&self) -> PlanView {
        match *self {
            Plan::Reply(reply) => PlanView::Reply(reply@),
            Plan::RunScript { script_path, input, path_info, cookie } => PlanView::RunScript {
                script_path: text_bytes(script_path@),
                input: text_bytes(input@),
                path_info: text_bytes(path_info@),
                cookie: opt_bytes(cookie),
            },
            Plan::StoreUpload { file, cookie } => PlanView::StoreUpload {
                file: file@,
                cookie: opt_bytes(cookie),
            },
            Plan::DeleteFile { root, rel_path, cookie } => PlanView::DeleteFile {
                root: text_bytes(root@),
                rel_path: text_bytes(rel_path@),
                cookie: opt_bytes(cookie),
            },
            Plan::ServeFile { rel_path, root, index, directory_listing, cookie } => PlanView::ServeFile {
                rel_path: text_bytes(rel_path@),
                root: text_bytes(root@),
                index: opt_bytes(index),
                directory_listing,
                cookie: opt_bytes(cookie),
            },
        }
    }
}

/// The value of the session cookie for a session id.
pub open spec fn cookie_value(id: Seq<u8>) -> Seq<u8> {
    lit("session_id=") + id + lit("; Path=/; HttpOnly")
}

/// The cookie to set on the response to a request: the one for the
/// session, unless the request's `Cookie` header already has the session's
/// id in it.
pub open spec fn cookie_to_set(cookie_header: Option<Seq<u8>>, id: Seq<u8>) -> Option<Seq<u8>> {
    match cookie_header {
        Some(header) => if contains(header, id) {
            None
        } else {
            Some(cookie_value(id))
        },
        None => Some(cookie_value(id)),
    }
}

/// Decides whether a `Set-Cookie` header is required for the session
/// `id`, and with which value.
pub fn decide_cookie(cookie_header: Option<&str>, id: &String) -> (r: Option<String>)
    ensures
        opt_bytes(r) == cookie_to_set(cookie_bytes(cookie_header), text_bytes(id@)),
{
    let known: bool = match cookie_header {
        Some(header) => find(header.as_bytes(), string_bytes(id), 0).is_some(),
        None => false,
    };
    if known {
        None
    } else {
        proof {
            lemma_text_is_valid("session_id="@);
            lemma_text_is_valid(id@);
            lemma_text_is_valid("; Path=/; HttpOnly"@);
        }
        Some(joined_text("session_id=".as_bytes(), string_bytes(id), "; Path=/; HttpOnly".as_bytes()))
    }
}

/// The route allows the method.
pub open spec fn method_allowed(methods: Seq<String>, method: Seq<u8>) -> bool {
    exists|i: int| 0 <= i < methods.len() && text_bytes(#[trigger] methods[i]@) == method
}

/// The route runs a script for the path: it has one configured, and the
/// path ends with the script's extension.
pub open spec fn wants_script(route: RouterConfig, path: Seq<u8>) -> bool {
    match route.cgi {
        Some((extension, _)) => text_bytes(extension@).is_suffix_of(path),
        None => false,
    }
}

/// The path of the route's script: the script's name under the document
/// root.
pub open spec fn script_path(route: RouterConfig) -> Seq<u8> {
    match route.cgi {
        Some((_, script)) => text_bytes(route.root@) + lit("/") + text_bytes(script@),
        None => Seq::empty(),
    }
}

/// What a script gets on its standard input: the body when it is valid
/// UTF-8, and nothing otherwise.
pub open spec fn script_input(body: Seq<u8>) -> Seq<u8> {
    if valid_utf8(body) {
        body
    } else {
        Seq::empty()
    }
}

/// The request is an upload: a `POST` on the route whose path is exactly
/// `/upload`.
pub open spec fn is_upload(route: RouterConfig, req: RequestView) -> bool {
    req.method == lit("POST") && text_bytes(route.path@) == lit("/upload")
}

/// The content type of a request; empty without a `Content-Type` header.
pub open spec fn content_type_of(headers: Seq<Entry>) -> Seq<u8> {
    match lookup(headers, lit("Content-Type")) {
        Some(v) => v,
        None => lit(""),
    }
}

/// The path of a request relative to a document root: nothing for `/`,
/// else the path without its first byte. `None` when the path is empty or
/// its first byte is only a part of a character.
pub open spec fn relative_path(path: Seq<u8>) -> Option<Seq<u8>> {
    if path == lit("/") {
        Some(lit(""))
    } else if path.len() >= 1 && char_start(path, 1) {
        Some(path.skip(1))
    } else {
        None
    }
}

/// Whether the route lists directories; not unless it says so.
pub open spec fn lists_directories(route: RouterConfig) -> bool {
    match route.directory_listing {
        Some(b) => b,
        None => false,
    }
}

/// What is to be done for a request on the route that was selected for
/// it, in this precedence:
///
/// 1. a route with a redirection redirects, whatever the method;
/// 2. a method that the route does not allow gets the error page 405;
/// 3. a path that ends with the extension of the route's script runs it;
/// 4. a `POST` on the route `/upload` is an upload: either its file is to
///    be stored, or the upload is answered at once;
/// 5. a `DELETE` removes the file at the relative path;
/// 6. anything else serves the file at the relative path.
///
/// A path without a relative path gets the error page 400 in cases 5 and
/// 6.
pub open spec fn route_plan(route: RouterConfig, req: RequestView, cookie: Option<Seq<u8>>) -> PlanView {
    match route.redirection {
        Some(redir) => PlanView::Reply(
            ReplyView::Ready(
                response_bytes(redirect_response(text_bytes(redir.target@), redir.status, cookie)),
            ),
        ),
        None => {
            if !method_allowed(route.methods@, req.method) {
                PlanView::Reply(ReplyView::ErrorPage { kind: ErrorKind::MethodNotAllowed, cookie })
            } else if wants_script(route, req.path) {
                PlanView::RunScript {
                    script_path: script_path(route),
                    input: script_input(req.body),
                    path_info: req.path,
                    cookie,
                }
            } else if is_upload(route, req) {
                match upload_plan(req.body, content_type_of(req.headers)) {
                    Ok(file) => PlanView::StoreUpload { file, cookie },
                    Err(result) => PlanView::Reply(
                        ReplyView::Ready(upload_reply_bytes(result, cookie)),
                    ),
                }
            } else {
                match relative_path(req.path) {
                    None => PlanView::Reply(
                        ReplyView::ErrorPage { kind: ErrorKind::BadRequest, cookie },
                    ),
                    Some(rel_path) => {
                        if req.method == lit("DELETE") {
                            PlanView::DeleteFile { root: text_bytes(route.root@), rel_path, cookie }
                        } else {
                            PlanView::ServeFile {
                                rel_path,
                                root: text_bytes(route.root@),
                                index: opt_bytes(route.index),
                                directory_listing: lists_directories(route),
                                cookie,
                            }
                        }
                    },
                }
            }
        },
    }
}

/// What is to be done for a request: the plan of the selected route, or
/// the error page 404 when no route matches the path.
pub open spec fn planned(req: RequestView, cookie: Option<Seq<u8>>, routes: Seq<RouterConfig>) -> PlanView {
    match selected(route_paths(routes), req.path) {
        Some(i) => route_plan(routes[i], req, cookie),
        None => PlanView::Reply(ReplyView::ErrorPage { kind: ErrorKind::NotFound, cookie }),
    }
}

/// Whether `method` is among the methods of a route.
fn allows_method(methods: &Vec<String>, method: &[u8]) -> (r: bool)
    ensures
        r == method_allowed(methods@, method@),
{
    let mut i: usize = 0;
    while i < methods.len()
        invariant
            i <= methods.len(),
            forall|k: int| 0 <= k < i ==> text_bytes(#[trigger] methods@[k]@) != method@,
        decreases methods.len() - i,
    {
        if bytes_eq(string_bytes(&methods[i]), method) {
            return true;
        }
        i += 1;
    }
    false
}

/// The path of a request relative to a document root.
fn relative_path_of(path: &String) -> (r: Option<String>)
    ensures
        opt_bytes(r) == relative_path(text_bytes(path@)),
{
    let bytes = string_bytes(path);
    if bytes_eq(bytes, "/".as_bytes()) {
        return Some(String::from_str(""));
    }
    if bytes.len() == 0 {
        return None;
    }
    if bytes.len() > 1 && bytes[1] >= 0x80 && bytes[1] <= 0xbf {
        return None;
    }
    proof {
        lemma_text_is_valid(path@);
        assert(bytes@.subrange(1, bytes.len() as int) =~= bytes@.skip(1));
    }
    Some(text_piece(bytes, 1, bytes.len()))
}

/// The text that a script gets on its standard input.
fn script_input_of(body: &Vec<u8>) -> (r: String)
    ensures
        text_bytes(r@) == script_input(body@),
{
    match string_from_utf8(body.clone()) {
        Some(text) => text,
        None => {
            let empty = String::new();
            assert(text_bytes(empty@) =~= Seq::<u8>::empty());
            empty
        },
    }
}

/// A copy of an optional text.
fn copy_of(text: &Option<String>) -> (r: Option<String>)
    ensures
        opt_bytes(r) == opt_bytes(*text),
{
    match text {
        Some(t) => Some(t.clone()),
        None => None,
    }
}

/// Classifies the action for a request on the route that was selected for
/// it.
fn plan_on_route(route: &RouterConfig, req: &Request, cookie: Option<String>) -> (plan: Plan)
    ensures
        plan@ == route_plan(*route, req@, opt_bytes(cookie)),
{
    match &route.redirection {
        Some(redir) => {
            return Plan::Reply(Reply::Ready(redirect_reply(&redir.target, redir.status, cookie)));
        },
        None => {},
    }
    let method = string_bytes(&req.method);
    let path = string_bytes(&req.path);
    if !allows_method(&route.methods, method) {
        return Plan::Reply(Reply::ErrorPage { kind: ErrorKind::MethodNotAllowed, cookie });
    }
    match &route.cgi {
        Some((extension, script)) => {
            if ends_with(path, string_bytes(extension)) {
                proof {
                    lemma_text_is_valid(route.root@);
                    lemma_text_is_valid("/"@);
                    lemma_text_is_valid(script@);
                }
                return Plan::RunScript {
                    script_path: joined_text(
                        string_bytes(&route.root),
                        "/".as_bytes(),
                        string_bytes(script),
                    ),
                    input: script_input_of(&req.body),
                    path_info: req.path.clone(),
                    cookie,
                };
            }
        },
        None => {},
    }
    if bytes_eq(method, "POST".as_bytes()) && bytes_eq(
        string_bytes(&route.path),
        "/upload".as_bytes(),
    ) {
        let content_type: &str = match req.headers.get("Content-Type") {
            Some(v) => v.as_str(),
            None => "",
        };
        return match handle_file_upload(req.body.as_slice(), content_type) {
            Ok(file) => Plan::StoreUpload { file, cookie },
            Err(result) => Plan::Reply(Reply::Ready(upload_reply(result, cookie))),
        };
    }
    let rel_path = match relative_path_of(&req.path) {
        Some(rel_path) => rel_path,
        None => {
            return Plan::Reply(Reply::ErrorPage { kind: ErrorKind::BadRequest, cookie });
        },
    };
    if bytes_eq(method, "DELETE".as_bytes()) {
        Plan::DeleteFile { root: route.root.clone(), rel_path, cookie }
    } else {
        let directory_listing: bool = match route.directory_listing {
            Some(b) => b,
            None => false,
        };
        Plan::ServeFile {
            rel_path,
            root: route.root.clone(),
            index: copy_of(&route.index),
            directory_listing,
            cookie,
        }
    }
}

/// Routes a request: selects the route with the longest matching prefix
/// and classifies the action on it. `cookie` is the session cookie to set
/// on the response, if one is required; it goes with whatever is planned.
pub fn route_request(req: &Request, cookie: Option<String>, routes: &Vec<RouterConfig>) -> (plan:
    Plan)
    ensures
        plan@ == planned(req@, opt_bytes(cookie), routes@),
{
    match select_route(routes, req.path.as_str()) {
        Some(i) => plan_on_route(&routes[i], req, cookie),
        None => Plan::Reply(Reply::ErrorPage { kind: ErrorKind::NotFound, cookie }),
    }
}

/// An upload through the whole pipeline. A `POST` whose path selects the
/// route `/upload`, on which nothing comes before the upload (the route
/// does not redirect, allows the method and runs no script for the path),
/// and whose body holds a file, comes to exactly one plan: to store that
/// file, once, with the cookie of the request. Once the file is stored,
/// the answer is the one of `lemma_stored_upload_reply`, with status 200.
pub proof fn lemma_upload_is_stored(
    req: RequestView,
    cookie: Option<Seq<u8>>,
    routes: Seq<RouterConfig>,
    i: int,
)
    requires
        selected(route_paths(routes), req.path) == Some(i),
        routes[i].redirection is None,
        method_allowed(routes[i].methods@, req.method),
        !wants_script(routes[i], req.path),
        is_upload(routes[i], req),
        upload_plan(req.body, content_type_of(req.headers)) is Ok,
    ensures
        planned(req, cookie, routes) == (PlanView::StoreUpload {
            file: upload_plan(req.body, content_type_of(req.headers))->Ok_0,
            cookie,
        }),
        plain_file_name(upload_plan(req.body, content_type_of(req.headers))->Ok_0.filename),
{
}

/// The plan for a request whose session has the id `id`.
pub open spec fn planned_in_session(req: RequestView, id: Seq<u8>, routes: Seq<RouterConfig>) -> PlanView {
    planned(req, cookie_to_set(lookup(req.headers, lit("Cookie")), id), routes)
}

/// A request was handled in a new session with the id `id`: the session
/// was put into the store without data, and the plan is the one for that
/// session.
pub open spec fn handled_in_new_session(
    before: Seq<SessionView>,
    after: Seq<SessionView>,
    plan: PlanView,
    req: RequestView,
    routes: Seq<RouterConfig>,
    id: Seq<u8>,
) -> bool {
    &&& is_session_id(id)
    &&& after == store_put(before, SessionView { id, data: Seq::empty() })
    &&& plan == planned_in_session(req, id, routes)
}

/// Handles the bytes of one complete message.
///
/// Bytes that do not parse get the error page 400; no session is touched.
/// Otherwise the session is the stored one whose id the `Cookie` header
/// carries, or else a new one under a fresh random id, and the plan is the
/// one for the request in that session. The store changes only when a
/// session is created. A request that needs a new session when no id can
/// be generated gets the error page 500, and the store stays as it was.
pub fn handle_request(
    raw_request: &[u8],
    session_manager: &mut SessionManager,
    server_config: &ServerConfig,
) -> (plan: Plan)
    ensures
        match parsed(raw_request@) {
            None => plan@ == PlanView::Reply(
                ReplyView::ErrorPage { kind: ErrorKind::BadRequest, cookie: None },
            ) && final(session_manager)@ == old(session_manager)@,
            Some(req) => match known_session(
                old(session_manager)@,
                lookup(req.headers, lit("Cookie")),
            ) {
                Some(i) => final(session_manager)@ == old(session_manager)@ && plan@
                    == planned_in_session(req, old(session_manager)@[i].id, server_config.router@),
                None => (plan@ == PlanView::Reply(
                    ReplyView::ErrorPage { kind: ErrorKind::InternalError, cookie: None },
                ) && final(session_manager)@ == old(session_manager)@) || exists|id: Seq<u8>| #[trigger]
                    handled_in_new_session(
                        old(session_manager)@,
                        final(session_manager)@,
                        plan@,
                        req,
                        server_config.router@,
                        id,
                    ),
            },
        },
{
    let req = match parse_http_request(raw_request) {
        Some(req) => req,
        None => {
            return Plan::Reply(Reply::ErrorPage { kind: ErrorKind::BadRequest, cookie: None });
        },
    };
    let cookie_header: Option<&str> = match req.headers.get("Cookie") {
        Some(v) => Some(v.as_str()),
        None => None,
    };
    let ghost before = session_manager@;
    let session = match session_manager.get_or_create_session(cookie_header) {
        Some(session) => session,
        None => {
            return Plan::Reply(Reply::ErrorPage { kind: ErrorKind::InternalError, cookie: None });
        },
    };
    let cookie = decide_cookie(cookie_header, &session.id);
    let plan = route_request(&req, cookie, &server_config.router);
    proof {
        if known_session(before, lookup(req@.headers, lit("Cookie"))) is None {
            assert(handled_in_new_session(
                before,
                session_manager@,
                plan@,
                req@,
                server_config.router@,
                session@.id,
            ));
        }
    }
    plan
}

} // verus!
