use std::collections::HashMap;

use localhost::dispatch::{decide_cookie, handle_request, route_request, Plan};
use localhost::replies::{
    attach_cookie, delete_reply, error_reply, file_reply, redirect_reply, script_reply,
    stored_upload_reply, upload_reply, DeleteOutcome, ErrorKind, Reply,
};
use localhost::lookup::{index_step, lookup_step, read_outcome, LookupStep, PathProbe};
use localhost::requests::parse_http_request;
use localhost::server_config::{RedirectionConfig, RouterConfig, ServerAddress, ServerConfig};
use localhost::session_manager::{letters_in, session_id_from, SessionManager};
use localhost::static_file::FileResponse;
use localhost::upload_handler::UploadResult;

fn route(path: &str, methods: &[&str]) -> RouterConfig {
    RouterConfig {
        path: path.to_string(),
        methods: methods.iter().map(|m| m.to_string()).collect(),
        root: "www".to_string(),
        index: None,
        cgi: None,
        directory_listing: None,
        redirection: None,
    }
}

fn config(router: Vec<RouterConfig>) -> ServerConfig {
    ServerConfig {
        server_name: "test".to_string(),
        server_address: vec![ServerAddress { ip: "127.0.0.1".to_string(), port: 8080 }],
        max_body_size: 1024,
        router,
        error_msg: HashMap::new(),
    }
}

fn ready(reply: Reply) -> Vec<u8> {
    match reply {
        Reply::Ready(bytes) => bytes,
        Reply::ErrorPage { kind, .. } => panic!("error page {:?}", kind),
    }
}

fn error_page(reply: Reply) -> (ErrorKind, Option<String>) {
    match reply {
        Reply::Ready(_) => panic!("finished reply"),
        Reply::ErrorPage { kind, cookie } => (kind, cookie),
    }
}

fn plan_without_session(raw: &[u8], router: Vec<RouterConfig>) -> Plan {
    let req = parse_http_request(raw).unwrap();
    route_request(&req, None, &router)
}

fn is_session_id(id: &str) -> bool {
    id.len() == 32 && id.bytes().all(|b| b.is_ascii_alphanumeric())
}

#[test]
fn extract_session_id_forms() {
    assert_eq!(SessionManager::extract_session_id("session_id=abc").as_deref(), Some("abc"));
    assert_eq!(SessionManager::extract_session_id("a=b; session_id=xyz; c=d").as_deref(), Some("xyz"));
    assert_eq!(SessionManager::extract_session_id("a=b;session_id=xyz").as_deref(), Some("xyz"));
    assert_eq!(SessionManager::extract_session_id("\u{a0}session_id=q\u{2003};x").as_deref(), Some("q"));
    assert_eq!(SessionManager::extract_session_id("session_id=").as_deref(), Some(""));
    assert_eq!(SessionManager::extract_session_id("session_id=a b").as_deref(), Some("a b"));
    assert_eq!(SessionManager::extract_session_id("session_id=caf\u{e9}").as_deref(), Some("caf\u{e9}"));
}

#[test]
fn extract_session_id_strips_repeated_key() {
    assert_eq!(SessionManager::extract_session_id("session_id=session_id=q").as_deref(), Some("q"));
    assert_eq!(SessionManager::extract_session_id("session_id=session_id=session_id=").as_deref(), Some(""));
    assert_eq!(SessionManager::extract_session_id("session_id=xsession_id=q").as_deref(), Some("xsession_id=q"));
}

#[test]
fn extract_session_id_takes_first_match() {
    assert_eq!(SessionManager::extract_session_id("session_id=one; session_id=two").as_deref(), Some("one"));
}

#[test]
fn extract_session_id_absent() {
    assert_eq!(SessionManager::extract_session_id(""), None);
    assert_eq!(SessionManager::extract_session_id("session_id"), None);
    assert_eq!(SessionManager::extract_session_id("SESSION_ID=a"), None);
    assert_eq!(SessionManager::extract_session_id("x=session_id=abc"), None);
    assert_eq!(SessionManager::extract_session_id("a=b; c=d;"), None);
}

#[test]
fn generated_session_ids_have_fixed_shape() {
    let a = SessionManager::generate_session_id().unwrap();
    let b = SessionManager::generate_session_id().unwrap();
    assert_ne!(a, b);
    assert!(is_session_id(&a));
    assert!(is_session_id(&b));
}

#[test]
fn session_is_created_then_found_again() {
    let mut sessions = SessionManager::new();
    assert_eq!(sessions.len(), 0);
    let first = sessions.get_or_create_session(None).unwrap();
    assert!(is_session_id(&first.id));
    assert_eq!(first.data.len(), 0);
    assert_eq!(sessions.len(), 1);
    let cookie = format!("theme=dark; session_id={}", first.id);
    let again = sessions.get_or_create_session(Some(&cookie)).unwrap();
    assert_eq!(again.id, first.id);
    assert_eq!(sessions.len(), 1);
    assert_eq!(sessions.find_session(Some(&cookie)).map(|s| s.id), Some(first.id));
}

#[test]
fn unknown_session_id_gets_a_new_session() {
    let mut sessions = SessionManager::new();
    let made = sessions.get_or_create_session(Some("session_id=nobody")).unwrap();
    assert_ne!(made.id, "nobody");
    assert!(is_session_id(&made.id));
    assert_eq!(sessions.len(), 1);
    assert!(sessions.find_session(Some("session_id=nobody")).is_none());
    assert!(sessions.find_session(Some("other=1")).is_none());
    assert!(sessions.find_session(None).is_none());
}

#[test]
fn add_session_replaces_same_id() {
    let mut sessions = SessionManager::new();
    let a = sessions.add_session("abc".to_string());
    assert_eq!(a.id, "abc");
    sessions.add_session("def".to_string());
    sessions.add_session("abc".to_string());
    assert_eq!(sessions.len(), 2);
    assert_eq!(sessions.find_session(Some("session_id=def")).map(|s| s.id).as_deref(), Some("def"));
}

#[test]
fn cookie_is_set_unless_request_carries_the_id() {
    let id = "abc123".to_string();
    assert_eq!(decide_cookie(None, &id).as_deref(), Some("session_id=abc123; Path=/; HttpOnly"));
    assert_eq!(decide_cookie(Some("session_id=zzz"), &id).as_deref(), Some("session_id=abc123; Path=/; HttpOnly"));
    assert_eq!(decide_cookie(Some("session_id=abc123"), &id), None);
    assert_eq!(decide_cookie(Some("x=1; note=xabc1234"), &id), None);
}

#[test]
fn attach_cookie_splices_at_first_blank_line() {
    let response = b"HTTP/1.1 200 OK\r\nA: b\r\n\r\nbo\r\n\r\ndy\xff".to_vec();
    assert_eq!(
        attach_cookie(response.clone(), Some("k=v".to_string())),
        b"HTTP/1.1 200 OK\r\nA: b\r\nSet-Cookie: k=v\r\n\r\nbo\r\n\r\ndy\xff"
    );
    assert_eq!(attach_cookie(response.clone(), None), response);
    assert_eq!(attach_cookie(b"no blank line".to_vec(), Some("k=v".to_string())), b"no blank lineSet-Cookie: k=v\r\n");
}

#[test]
fn error_pages_have_built_in_bodies() {
    assert_eq!(
        error_reply(ErrorKind::BadRequest, None, None),
        b"HTTP/1.1 400 Bad Request\r\nContent-Length: 24\r\nContent-Type: text/html\r\n\r\n<h1>400 Bad Request</h1>"
    );
    assert_eq!(
        error_reply(ErrorKind::Forbidden, None, None),
        b"HTTP/1.1 403 Forbidden\r\nContent-Length: 22\r\nContent-Type: text/html\r\n\r\n<h1>403 Forbidden</h1>"
    );
    assert_eq!(
        error_reply(ErrorKind::NotFound, None, None),
        b"HTTP/1.1 404 Not Found\r\nContent-Length: 22\r\nContent-Type: text/html\r\n\r\n<h1>404 Not Found</h1>"
    );
    assert_eq!(
        error_reply(ErrorKind::MethodNotAllowed, None, None),
        b"HTTP/1.1 405 Method Not Allowed\r\nContent-Length: 31\r\nContent-Type: text/html\r\n\r\n<h1>405 Method Not Allowed</h1>"
    );
    assert_eq!(
        error_reply(ErrorKind::InternalError, None, None),
        b"HTTP/1.1 500 Internal Server Error\r\nContent-Length: 34\r\nContent-Type: text/html\r\n\r\n<h1>500 Internal Server Error</h1>"
    );
    assert_eq!(ErrorKind::NotFound.code(), 404);
    assert_eq!(ErrorKind::InternalError.code(), 500);
}

#[test]
fn error_page_with_custom_body_and_cookie() {
    assert_eq!(
        error_reply(ErrorKind::NotFound, Some(b"gone".to_vec()), Some("k=v".to_string())),
        b"HTTP/1.1 404 Not Found\r\nContent-Length: 4\r\nContent-Type: text/html\r\nSet-Cookie: k=v\r\n\r\ngone"
    );
}

#[test]
fn redirect_defaults_to_302() {
    let target = "/new".to_string();
    assert_eq!(
        redirect_reply(&target, None, None),
        b"HTTP/1.1 302 Found\r\nContent-Length: 0\r\nLocation: /new\r\n\r\n"
    );
    let mut rule = route("/old", &[]);
    rule.redirection = Some(RedirectionConfig { target: "/new".to_string(), status: None });
    let plan = plan_without_session(b"DELETE /old/x HTTP/1.1\r\n\r\n", vec![rule]);
    match plan {
        Plan::Reply(reply) => assert_eq!(
            ready(reply),
            b"HTTP/1.1 302 Found\r\nContent-Length: 0\r\nLocation: /new\r\n\r\n"
        ),
        other => panic!("{:?}", other),
    }
}

#[test]
fn redirect_reason_follows_status() {
    let target = "http://x/".to_string();
    let cases: [(u16, &str); 5] = [
        (301, "Moved Permanently"),
        (302, "Found"),
        (307, "Temporary Redirect"),
        (308, "Permanent Redirect"),
        (303, "Found"),
    ];
    for (status, reason) in cases {
        let want = format!("HTTP/1.1 {} {}\r\nContent-Length: 0\r\nLocation: http://x/\r\nSet-Cookie: c\r\n\r\n", status, reason);
        assert_eq!(redirect_reply(&target, Some(status), Some("c".to_string())), want.into_bytes());
    }
}

#[test]
fn script_replies() {
    assert_eq!(
        ready(script_reply(Some("out\n".to_string()), Some("k=v".to_string()))),
        b"HTTP/1.1 200 OK\r\nContent-Length: 4\r\nContent-Type: text/plain\r\nSet-Cookie: k=v\r\n\r\nout\n"
    );
    let (kind, cookie) = error_page(script_reply(None, Some("k=v".to_string())));
    assert_eq!(kind, ErrorKind::InternalError);
    assert_eq!(cookie.as_deref(), Some("k=v"));
}

#[test]
fn delete_twice_gives_200_then_404() {
    let first = ready(delete_reply(DeleteOutcome::Removed, None));
    assert_eq!(
        first,
        b"HTTP/1.1 200 OK\r\nContent-Length: 34\r\nContent-Type: text/html\r\n\r\n<h1>File deleted successfully</h1>"
    );
    let (kind, cookie) = error_page(delete_reply(DeleteOutcome::Missing, None));
    assert_eq!(kind, ErrorKind::NotFound);
    assert!(error_reply(kind, None, cookie).starts_with(b"HTTP/1.1 404 Not Found\r\n"));
}

#[test]
fn delete_replies_for_refusal_and_failure() {
    assert_eq!(error_page(delete_reply(DeleteOutcome::Forbidden, None)).0, ErrorKind::Forbidden);
    assert_eq!(error_page(delete_reply(DeleteOutcome::Failed, None)).0, ErrorKind::InternalError);
}

#[test]
fn path_traversal_outcome_yields_403_without_content() {
    let (kind, cookie) = error_page(file_reply(FileResponse::Forbidden, Some("k=v".to_string())));
    assert_eq!(kind, ErrorKind::Forbidden);
    assert_eq!(
        error_reply(kind, None, cookie),
        b"HTTP/1.1 403 Forbidden\r\nContent-Length: 22\r\nContent-Type: text/html\r\nSet-Cookie: k=v\r\n\r\n<h1>403 Forbidden</h1>"
    );
}

#[test]
fn file_replies() {
    assert_eq!(
        ready(file_reply(FileResponse::Found(b"\xffdata".to_vec()), None)),
        b"HTTP/1.1 200 OK\r\nContent-Type: text/html\r\nContent-Length: 5\r\n\r\n\xffdata"
    );
    assert_eq!(
        ready(file_reply(FileResponse::DirectoryListing("<ul></ul>".to_string()), Some("k=v".to_string()))),
        b"HTTP/1.1 200 OK\r\nContent-Type: text/html\r\nContent-Length: 9\r\nSet-Cookie: k=v\r\n\r\n<ul></ul>"
    );
    assert_eq!(error_page(file_reply(FileResponse::NotFound, None)).0, ErrorKind::NotFound);
}

#[test]
fn upload_replies() {
    assert!(upload_reply(UploadResult::BadRequest, None).starts_with(b"HTTP/1.1 400 Bad Request\r\n"));
    assert!(upload_reply(UploadResult::PayloadTooLarge, None).starts_with(b"HTTP/1.1 413 Payload Too Large\r\n"));
    assert!(stored_upload_reply(true, None).starts_with(b"HTTP/1.1 200 OK\r\n"));
    assert!(stored_upload_reply(false, None).starts_with(b"HTTP/1.1 500 Internal Server Error\r\n"));
    let with_cookie = stored_upload_reply(true, Some("k=v".to_string()));
    let text = String::from_utf8(with_cookie).unwrap();
    assert!(text.contains("Set-Cookie: k=v\r\n"));
}

#[test]
fn get_root_serves_index_file() {
    let mut rule = route("/", &["GET"]);
    rule.index = Some("index.html".to_string());
    let mut sessions = SessionManager::new();
    let plan = handle_request(b"GET / HTTP/1.1\r\nHost: x\r\n\r\n", &mut sessions, &config(vec![rule]));
    assert_eq!(sessions.len(), 1);
    let cookie = match plan {
        Plan::ServeFile { rel_path, root, index, directory_listing, cookie } => {
            assert_eq!(rel_path, "");
            assert_eq!(root, "www");
            assert_eq!(index.as_deref(), Some("index.html"));
            assert!(!directory_listing);
            cookie
        }
        other => panic!("{:?}", other),
    };
    let value = cookie.clone().unwrap();
    assert!(value.starts_with("session_id="));
    assert!(value.ends_with("; Path=/; HttpOnly"));
    assert!(is_session_id(&value["session_id=".len()..value.len() - "; Path=/; HttpOnly".len()]));
    assert!(matches!(lookup_step(PathProbe::Directory, true, false), LookupStep::ProbeIndex));
    assert!(matches!(index_step(true, false), LookupStep::ReadIndex));
    let file = read_outcome(Some(b"<h1>home</h1>".to_vec()));
    assert!(matches!(&file, FileResponse::Found(bytes) if bytes == b"<h1>home</h1>"));
    let response = ready(file_reply(file, cookie));
    assert!(response.starts_with(b"HTTP/1.1 200 OK\r\n"));
    let blank = response.windows(4).position(|w| w == b"\r\n\r\n").unwrap();
    assert_eq!(&response[blank + 4..], b"<h1>home</h1>");
    let head = String::from_utf8(response[..blank].to_vec()).unwrap();
    let lines: Vec<&str> = head.split("\r\n").collect();
    assert_eq!(lines[0], "HTTP/1.1 200 OK");
    assert!(lines.contains(&"Content-Length: 13"));
    let cookies: Vec<&&str> = lines.iter().filter(|l| l.starts_with("Set-Cookie: ")).collect();
    assert_eq!(cookies.len(), 1);
    assert_eq!(*cookies[0], format!("Set-Cookie: {}", value));
    let without_cookie = ready(file_reply(FileResponse::Found(b"<h1>home</h1>".to_vec()), None));
    assert_eq!(
        without_cookie,
        b"HTTP/1.1 200 OK\r\nContent-Type: text/html\r\nContent-Length: 13\r\n\r\n<h1>home</h1>"
    );
}

#[test]
fn post_upload_stores_file() {
    let rule = route("/upload", &["POST"]);
    let body = b"--X\r\nContent-Disposition: form-data; name=\"f\"; filename=\"a.txt\"\r\n\r\nhi--X--";
    let mut raw = format!(
        "POST /upload HTTP/1.1\r\nContent-Type: multipart/form-data; boundary=X\r\nContent-Length: {}\r\n\r\n",
        body.len()
    )
    .into_bytes();
    raw.extend_from_slice(body);
    let mut sessions = SessionManager::new();
    let plan = handle_request(&raw, &mut sessions, &config(vec![rule]));
    match plan {
        Plan::StoreUpload { file, cookie } => {
            assert_eq!(file.filename, "a.txt");
            assert_eq!(file.content, b"hi");
            assert!(stored_upload_reply(true, cookie).starts_with(b"HTTP/1.1 200 OK\r\n"));
        }
        other => panic!("{:?}", other),
    }
}

#[test]
fn upload_that_is_bad_is_answered_at_once() {
    let plan = plan_without_session(
        b"POST /upload HTTP/1.1\r\nContent-Type: text/plain\r\n\r\nhi",
        vec![route("/upload", &["POST"])],
    );
    match plan {
        Plan::Reply(reply) => assert_eq!(
            ready(reply),
            b"HTTP/1.1 400 Bad Request\r\nContent-Type: text/html\r\nContent-Length: 24\r\n\r\n<h1>400 Bad Request</h1>"
        ),
        other => panic!("{:?}", other),
    }
}

#[test]
fn upload_only_on_route_named_upload() {
    let plan = plan_without_session(
        b"POST /upload/x HTTP/1.1\r\n\r\n",
        vec![route("/up", &["POST"])],
    );
    assert!(matches!(plan, Plan::ServeFile { .. }));
}

#[test]
fn unparseable_request_gets_400_and_no_session() {
    let mut sessions = SessionManager::new();
    let plan = handle_request(b"GET\r\n\r\n", &mut sessions, &config(vec![route("/", &["GET"])]));
    assert_eq!(sessions.len(), 0);
    match plan {
        Plan::Reply(reply) => {
            let (kind, cookie) = error_page(reply);
            assert_eq!(kind, ErrorKind::BadRequest);
            assert_eq!(cookie, None);
        }
        other => panic!("{:?}", other),
    }
}

#[test]
fn request_with_known_session_sets_no_cookie() {
    let mut sessions = SessionManager::new();
    let session = sessions.get_or_create_session(None).unwrap();
    let raw = format!("GET /a HTTP/1.1\r\nCookie: session_id={}\r\n\r\n", session.id);
    let plan = handle_request(raw.as_bytes(), &mut sessions, &config(vec![route("/", &["GET"])]));
    assert_eq!(sessions.len(), 1);
    match plan {
        Plan::ServeFile { rel_path, cookie, .. } => {
            assert_eq!(rel_path, "a");
            assert_eq!(cookie, None);
        }
        other => panic!("{:?}", other),
    }
}

#[test]
fn no_route_gets_404_with_cookie() {
    let mut sessions = SessionManager::new();
    let plan = handle_request(b"GET /b HTTP/1.1\r\n\r\n", &mut sessions, &config(vec![route("/a", &["GET"])]));
    match plan {
        Plan::Reply(reply) => {
            let (kind, cookie) = error_page(reply);
            assert_eq!(kind, ErrorKind::NotFound);
            assert!(cookie.is_some());
        }
        other => panic!("{:?}", other),
    }
}

#[test]
fn method_gate_gives_405() {
    let plan = plan_without_session(b"POST /a HTTP/1.1\r\n\r\n", vec![route("/", &["GET", "DELETE"])]);
    match plan {
        Plan::Reply(reply) => assert_eq!(error_page(reply).0, ErrorKind::MethodNotAllowed),
        other => panic!("{:?}", other),
    }
    let lower = plan_without_session(b"get /a HTTP/1.1\r\n\r\n", vec![route("/", &["GET"])]);
    assert!(matches!(lower, Plan::Reply(_)));
}

#[test]
fn script_runs_for_matching_extension() {
    let mut rule = route("/", &["GET", "POST"]);
    rule.root = "/srv/app".to_string();
    rule.cgi = Some((".py".to_string(), "run.py".to_string()));
    let plan = plan_without_session(b"POST /cgi/x.py HTTP/1.1\r\n\r\nname=Rust", vec![rule.clone()]);
    match plan {
        Plan::RunScript { script_path, input, path_info, cookie } => {
            assert_eq!(script_path, "/srv/app/run.py");
            assert_eq!(input, "name=Rust");
            assert_eq!(path_info, "/cgi/x.py");
            assert_eq!(cookie, None);
        }
        other => panic!("{:?}", other),
    }
    let binary = plan_without_session(b"POST /x.py HTTP/1.1\r\n\r\n\xff", vec![rule.clone()]);
    match binary {
        Plan::RunScript { input, .. } => assert_eq!(input, ""),
        other => panic!("{:?}", other),
    }
    let other = plan_without_session(b"GET /x.pyc HTTP/1.1\r\n\r\n", vec![rule]);
    assert!(matches!(other, Plan::ServeFile { .. }));
}

#[test]
fn script_comes_before_upload_and_delete() {
    let mut rule = route("/upload", &["POST", "DELETE"]);
    rule.cgi = Some((".py".to_string(), "s.py".to_string()));
    let post = plan_without_session(b"POST /upload/a.py HTTP/1.1\r\n\r\n", vec![rule.clone()]);
    assert!(matches!(post, Plan::RunScript { .. }));
    let delete = plan_without_session(b"DELETE /upload/a.py HTTP/1.1\r\n\r\n", vec![rule.clone()]);
    assert!(matches!(delete, Plan::RunScript { .. }));
    let upload = plan_without_session(b"POST /upload/a.txt HTTP/1.1\r\n\r\n", vec![rule]);
    assert!(matches!(upload, Plan::Reply(_)));
}

#[test]
fn delete_plans_removal_under_root() {
    let plan = plan_without_session(b"DELETE /files/a.txt HTTP/1.1\r\n\r\n", vec![route("/files", &["DELETE"])]);
    match plan {
        Plan::DeleteFile { root, rel_path, cookie } => {
            assert_eq!(root, "www");
            assert_eq!(rel_path, "files/a.txt");
            assert_eq!(cookie, None);
        }
        other => panic!("{:?}", other),
    }
}

#[test]
fn static_plan_carries_route_options() {
    let mut rule = route("/", &["GET"]);
    rule.directory_listing = Some(true);
    let plan = plan_without_session(b"GET /../etc/passwd HTTP/1.1\r\n\r\n", vec![rule]);
    match plan {
        Plan::ServeFile { rel_path, root, index, directory_listing, .. } => {
            assert_eq!(rel_path, "../etc/passwd");
            assert_eq!(root, "www");
            assert_eq!(index, None);
            assert!(directory_listing);
        }
        other => panic!("{:?}", other),
    }
}

#[test]
fn path_whose_first_byte_is_part_of_a_character_gets_400() {
    let raw = "GET \u{e9}x HTTP/1.1\r\n\r\n";
    let plan = plan_without_session(raw.as_bytes(), vec![route("", &["GET"])]);
    match plan {
        Plan::Reply(reply) => assert_eq!(error_page(reply).0, ErrorKind::BadRequest),
        other => panic!("{:?}", other),
    }
    let plain = plan_without_session(b"GET x/y HTTP/1.1\r\n\r\n", vec![route("", &["GET"])]);
    match plain {
        Plan::ServeFile { rel_path, .. } => assert_eq!(rel_path, "/y"),
        other => panic!("{:?}", other),
    }
}

#[test]
fn random_bytes_give_letters_and_digits() {
    assert_eq!(letters_in(&[0, 3, 4, 100, 103, 104, 204, 208, 244, 247, 248, 255]), b"AABZZaz099");
    assert_eq!(letters_in(&[]), b"");
    assert_eq!(letters_in(&[248, 249, 252, 255]), b"");
    let all: Vec<u8> = (0..=255).collect();
    let letters = letters_in(&all);
    assert_eq!(letters.len(), 248);
    for c in b"ABCDEFGHIJKLMNOPQRSTUVWXYZabcdefghijklmnopqrstuvwxyz0123456789" {
        assert_eq!(letters.iter().filter(|l| *l == c).count(), 4);
    }
}

#[test]
fn request_that_needs_no_new_session_is_planned_without_the_random_source() {
    let mut sessions = SessionManager::new();
    sessions.add_session("known".to_string());
    let plan = handle_request(
        b"GET /a HTTP/1.1\r\nCookie: session_id=known\r\n\r\n",
        &mut sessions,
        &config(vec![route("/", &["GET"])]),
    );
    assert!(matches!(plan, Plan::ServeFile { cookie: None, .. }));
    assert_eq!(sessions.len(), 1);
}

#[test]
fn request_with_bad_chunks_gets_400() {
    let mut sessions = SessionManager::new();
    let plan = handle_request(
        b"POST /u HTTP/1.1\r\nTransfer-Encoding: chunked\r\n\r\nzz\r\nhi\r\n0\r\n\r\n",
        &mut sessions,
        &config(vec![route("/", &["POST"])]),
    );
    match plan {
        Plan::Reply(reply) => assert_eq!(error_page(reply).0, ErrorKind::BadRequest),
        other => panic!("{:?}", other),
    }
    assert_eq!(sessions.len(), 0);
}

#[test]
fn upload_reply_with_cookie_is_well_formed() {
    let response = stored_upload_reply(true, Some("k=v".to_string()));
    let page = "<h1>\u{2705} File uploaded successfully!</h1>";
    let want = format!(
        "HTTP/1.1 200 OK\r\nContent-Type: text/html\r\nContent-Length: {}\r\nSet-Cookie: k=v\r\n\r\n{}",
        page.len(),
        page
    );
    assert_eq!(response, want.into_bytes());
}

#[test]
fn session_id_is_the_first_letters_of_the_draw() {
    let drawn: Vec<u8> = (0u8..=255).collect();
    let letters = letters_in(&drawn);
    assert_eq!(
        session_id_from(&drawn),
        Some(String::from_utf8(letters[..32].to_vec()).unwrap())
    );
    assert_eq!(
        session_id_from(&drawn),
        Some("AAAABBBBCCCCDDDDEEEEFFFFGGGGHHHH".to_string())
    );
    let mut skipping: Vec<u8> = vec![255, 250, 248];
    for number in 30u8..62 {
        skipping.push(number * 4 + 3);
        skipping.push(252);
    }
    skipping.push(0);
    assert_eq!(
        session_id_from(&skipping),
        Some("efghijklmnopqrstuvwxyz0123456789".to_string())
    );
}

#[test]
fn session_id_needs_enough_letters() {
    assert_eq!(session_id_from(&[]), None);
    assert_eq!(session_id_from(&[0u8; 31]), None);
    assert_eq!(session_id_from(&[0u8; 32]), Some("A".repeat(32)));
    assert_eq!(session_id_from(&[104u8; 33]), Some("a".repeat(32)));
    let mut short: Vec<u8> = vec![8u8; 31];
    short.extend_from_slice(&[248u8; 500]);
    assert_eq!(session_id_from(&short), None);
    short.push(208);
    assert_eq!(session_id_from(&short), Some(format!("{}0", "C".repeat(31))));
    assert_eq!(session_id_from(&[255u8; 1024]), None);
}
