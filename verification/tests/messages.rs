use localhost::framer::frame_message;
use localhost::requests::{build_response, parse_http_request, Response};
use localhost::router::select_route;
use localhost::server_config::RouterConfig;
use localhost::static_file::{build_http_response, render_directory_listing, DirEntry, FileResponse};
use localhost::string_map::StringMap;

fn route(path: &str) -> RouterConfig {
    RouterConfig {
        path: path.to_string(),
        methods: vec!["GET".to_string()],
        root: "www".to_string(),
        index: None,
        cgi: None,
        directory_listing: None,
        redirection: None,
    }
}

#[test]
fn parse_simple_get() {
    let req = parse_http_request(b"GET / HTTP/1.1\r\nHost: x\r\n\r\n").unwrap();
    assert_eq!(req.method, "GET");
    assert_eq!(req.path, "/");
    assert_eq!(req.version, "HTTP/1.1");
    assert_eq!(req.headers.len(), 1);
    assert_eq!(req.headers.get("Host").map(|s| s.as_str()), Some("x"));
    assert_eq!(req.headers.get("host"), None);
    assert!(req.body.is_empty());
}

#[test]
fn parse_keeps_body_bytes() {
    let req = parse_http_request(b"POST /p HTTP/1.1\r\nContent-Length: 3\r\n\r\n\xff\x00z").unwrap();
    assert_eq!(req.method, "POST");
    assert_eq!(req.path, "/p");
    assert_eq!(req.body, b"\xff\x00z");
}

#[test]
fn parse_needs_blank_line() {
    assert!(parse_http_request(b"").is_none());
    assert!(parse_http_request(b"GET / HTTP/1.1\r\nHost: x\r\n").is_none());
}

#[test]
fn parse_needs_three_words() {
    assert!(parse_http_request(b"\r\n\r\n").is_none());
    assert!(parse_http_request(b"GET\r\n\r\n").is_none());
    assert!(parse_http_request(b"GET /\r\n\r\n").is_none());
    assert!(parse_http_request(b"   \r\nGET / HTTP/1.1\r\n\r\n").is_none());
    assert!(parse_http_request(b"GET / HTTP/1.1\r\n\r\n").is_some());
}

#[test]
fn parse_ignores_words_after_the_third() {
    let req = parse_http_request(b"  GET \t /a  HTTP/1.1 extra words\r\n\r\n").unwrap();
    assert_eq!(req.method, "GET");
    assert_eq!(req.path, "/a");
    assert_eq!(req.version, "HTTP/1.1");
}

#[test]
fn parse_splits_words_at_unicode_white_space() {
    let raw = "GET\u{a0}/caf\u{e9}\u{2003}HTTP/1.1\r\n\r\n";
    let req = parse_http_request(raw.as_bytes()).unwrap();
    assert_eq!(req.method, "GET");
    assert_eq!(req.path, "/caf\u{e9}");
    assert_eq!(req.version, "HTTP/1.1");
}

#[test]
fn parse_rejects_invalid_utf8_in_head() {
    assert!(parse_http_request(b"GET /\xff HTTP/1.1\r\n\r\n").is_none());
    assert!(parse_http_request(b"GET / HTTP/1.1\r\nX: \xc3\r\n\r\n").is_none());
    assert!(parse_http_request(b"GET / HTTP/1.1\r\nno colon \xc3\x28\r\n\r\n").is_none());
}

#[test]
fn parse_headers_last_write_wins() {
    let req = parse_http_request(b"GET / HTTP/1.1\r\nA: 1\r\nB: 2\r\nA: 3\r\n\r\n").unwrap();
    assert_eq!(req.headers.len(), 2);
    assert_eq!(req.headers.get("A").map(|s| s.as_str()), Some("3"));
    assert_eq!(req.headers.get("B").map(|s| s.as_str()), Some("2"));
    assert_eq!(req.headers.key_at(0), "A");
    assert_eq!(req.headers.key_at(1), "B");
}

#[test]
fn parse_header_forms() {
    let req = parse_http_request(
        b"GET / HTTP/1.1\r\nNoSpace:x\r\nK: a: b\r\n: v\r\nE: \r\nplain\r\n\r\n",
    )
    .unwrap();
    assert_eq!(req.headers.len(), 3);
    assert_eq!(req.headers.get("NoSpace"), None);
    assert_eq!(req.headers.get("K").map(|s| s.as_str()), Some("a: b"));
    assert_eq!(req.headers.get("").map(|s| s.as_str()), Some("v"));
    assert_eq!(req.headers.get("E").map(|s| s.as_str()), Some(""));
}

#[test]
fn chunked_request_body_is_decoded() {
    let raw = b"POST /x HTTP/1.1\r\nTransfer-Encoding: chunked\r\n\r\n4\r\nWiki\r\n0\r\n\r\n";
    let req = parse_http_request(raw).unwrap();
    assert_eq!(req.body, b"Wiki");
}

#[test]
fn parse_reads_chunked_framing_as_the_framer_does() {
    let upper = parse_http_request(b"POST /x HTTP/1.1\r\nTransfer-Encoding: CHUNKED\r\n\r\n4\r\nWiki\r\n0\r\n\r\n").unwrap();
    assert_eq!(upper.body, b"Wiki");
    let lower_key = parse_http_request(b"POST /u HTTP/1.1\r\ntransfer-encoding: Chunked\r\n\r\n4\r\nWiki\r\n0\r\n\r\n").unwrap();
    assert_eq!(lower_key.body, b"Wiki");
    let longer = parse_http_request(b"POST /x HTTP/1.1\r\nTransfer-Encoding: chunked, gzip\r\n\r\n4\r\nWiki\r\n0\r\n\r\n").unwrap();
    assert_eq!(longer.body, b"Wiki");
    let other = parse_http_request(b"POST /x HTTP/1.1\r\nTransfer-Encoding:  chunked\r\n\r\n4\r\nWiki\r\n0\r\n\r\n").unwrap();
    assert_eq!(other.body, b"4\r\nWiki\r\n0\r\n\r\n");
    let raw = b"POST /x HTTP/1.1\r\ntransfer-encoding: chunked\r\n\r\n4\r\nWiki\r\n0\r\n\r\n";
    assert_eq!(frame_message(raw), Some(raw.len()));
}

#[test]
fn parse_rejects_chunks_that_do_not_decode() {
    assert!(parse_http_request(b"POST /x HTTP/1.1\r\nTransfer-Encoding: chunked\r\n\r\nzz\r\nWiki").is_none());
    assert!(parse_http_request(b"POST /u HTTP/1.1\r\nTransfer-Encoding: chunked\r\n\r\nzz\r\nhi\r\n0\r\n\r\n").is_none());
    assert!(parse_http_request(b"POST /u HTTP/1.1\r\nTransfer-Encoding: chunked\r\n\r\n9\r\nhi").is_none());
    assert!(parse_http_request(b"POST /u HTTP/1.1\r\nContent-Length: 2\r\n\r\nzz\r\nhi").is_some());
}

#[test]
fn framed_message_parses() {
    let mut buf = b"POST /x HTTP/1.1\r\nContent-Length: 2\r\n\r\nhi".to_vec();
    buf.extend_from_slice(b"GET /next HTTP/1.1\r\n\r\n");
    let n = frame_message(&buf).unwrap();
    let first = parse_http_request(&buf[..n]).unwrap();
    assert_eq!(first.path, "/x");
    assert_eq!(first.body, b"hi");
    let second = parse_http_request(&buf[n..]).unwrap();
    assert_eq!(second.path, "/next");
}

#[test]
fn build_response_adds_content_length() {
    let mut headers = StringMap::new();
    headers.insert("Content-Type".to_string(), "text/html".to_string());
    let out = build_response(Response {
        status_code: 200,
        reason_phrase: "OK".to_string(),
        headers,
        body: b"hi".to_vec(),
    });
    assert_eq!(out, b"HTTP/1.1 200 OK\r\nContent-Length: 2\r\nContent-Type: text/html\r\n\r\nhi");
}

#[test]
fn build_response_keeps_given_content_length() {
    let mut headers = StringMap::new();
    headers.insert("Content-Length".to_string(), "99".to_string());
    headers.insert("X".to_string(), "y".to_string());
    let out = build_response(Response {
        status_code: 404,
        reason_phrase: "Not Found".to_string(),
        headers,
        body: b"\xff\x00".to_vec(),
    });
    assert_eq!(out, b"HTTP/1.1 404 Not Found\r\nContent-Length: 99\r\nX: y\r\n\r\n\xff\x00");
}

#[test]
fn build_response_without_headers_or_body() {
    let out = build_response(Response {
        status_code: 65535,
        reason_phrase: String::new(),
        headers: StringMap::new(),
        body: Vec::new(),
    });
    assert_eq!(out, b"HTTP/1.1 65535 \r\nContent-Length: 0\r\n\r\n");
}

#[test]
fn string_map_insert_replaces_in_place() {
    let mut map = StringMap::new();
    assert_eq!(map.len(), 0);
    assert!(!map.contains_key("a"));
    map.insert("a".to_string(), "1".to_string());
    map.insert("b".to_string(), "2".to_string());
    map.insert("a".to_string(), "3".to_string());
    assert_eq!(map.len(), 2);
    assert!(map.contains_key("a"));
    assert_eq!(map.key_at(0), "a");
    assert_eq!(map.value_at(0), "3");
    assert_eq!(map.key_at(1), "b");
    assert_eq!(map.get("b").map(|s| s.as_str()), Some("2"));
    assert_eq!(map.get("c"), None);
    let copy = map.duplicate();
    assert_eq!(copy.len(), 2);
    assert_eq!(copy.get("a").map(|s| s.as_str()), Some("3"));
}

#[test]
fn router_longest_prefix_wins() {
    let routes = vec![route("/a"), route("/a/b")];
    assert_eq!(select_route(&routes, "/a/b/c"), Some(1));
    assert_eq!(select_route(&routes, "/a/x"), Some(0));
    assert_eq!(select_route(&routes, "/a"), Some(0));
    let reversed = vec![route("/a/b"), route("/a")];
    assert_eq!(select_route(&reversed, "/a/b/c"), Some(0));
}

#[test]
fn router_no_match() {
    let routes = vec![route("/a"), route("/a/b")];
    assert_eq!(select_route(&routes, "/b"), None);
    assert_eq!(select_route(&routes, "/"), None);
    assert_eq!(select_route(&routes, ""), None);
    assert_eq!(select_route(&Vec::new(), "/a"), None);
}

#[test]
fn router_first_of_equal_prefixes_wins() {
    let routes = vec![route("/"), route("/a"), route("/a"), route("/")];
    assert_eq!(select_route(&routes, "/a/b"), Some(1));
    assert_eq!(select_route(&routes, "/x"), Some(0));
}

#[test]
fn router_empty_prefix_matches_everything() {
    let routes = vec![route(""), route("/a")];
    assert_eq!(select_route(&routes, "anything"), Some(0));
    assert_eq!(select_route(&routes, ""), Some(0));
    assert_eq!(select_route(&routes, "/a"), Some(1));
}

#[test]
fn file_response_found() {
    assert_eq!(
        build_http_response(FileResponse::Found(b"hello".to_vec())),
        b"HTTP/1.1 200 OK\r\nContent-Type: text/html\r\nContent-Length: 5\r\n\r\nhello"
    );
    assert_eq!(
        build_http_response(FileResponse::Found(Vec::new())),
        b"HTTP/1.1 200 OK\r\nContent-Type: text/html\r\nContent-Length: 0\r\n\r\n"
    );
}

#[test]
fn file_response_not_found_and_forbidden() {
    assert_eq!(
        build_http_response(FileResponse::NotFound),
        b"HTTP/1.1 404 Not Found\r\nContent-Type: text/html\r\nContent-Length: 22\r\n\r\n<h1>404 Not Found</h1>"
    );
    assert_eq!(
        build_http_response(FileResponse::Forbidden),
        b"HTTP/1.1 403 Forbidden\r\nContent-Type: text/html\r\nContent-Length: 22\r\n\r\n<h1>403 Forbidden</h1>"
    );
}

#[test]
fn file_response_listing() {
    let html = "<ul>\u{e9}</ul>".to_string();
    let mut want = b"HTTP/1.1 200 OK\r\nContent-Type: text/html\r\nContent-Length: 11\r\n\r\n".to_vec();
    want.extend_from_slice(html.as_bytes());
    assert_eq!(build_http_response(FileResponse::DirectoryListing(html)), want);
}

#[test]
fn directory_listing_markup() {
    let entries = vec![
        DirEntry { name: "a.txt".to_string(), is_dir: false },
        DirEntry { name: "sub".to_string(), is_dir: true },
    ];
    assert_eq!(
        render_directory_listing(&entries),
        "<html><body><h1>Directory listing</h1><ul><li><a href=\"a.txt\">a.txt</a></li><li><a href=\"sub/\">sub/</a></li></ul></body></html>"
    );
    assert_eq!(
        render_directory_listing(&Vec::new()),
        "<html><body><h1>Directory listing</h1><ul></ul></body></html>"
    );
}
