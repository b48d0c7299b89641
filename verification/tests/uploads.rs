use localhost::upload_handler::{
    build_upload_response, handle_file_upload, is_plain_file_name, upload_result, UploadResult,
    MAX_UPLOAD_SIZE,
};

const FORM: &str = "multipart/form-data; boundary=X";

fn rejected(body: &[u8], content_type: &str) -> UploadResult {
    match handle_file_upload(body, content_type) {
        Ok(file) => panic!("accepted {:?}", file.filename),
        Err(result) => result,
    }
}

#[test]
fn upload_first_file_part() {
    let body = b"--X\r\nContent-Disposition: form-data; name=\"f\"; filename=\"a.txt\"\r\n\r\nhi--X--";
    let file = handle_file_upload(body, FORM).unwrap();
    assert_eq!(file.filename, "a.txt");
    assert_eq!(file.content, b"hi");
}

#[test]
fn upload_content_runs_to_the_next_delimiter() {
    let body = b"--X\r\nContent-Disposition: form-data; name=\"f\"; filename=\"a.txt\"\r\n\r\nhi\r\n--X--\r\n";
    let file = handle_file_upload(body, FORM).unwrap();
    assert_eq!(file.content, b"hi\r\n");
}

#[test]
fn upload_skips_parts_without_file_name() {
    let body = b"--X\r\nContent-Disposition: form-data; name=\"t\"\r\n\r\ntext\r\n--X\r\nContent-Disposition: form-data; name=\"f\"; filename=\"b.bin\"\r\n\r\none\r\n--X\r\nContent-Disposition: form-data; name=\"g\"; filename=\"c.bin\"\r\n\r\ntwo\r\n--X--";
    let file = handle_file_upload(body, FORM).unwrap();
    assert_eq!(file.filename, "b.bin");
    assert_eq!(file.content, b"one\r\n");
}

#[test]
fn upload_file_name_may_be_empty_or_not_ascii() {
    let empty = handle_file_upload(b"--X\r\nfilename=\"\"\r\n\r\nz", FORM).unwrap();
    assert_eq!(empty.filename, "");
    assert_eq!(empty.content, b"z");
    let body = "--X\r\nfilename=\"caf\u{e9}.txt\"\r\n\r\n\u{e9}";
    let file = handle_file_upload(body.as_bytes(), FORM).unwrap();
    assert_eq!(file.filename, "caf\u{e9}.txt");
    assert_eq!(file.content, "\u{e9}".as_bytes());
}

#[test]
fn upload_file_name_must_stay_in_the_uploads_directory() {
    for name in ["../x", "/x", "a/b", "..", "a\\b", "x/../../y", "a..b"] {
        let body = format!("--X\r\nfilename=\"{}\"\r\n\r\nhi--X--", name);
        assert!(matches!(rejected(body.as_bytes(), FORM), UploadResult::BadRequest), "{}", name);
        assert!(!is_plain_file_name(name.as_bytes()));
    }
    for name in ["a.txt", ".hidden", "a b.tar.gz", ""] {
        assert!(is_plain_file_name(name.as_bytes()));
    }
}

#[test]
fn upload_without_delimiter_is_one_part() {
    let file = handle_file_upload(b"filename=\"n\"\r\n\r\nall of it", FORM).unwrap();
    assert_eq!(file.filename, "n");
    assert_eq!(file.content, b"all of it");
}

#[test]
fn upload_boundary_token_ends_at_second_key() {
    let content_type = "multipart/form-data; boundary=AB; boundary=CD";
    let body = b"--AB; \r\nfilename=\"k\"\r\n\r\n1--AB; 2";
    let file = handle_file_upload(body, content_type).unwrap();
    assert_eq!(file.filename, "k");
    assert_eq!(file.content, b"1");
}

#[test]
fn upload_too_large_is_checked_first() {
    let body = vec![b'a'; MAX_UPLOAD_SIZE + 1];
    assert!(matches!(rejected(&body, "text/plain"), UploadResult::PayloadTooLarge));
    assert!(matches!(rejected(&body, FORM), UploadResult::PayloadTooLarge));
    let largest = vec![b'a'; MAX_UPLOAD_SIZE];
    assert!(matches!(rejected(&largest, FORM), UploadResult::BadRequest));
    assert_eq!(MAX_UPLOAD_SIZE, 5242880);
}

#[test]
fn upload_needs_multipart_content_type() {
    let body = b"--X\r\nfilename=\"a\"\r\n\r\nhi--X--";
    assert!(matches!(rejected(body, ""), UploadResult::BadRequest));
    assert!(matches!(rejected(body, "text/plain"), UploadResult::BadRequest));
    assert!(matches!(rejected(body, "multipart/form-data"), UploadResult::BadRequest));
    assert!(matches!(rejected(body, "Multipart/form-data; boundary=X"), UploadResult::BadRequest));
    assert!(matches!(rejected(body, " multipart/form-data; boundary=X"), UploadResult::BadRequest));
}

#[test]
fn upload_needs_a_file_part() {
    assert!(matches!(rejected(b"", FORM), UploadResult::BadRequest));
    assert!(matches!(rejected(b"--X\r\nname=\"t\"\r\n\r\ntext--X--", FORM), UploadResult::BadRequest));
}

#[test]
fn upload_needs_valid_text() {
    assert!(matches!(
        rejected(b"--X\r\nfilename=\"a\"\r\n\r\n\xff--X--", FORM),
        UploadResult::BadRequest
    ));
}

#[test]
fn upload_needs_closing_quote_and_blank_line() {
    assert!(matches!(rejected(b"--X\r\nfilename=\"a.txt\r\n\r\nhi", FORM), UploadResult::BadRequest));
    assert!(matches!(rejected(b"--X\r\nfilename=\"a.txt\"\r\nhi--X--", FORM), UploadResult::BadRequest));
}

#[test]
fn upload_takes_the_body_as_it_is() {
    let content_type = "multipart/form-data; boundary=chunked-X";
    let body = b"--chunked-X\r\nfilename=\"a\"\r\n\r\nhi--chunked-X--";
    let file = handle_file_upload(body, content_type).unwrap();
    assert_eq!(file.filename, "a");
    assert_eq!(file.content, b"hi");
    let chunks = b"2b\r\n--chunked-X\r\nfilename=\"a\"\r\n\r\nhi--chunked-X--\r\n0\r\n\r\n";
    let kept = handle_file_upload(chunks, content_type).unwrap();
    assert_eq!(kept.content, b"hi");
    assert_eq!(kept.filename, "a");
}

#[test]
fn upload_result_of_storage() {
    assert!(matches!(upload_result(true), UploadResult::Stored));
    assert!(matches!(upload_result(false), UploadResult::InternalError));
}

#[test]
fn upload_responses() {
    let page = "<h1>\u{2705} File uploaded successfully!</h1>";
    let mut want = format!("HTTP/1.1 200 OK\r\nContent-Type: text/html\r\nContent-Length: {}\r\n\r\n", page.len()).into_bytes();
    want.extend_from_slice(page.as_bytes());
    assert_eq!(build_upload_response(UploadResult::Stored), want);
    assert_eq!(
        build_upload_response(UploadResult::PayloadTooLarge),
        b"HTTP/1.1 413 Payload Too Large\r\nContent-Type: text/html\r\nContent-Length: 30\r\n\r\n<h1>413 Payload Too Large</h1>"
    );
    assert_eq!(
        build_upload_response(UploadResult::BadRequest),
        b"HTTP/1.1 400 Bad Request\r\nContent-Type: text/html\r\nContent-Length: 24\r\n\r\n<h1>400 Bad Request</h1>"
    );
    assert_eq!(
        build_upload_response(UploadResult::InternalError),
        b"HTTP/1.1 500 Internal Server Error\r\nContent-Type: text/html\r\nContent-Length: 34\r\n\r\n<h1>500 Internal Server Error</h1>"
    );
}
