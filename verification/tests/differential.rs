use localhost::chunked::{decode_chunked_body, find_chunked_body_end};
use localhost::framer::frame_message;
use localhost::requests::parse_http_request;
use localhost::session_manager::SessionManager;
use localhost::upload_handler::{handle_file_upload, UploadResult, MAX_UPLOAD_SIZE};

// The same rules written with the string functions of the standard
// library, and a generator of byte strings out of pieces that matter to
// them. Every test runs the library and the standard-library rule on the
// same inputs and wants the same answer.

const PIECES: [&[u8]; 50] = [
    b"\r\n", b"\r\n", b"\r\n\r\n", b"\r", b"\n", b" ", b"\t", b":", b": ", b";", b"=", b"0",
    b"4", b"5", b"a", b"f", b"F", b"+", b"-", b"z", b"1f", b"00", b"Content-Length",
    b"content-length:", b"CONTENT-LENGTH: ", b"Transfer-Encoding", b"Transfer-Encoding: chunked",
    b"transfer-encoding: CHUNKED", b"chunked", b"Chunked", b"session_id=", b"session_id",
    b"Cookie", b"\xc2\xa0", b"\xe2\x80\x83", b"\xe3\x80\x80", b"\xc2\x85", b"\xff", b"\xc2",
    b"\xe2\x80", b"\xc3\xa9", b"GET", b"/", b"HTTP/1.1", b"boundary=", b"--X", b"filename=\"",
    b"\"", b"Wiki", b"0\r\n\r\n",
];

struct Generator(u64);

impl Generator {
    fn next(&mut self) -> u64 {
        self.0 ^= self.0 << 13;
        self.0 ^= self.0 >> 7;
        self.0 ^= self.0 << 17;
        self.0
    }

    fn bytes(&mut self, most: u64) -> Vec<u8> {
        let count = self.next() % (most + 1);
        let mut out = Vec::new();
        for _ in 0..count {
            out.extend_from_slice(PIECES[(self.next() % PIECES.len() as u64) as usize]);
        }
        out
    }

    fn text(&mut self, most: u64) -> String {
        String::from_utf8_lossy(&self.bytes(most)).into_owned()
    }
}

fn position(hay: &[u8], needle: &[u8]) -> Option<usize> {
    hay.windows(needle.len()).position(|w| w == needle)
}

fn std_chunk_size(body: &[u8], at: usize) -> Option<(usize, usize)> {
    let eol = at + position(&body[at..], b"\r\n")?;
    let text = std::str::from_utf8(&body[at..eol]).ok()?;
    let size = usize::from_str_radix(text.trim(), 16).ok()?;
    Some((eol + 2, size))
}

fn std_scan(body: &[u8]) -> Option<usize> {
    let mut at = 0;
    while at < body.len() {
        let (data, size) = std_chunk_size(body, at)?;
        if size == 0 {
            return if body[data..].starts_with(b"\r\n") { Some(data + 2) } else { None };
        }
        if size > body.len() - data {
            return None;
        }
        at = data + size + 2;
    }
    None
}

fn std_decode(body: &[u8]) -> Result<Vec<u8>, ()> {
    let mut out = Vec::new();
    let mut at = 0;
    while at < body.len() {
        let (data, size) = std_chunk_size(body, at).ok_or(())?;
        if size == 0 {
            break;
        }
        if size > body.len() - data {
            return Err(());
        }
        out.extend_from_slice(&body[data..data + size]);
        at = data + size + 2;
    }
    Ok(out)
}

fn std_frame(buf: &[u8]) -> Option<usize> {
    let end = position(buf, b"\r\n\r\n")? + 4;
    let head = String::from_utf8_lossy(&buf[..end]);
    let chunked = head
        .lines()
        .any(|line| line.to_ascii_lowercase().starts_with("transfer-encoding: chunked"));
    let needed = if chunked {
        end + std_scan(&buf[end..])?
    } else {
        let declared = head
            .lines()
            .find(|line| line.to_ascii_lowercase().starts_with("content-length:"))
            .and_then(|line| line.split(':').nth(1))
            .and_then(|v| v.trim().parse::<usize>().ok())
            .unwrap_or(0);
        end.checked_add(declared)?
    };
    if buf.len() >= needed {
        Some(needed)
    } else {
        None
    }
}

fn std_session_id(header: &str) -> Option<String> {
    header
        .split(';')
        .map(|cookie| cookie.trim())
        .find(|cookie| cookie.starts_with("session_id="))
        .map(|cookie| cookie.trim_start_matches("session_id=").to_string())
}

struct Parsed {
    words: [String; 3],
    headers: Vec<(String, String)>,
    body: Vec<u8>,
}

fn std_parse(raw: &[u8]) -> Option<Parsed> {
    let end = position(raw, b"\r\n\r\n")? + 4;
    let head = std::str::from_utf8(&raw[..end]).ok()?;
    let mut lines = head.split("\r\n");
    let mut words = lines.next()?.split_whitespace();
    let words = [words.next()?.to_string(), words.next()?.to_string(), words.next()?.to_string()];
    let mut headers: Vec<(String, String)> = Vec::new();
    for line in lines {
        if line.is_empty() {
            break;
        }
        if let Some((key, value)) = line.split_once(": ") {
            match headers.iter_mut().find(|(k, _)| k == key) {
                Some(entry) => entry.1 = value.to_string(),
                None => headers.push((key.to_string(), value.to_string())),
            }
        }
    }
    let mut body = raw[end..].to_vec();
    let chunked = head
        .lines()
        .any(|line| line.to_ascii_lowercase().starts_with("transfer-encoding: chunked"));
    if chunked {
        body = std_decode(&body).ok()?;
    }
    Some(Parsed { words, headers, body })
}

fn std_upload(body: &[u8], content_type: &str) -> Result<(String, Vec<u8>), &'static str> {
    if body.len() > MAX_UPLOAD_SIZE {
        return Err("too large");
    }
    if !content_type.starts_with("multipart/form-data; boundary=") {
        return Err("bad");
    }
    let delimiter = format!("--{}", content_type.split("boundary=").nth(1).ok_or("bad")?);
    let text = std::str::from_utf8(body).map_err(|_| "bad")?;
    let part = text.split(delimiter.as_str()).find(|p| p.contains("filename=\"")).ok_or("bad")?;
    let from = part.find("filename=\"").ok_or("bad")? + 10;
    let to = from + part[from..].find('"').ok_or("bad")?;
    let content = part.find("\r\n\r\n").ok_or("bad")? + 4;
    let name = &part[from..to];
    if name.contains('/') || name.contains('\\') || name.contains("..") {
        return Err("bad");
    }
    Ok((name.to_string(), part.as_bytes()[content..].to_vec()))
}

#[test]
fn scan_agrees_with_std_rule() {
    let mut generator = Generator(0x9e3779b97f4a7c15);
    for _ in 0..20000 {
        let body = generator.bytes(10);
        assert_eq!(find_chunked_body_end(&body), std_scan(&body), "{:?}", body);
    }
}

#[test]
fn decode_agrees_with_std_rule() {
    let mut generator = Generator(0x2545f4914f6cdd1d);
    for _ in 0..20000 {
        let body = generator.bytes(10);
        assert_eq!(decode_chunked_body(&body), std_decode(&body), "{:?}", body);
    }
}

#[test]
fn frame_agrees_with_std_rule() {
    let mut generator = Generator(0xd1b54a32d192ed03);
    for _ in 0..20000 {
        let mut buf = generator.bytes(8);
        if generator.next() % 2 == 0 {
            buf.extend_from_slice(b"\r\n\r\n");
            buf.extend_from_slice(&generator.bytes(6));
        }
        assert_eq!(frame_message(&buf), std_frame(&buf), "{:?}", buf);
    }
}

#[test]
fn session_id_agrees_with_std_rule() {
    let mut generator = Generator(0x94d049bb133111eb);
    for _ in 0..20000 {
        let header = generator.text(8);
        assert_eq!(SessionManager::extract_session_id(&header), std_session_id(&header), "{:?}", header);
    }
}

#[test]
fn parse_agrees_with_std_rule() {
    let mut generator = Generator(0xbf58476d1ce4e5b9);
    for _ in 0..20000 {
        let mut raw = generator.bytes(10);
        if generator.next() % 4 != 0 {
            raw.extend_from_slice(b"\r\n\r\n");
            raw.extend_from_slice(&generator.bytes(5));
        }
        let got = parse_http_request(&raw);
        let want = std_parse(&raw);
        assert_eq!(got.is_some(), want.is_some(), "{:?}", raw);
        if let (Some(got), Some(want)) = (got, want) {
            assert_eq!([got.method, got.path, got.version], want.words, "{:?}", raw);
            assert_eq!(got.body, want.body, "{:?}", raw);
            assert_eq!(got.headers.len(), want.headers.len(), "{:?}", raw);
            for (i, (key, value)) in want.headers.iter().enumerate() {
                assert_eq!(got.headers.key_at(i), key, "{:?}", raw);
                assert_eq!(got.headers.value_at(i), value, "{:?}", raw);
            }
        }
    }
}

#[test]
fn upload_agrees_with_std_rule() {
    let mut generator = Generator(0x853c49e6748fea9b);
    for _ in 0..20000 {
        let mut content_type = String::new();
        if generator.next() % 8 != 0 {
            content_type.push_str("multipart/form-data; boundary=");
        }
        content_type.push_str(&generator.text(3));
        let mut body = generator.bytes(6);
        if generator.next() % 2 == 0 {
            body.extend_from_slice(b"--X\r\nfilename=\"");
            body.extend_from_slice(&generator.bytes(4));
        }
        let got = handle_file_upload(&body, &content_type);
        match (got, std_upload(&body, &content_type)) {
            (Ok(file), Ok((name, content))) => {
                assert_eq!(file.filename, name, "{:?} {:?}", body, content_type);
                assert_eq!(file.content, content, "{:?} {:?}", body, content_type);
            }
            (Err(UploadResult::BadRequest), Err("bad")) => {}
            (Err(UploadResult::PayloadTooLarge), Err("too large")) => {}
            (got, want) => panic!("{:?} {:?}: {:?} {:?}", body, content_type, got.map(|f| f.filename), want),
        }
    }
}
