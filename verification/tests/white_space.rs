use localhost::requests::parse_http_request;
use localhost::space::{space_at, trim_bounds, trimmed};

const SPACES: [u32; 25] = [
    0x09, 0x0a, 0x0b, 0x0c, 0x0d, 0x20, 0x85, 0xa0, 0x1680, 0x2000, 0x2001, 0x2002, 0x2003,
    0x2004, 0x2005, 0x2006, 0x2007, 0x2008, 0x2009, 0x200a, 0x2028, 0x2029, 0x202f, 0x205f,
    0x3000,
];

#[test]
fn every_white_space_character_is_trimmed() {
    for code in SPACES {
        let c = char::from_u32(code).unwrap();
        assert!(c.is_whitespace());
        let text = format!("{}{}x y{}", c, c, c);
        assert_eq!(trimmed(text.as_bytes()), b"x y");
        assert_eq!(space_at(text.as_bytes(), 0), c.len_utf8());
    }
}

#[test]
fn white_space_is_exactly_what_std_takes_for_it() {
    for code in 0u32..0x3100 {
        let Some(c) = char::from_u32(code) else { continue };
        let text = format!("{}a{}", c, c);
        assert_eq!(trimmed(text.as_bytes()), text.trim().as_bytes(), "U+{:04X}", code);
        let width = if c.is_whitespace() { c.len_utf8() } else { 0 };
        assert_eq!(space_at(text.as_bytes(), 0), width, "U+{:04X}", code);
    }
}

#[test]
fn trim_bounds_point_into_the_text() {
    assert_eq!(trim_bounds(b"  ab \t"), (2, 4));
    assert_eq!(trim_bounds(b"ab"), (0, 2));
    assert_eq!(trim_bounds(b"   "), (3, 3));
    assert_eq!(trim_bounds(b""), (0, 0));
    assert_eq!(trim_bounds("\u{3000}a".as_bytes()), (3, 4));
}

#[test]
fn space_at_needs_the_whole_character() {
    assert_eq!(space_at(b"\xc2", 0), 0);
    assert_eq!(space_at(b"\xe2\x80", 0), 0);
    assert_eq!(space_at(b"\xe2\x80\xa8", 0), 3);
    assert_eq!(space_at(b"\xe2\x80\xa8", 1), 0);
    assert_eq!(space_at(b" ", 1), 0);
    assert_eq!(space_at(b" ", 7), 0);
}

#[test]
fn request_line_words_are_what_std_splits() {
    for code in SPACES {
        if code == 0x0a || code == 0x0d {
            continue;
        }
        let c = char::from_u32(code).unwrap();
        let line = format!("{}GET{}{}/p{}HTTP/1.1{}", c, c, c, c, c);
        let raw = format!("{}\r\n\r\n", line);
        let req = parse_http_request(raw.as_bytes()).unwrap();
        let words: Vec<&str> = line.split_whitespace().collect();
        assert_eq!(words, ["GET", "/p", "HTTP/1.1"]);
        assert_eq!(req.method, words[0]);
        assert_eq!(req.path, words[1]);
        assert_eq!(req.version, words[2]);
    }
}
