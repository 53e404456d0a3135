use toy_edge_worker::http::visible_text;
use toy_edge_worker::text::{
    characters, comes_before, decimal_text, find_char, has_prefix, same_text, split_once,
    take_before, text_bytes, trim, white_space,
};

#[test]
fn white_space_is_that_of_unicode() {
    for code in 0..=0x10ffffu32 {
        if let Some(c) = char::from_u32(code) {
            assert_eq!(white_space(c), c.is_whitespace(), "{code:x}");
        }
    }
}

#[test]
fn text_is_cut_and_trimmed() {
    let pair = |a: &str, b: &str| Some((a.to_string(), b.to_string()));
    assert_eq!(split_once("a=b=c", '='), pair("a", "b=c"));
    assert_eq!(split_once("=", '='), pair("", ""));
    assert_eq!(split_once("ab", '='), None);
    assert_eq!(split_once("\u{e9}=\u{65e5}", '='), pair("\u{e9}", "\u{65e5}"));
    assert_eq!(take_before("localhost:80", ':'), "localhost");
    assert_eq!(take_before("localhost", ':'), "localhost");
    assert_eq!(take_before("[::1]:80", ':'), "[");
    assert_eq!(find_char("\u{e9}:", ':'), Some(1));
    for text in ["", "  ", " a", "a ", "\u{3000}a b\u{85}\n", "\u{200b}a"] {
        assert_eq!(trim(text), text.trim());
    }
}

#[test]
fn text_is_compared() {
    let texts = ["", "a", "ab", "b", "\u{e9}", "\u{65e5}", "\u{1f600}", "aB", "\u{ffff}"];
    for a in texts {
        for b in texts {
            assert_eq!(comes_before(a, b), a < b);
            assert_eq!(same_text(a, b), a == b);
            assert_eq!(has_prefix(a, b), a.starts_with(b));
        }
    }
}

#[test]
fn text_is_taken_apart() {
    assert_eq!(characters("a\u{65e5}"), vec!['a', '\u{65e5}']);
    assert_eq!(text_bytes("a\u{65e5}"), "a\u{65e5}".as_bytes());
}

#[test]
fn numbers_are_written_in_decimal() {
    for n in 0..=u16::MAX {
        assert_eq!(decimal_text(n), n.to_string());
    }
}

#[test]
fn header_values_are_read_like_header_values() {
    for byte in 0..=255u8 {
        let bytes = [b'x', byte];
        let expected = match hyper::header::HeaderValue::from_bytes(&bytes) {
            Ok(value) => value.to_str().ok().map(String::from),
            Err(_) => None,
        };
        assert_eq!(visible_text(&bytes), expected);
    }
}

#[test]
fn visible_text_reads_back() {
    for text in ["", "a b", "~!\t", "http://x/?y=z"] {
        assert_eq!(visible_text(text.as_bytes()), Some(text.to_string()));
    }
}
