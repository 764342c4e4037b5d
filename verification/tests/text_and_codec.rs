use chat_module::codec::{decode_text, standard_decode, url_safe_decode, url_safe_encode};
use chat_module::text::{
    blank, digits_only, eq_ignore_ascii_case, non_empty, replace_char_exec, short_label,
    split_after, starts_with, str_eq, strip_prefix, take_chars, trim,
};
use chat_module::utf8::{utf8_lossy, utf8_string};

#[test]
fn labels_and_previews_count_characters() {
    assert_eq!(short_label("0123456789"), "01234567");
    assert_eq!(short_label("abc"), "abc");
    assert_eq!(take_chars("héllo", 2), "hé");
    assert_eq!(take_chars("", 5), "");
}

#[test]
fn text_helpers_behave_like_std() {
    assert!(str_eq("a", "a"));
    assert!(!str_eq("a", "ab"));
    assert!(starts_with("Basic xyz", "Basic "));
    assert_eq!(strip_prefix("Basic xyz", "Basic "), Some("xyz"));
    assert_eq!(strip_prefix("Bearer xyz", "Basic "), None);
    assert_eq!(trim("  a b \t\n"), "a b");
    assert_eq!(trim("   "), "");
    assert!(blank("  \t"));
    assert!(blank(""));
    assert!(!blank(" x "));
    assert!(digits_only("0123"));
    assert!(digits_only(""));
    assert!(!digits_only("12a"));
    assert_eq!(split_after("user:pa:ss", ':'), Some("pa:ss"));
    assert_eq!(split_after("nocolon", ':'), None);
    assert!(eq_ignore_ascii_case("TrUe", "true"));
    assert!(!eq_ignore_ascii_case("tru", "true"));
    assert_eq!(replace_char_exec("/a/b", '/', '_'), "_a_b");
    assert_eq!(non_empty(""), None);
    assert_eq!(non_empty("x"), Some("x".to_string()));
}

#[test]
fn bytes_read_as_text() {
    assert_eq!(utf8_lossy(b"hi"), "hi");
    assert_eq!(utf8_lossy(&[0x68, 0xff, 0x69]), "h\u{FFFD}i");
    assert_eq!(utf8_string(b"ok".to_vec()), Some("ok".to_string()));
    assert_eq!(utf8_string(vec![0xc3]), None);
}

#[test]
fn base64_in_both_alphabets() {
    assert_eq!(standard_decode(b"aGVsbG8="), Some(b"hello".to_vec()));
    assert_eq!(standard_decode(b"aGVsbG8"), None, "the standard alphabet is padded");
    assert_eq!(url_safe_decode(b"aGVsbG8"), Ok(b"hello".to_vec()));
    assert!(url_safe_decode(b"aGVsbG8=").is_err(), "the URL-safe alphabet is unpadded");
    assert_eq!(url_safe_encode(&[251, 255, 191]), "-_-_");
    assert_eq!(url_safe_encode(b""), "");
    assert_eq!(decode_text("-_-_"), Ok(vec![251, 255, 191]));
    let data: Vec<u8> = (0u8..=255).collect();
    assert_eq!(url_safe_decode(url_safe_encode(&data).as_bytes()), Ok(data));
}

#[test]
fn url_safe_base64_of_every_remainder() {
    assert_eq!(url_safe_encode(b"a"), "YQ");
    assert_eq!(url_safe_encode(b"ab"), "YWI");
    assert_eq!(url_safe_encode(b"abc"), "YWJj");
    assert_eq!(url_safe_encode(b"abcd"), "YWJjZA");
    assert_eq!(url_safe_encode(&[0xff, 0xfe]), "__4");
    assert_eq!(decode_text("__4"), Ok(vec![0xff, 0xfe]));
}
