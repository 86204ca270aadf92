use jsoncsv::codec::{classify, Codec};
use jsoncsv::emit::write_header;
use jsoncsv::errors::CsvError;
use jsoncsv::escape::{escape, unescape};
use jsoncsv::merge::merge_vecs;

#[test]
fn escape_round_trips() {
    for s in [
        "",
        "plain",
        "a\nb",
        "tab\tand\rreturn",
        "back\\slash",
        "quo\"te",
        "bell\u{7}page\u{c}",
        "raw\u{1}control\u{1f}",
        "unicode \u{e9}\u{4e16}",
    ] {
        let escaped = escape(&s.to_string());
        assert_eq!(unescape(&escaped), Some(s.to_string()));
    }
}

#[test]
fn escape_exact_forms() {
    assert_eq!(escape(&"a\nb".to_string()), "a\\nb".to_string());
    assert_eq!(escape(&"a\"b".to_string()), "a\\\"b".to_string());
    assert_eq!(escape(&"a\\b".to_string()), "a\\\\b".to_string());
    assert_eq!(escape(&"a\tb".to_string()), "a\\tb".to_string());
}

#[test]
fn escape_agrees_with_escape_string_crate() {
    // On strings without spaces or double quotes the canonical escape and
    // the escape_string crate's escape coincide.
    for s in ["a\nb", "t\tr\r", "x\\y", "bell\u{7}", "plain"] {
        assert_eq!(
            escape(&s.to_string()),
            escape_string::escape(s).to_string()
        );
    }
}

#[test]
fn unescape_rejects_trailing_backslash() {
    assert_eq!(unescape(&"abc\\".to_string()), None);
}

#[test]
fn header_is_escaped_and_quoted() {
    let cols = vec!["a\"b".to_string(), "c".to_string()];
    assert_eq!(write_header(&cols), "\"a\\\"b\",\"c\"".to_string());
}

#[test]
fn empty_header_is_empty_line() {
    let cols: Vec<String> = Vec::new();
    assert_eq!(write_header(&cols), String::new());
}

#[test]
fn merge_keeps_first_seen_order() {
    let a = vec!["a".to_string(), "b".to_string()];
    let b = vec!["b".to_string(), "c".to_string(), "a".to_string()];
    assert_eq!(
        merge_vecs(a, b),
        vec!["a".to_string(), "b".to_string(), "c".to_string()]
    );
}

#[test]
fn merge_deduplicates_within_addition() {
    let a: Vec<String> = Vec::new();
    let b = vec!["x".to_string(), "x".to_string()];
    assert_eq!(merge_vecs(a, b), vec!["x".to_string()]);
}

#[test]
fn zstd_magic_is_detected() {
    let data = vec![0x28, 0xb5, 0x2f, 0xfd, 0x00, 0x01];
    assert_eq!(classify(&data).unwrap(), Codec::Zstd);
}

#[test]
fn gzip_magic_is_detected() {
    let data = vec![0x1f, 0x8b, 0x08, 0x00];
    assert_eq!(classify(&data).unwrap(), Codec::Gzip);
}

#[test]
fn other_bytes_are_plain() {
    let data = b"{\"a\":1}".to_vec();
    assert_eq!(classify(&data).unwrap(), Codec::Plain);
}

#[test]
fn short_input_is_an_io_error() {
    let data = b"ab".to_vec();
    match classify(&data) {
        Err(CsvError::IoError { .. }) => {}
        other => panic!("expected an input error, got {:?}", other),
    }
}
