use std::io::Write;

use jsoncsv::driver::csv_from_bytes;
use jsoncsv::errors::CsvError;

const INPUT: &str = "{\"a\":1,\"b\":\"x\"}\n{\"b\":\"y\",\"c\":[1,2]}\n";

fn expected_lines() -> Vec<String> {
    vec![
        "\"a\",\"b\",\"c_0\",\"c_1\"".to_string(),
        "\"1\",\"x\",\"\",\"\"".to_string(),
        "\"\",\"y\",\"1\",\"2\"".to_string(),
    ]
}

#[test]
fn plain_input_converts() {
    let lines = csv_from_bytes(&INPUT.as_bytes().to_vec()).unwrap();
    assert_eq!(lines, expected_lines());
}

#[test]
fn plain_input_without_trailing_newline_converts() {
    let data = INPUT.trim_end().as_bytes().to_vec();
    let lines = csv_from_bytes(&data).unwrap();
    assert_eq!(lines, expected_lines());
}

#[test]
fn crlf_lines_are_accepted() {
    let data = INPUT.replace('\n', "\r\n").into_bytes();
    let lines = csv_from_bytes(&data).unwrap();
    assert_eq!(lines, expected_lines());
}

#[test]
fn gzip_input_converts() {
    let mut enc = flate2::write::GzEncoder::new(Vec::new(), flate2::Compression::default());
    enc.write_all(INPUT.as_bytes()).unwrap();
    let data = enc.finish().unwrap();
    assert_eq!(&data[..2], &[0x1f, 0x8b]);
    let lines = csv_from_bytes(&data).unwrap();
    assert_eq!(lines, expected_lines());
}

#[test]
fn multi_member_gzip_input_converts() {
    let mut enc1 = flate2::write::GzEncoder::new(Vec::new(), flate2::Compression::default());
    enc1.write_all(b"{\"a\":1,\"b\":\"x\"}\n").unwrap();
    let mut data = enc1.finish().unwrap();
    let mut enc2 = flate2::write::GzEncoder::new(Vec::new(), flate2::Compression::default());
    enc2.write_all(b"{\"b\":\"y\",\"c\":[1,2]}\n").unwrap();
    data.extend_from_slice(&enc2.finish().unwrap());
    let lines = csv_from_bytes(&data).unwrap();
    assert_eq!(lines, expected_lines());
}

#[test]
fn zstd_input_converts() {
    let data = zstd::stream::encode_all(INPUT.as_bytes(), 0).unwrap();
    assert_eq!(&data[..4], &[0x28, 0xb5, 0x2f, 0xfd]);
    let lines = csv_from_bytes(&data).unwrap();
    assert_eq!(lines, expected_lines());
}

#[test]
fn detection_ignores_any_name_hint() {
    // Plain text that merely mentions compression still goes the plain path.
    let data = b"{\"name\":\"file.gz\"}\n".to_vec();
    let lines = csv_from_bytes(&data).unwrap();
    assert_eq!(lines, vec!["\"name\"".to_string(), "\"file.gz\"".to_string()]);
}

#[test]
fn invalid_json_is_a_parse_error_with_line() {
    let data = b"{\"a\":1}\nnot json\n".to_vec();
    match csv_from_bytes(&data) {
        Err(CsvError::ParseError { line, .. }) => assert_eq!(line, 2),
        other => panic!("expected a parse error, got {:?}", other),
    }
}

#[test]
fn short_input_fails_as_io_error() {
    let data = b"ab".to_vec();
    match csv_from_bytes(&data) {
        Err(CsvError::IoError { .. }) => {}
        other => panic!("expected an input error, got {:?}", other),
    }
}

#[test]
fn corrupt_gzip_fails_as_io_error() {
    let data = vec![0x1f, 0x8b, 0xff, 0xff, 0xff, 0xff];
    match csv_from_bytes(&data) {
        Err(CsvError::IoError { .. }) => {}
        other => panic!("expected an input error, got {:?}", other),
    }
}

#[test]
fn string_cells_are_escaped_in_rows() {
    let data = b"{\"a\":\"x\\ny\"}\n".to_vec();
    let lines = csv_from_bytes(&data).unwrap();
    assert_eq!(lines, vec!["\"a\"".to_string(), "\"x\\ny\"".to_string()]);
}

#[test]
fn nested_and_array_paths_through_pipeline() {
    let data = b"{\"a\":{\"b\":1,\"c\":2},\"d\":[\"u\",{\"e\":3}]}\n".to_vec();
    let lines = csv_from_bytes(&data).unwrap();
    assert_eq!(lines[0], "\"a.b\",\"a.c\",\"d_0\",\"d_1\"".to_string());
    assert_eq!(lines[1], "\"1\",\"2\",\"u\",\"{\\\"e\\\":3}\"".to_string());
}

#[test]
fn empty_objects_yield_empty_header_and_rows() {
    let lines = csv_from_bytes(&b"{}\n{}\n".to_vec()).unwrap();
    assert_eq!(lines, vec![String::new(), String::new(), String::new()]);
}
