use jsoncsv::driver::csv_lines;
use jsoncsv::flatten::{construct_row, get_names};
use jsoncsv::value::Json;

fn num(t: &str) -> Json {
    Json::Number(t.to_string())
}

fn obj(entries: Vec<(&str, Json)>) -> Json {
    Json::Object(entries.into_iter().map(|(k, v)| (k.to_string(), v)).collect())
}

#[test]
fn flat_object_columns_and_row() {
    let rec = obj(vec![("a", num("1")), ("b", Json::Str("x".to_string()))]);
    let names = get_names(String::new(), &rec);
    assert_eq!(names, vec!["a".to_string(), "b".to_string()]);
    let lines = csv_lines(&vec![rec]);
    assert_eq!(lines, vec!["\"a\",\"b\"".to_string(), "\"1\",\"x\"".to_string()]);
}

#[test]
fn nested_object_columns() {
    let rec = obj(vec![("a", obj(vec![("b", num("1")), ("c", num("2"))]))]);
    let names = get_names(String::new(), &rec);
    assert_eq!(names, vec!["a.b".to_string(), "a.c".to_string()]);
}

#[test]
fn deep_nested_object_columns() {
    let rec = obj(vec![("a", obj(vec![("b", obj(vec![("c", num("7"))]))]))]);
    let names = get_names(String::new(), &rec);
    assert_eq!(names, vec!["a.b.c".to_string()]);
}

#[test]
fn array_columns() {
    let rec = obj(vec![("a", Json::Array(vec![num("1"), num("2"), num("3")]))]);
    let names = get_names(String::new(), &rec);
    assert_eq!(
        names,
        vec!["a_0".to_string(), "a_1".to_string(), "a_2".to_string()]
    );
}

#[test]
fn array_indexes_above_nine() {
    let elems: Vec<Json> = (0..11).map(|i: i32| num(&i.to_string())).collect();
    let rec = obj(vec![("a", Json::Array(elems))]);
    let names = get_names(String::new(), &rec);
    assert_eq!(names.len(), 11);
    assert_eq!(names[10], "a_10".to_string());
}

#[test]
fn array_element_object_is_opaque() {
    let inner = obj(vec![("b", num("1"))]);
    let rec = obj(vec![("a", Json::Array(vec![inner]))]);
    let names = get_names(String::new(), &rec);
    assert_eq!(names, vec!["a_0".to_string()]);
    let cols = vec!["a_0".to_string()];
    let row = construct_row(&cols, &rec).unwrap();
    assert_eq!(row, vec!["{\"b\":1}".to_string()]);
}

#[test]
fn merged_records_have_empty_cells() {
    let r1 = obj(vec![("a", num("1"))]);
    let r2 = obj(vec![("b", num("2"))]);
    let lines = csv_lines(&vec![r1, r2]);
    assert_eq!(
        lines,
        vec![
            "\"a\",\"b\"".to_string(),
            "\"1\",\"\"".to_string(),
            "\"\",\"2\"".to_string(),
        ]
    );
}

#[test]
fn header_counts_distinct_paths_once() {
    let r1 = obj(vec![("a", num("1")), ("b", num("2"))]);
    let r2 = obj(vec![("b", num("3")), ("c", num("4"))]);
    let r3 = obj(vec![("a", num("5"))]);
    let lines = csv_lines(&vec![r1, r2, r3]);
    assert_eq!(lines[0], "\"a\",\"b\",\"c\"".to_string());
    assert_eq!(lines.len(), 4);
}

#[test]
fn nested_keys_in_reordered_records() {
    let r1 = obj(vec![("a", obj(vec![("x", num("1")), ("y", num("2"))]))]);
    let r2 = obj(vec![("a", obj(vec![("y", num("20")), ("x", num("10"))]))]);
    let lines = csv_lines(&vec![r1, r2]);
    assert_eq!(lines[0], "\"a.x\",\"a.y\"".to_string());
    assert_eq!(lines[1], "\"1\",\"2\"".to_string());
    assert_eq!(lines[2], "\"10\",\"20\"".to_string());
}

#[test]
fn scalar_variants_render_as_literals() {
    let rec = obj(vec![
        ("n", Json::Null),
        ("t", Json::Bool(true)),
        ("f", Json::Bool(false)),
        ("s", Json::Str("hi".to_string())),
    ]);
    let cols = get_names(String::new(), &rec);
    let row = construct_row(&cols, &rec).unwrap();
    assert_eq!(
        row,
        vec![
            "null".to_string(),
            "true".to_string(),
            "false".to_string(),
            "hi".to_string(),
        ]
    );
}

#[test]
fn schema_mismatch_names_first_missing_column() {
    let rec = obj(vec![("a", num("1")), ("b", num("2")), ("c", num("3"))]);
    let cols = vec!["a".to_string()];
    match construct_row(&cols, &rec) {
        Err(jsoncsv::errors::CsvError::SchemaMismatch { column }) => {
            assert_eq!(column, "b".to_string());
        }
        other => panic!("expected a schema mismatch, got {:?}", other),
    }
}

#[test]
fn schema_mismatch_message_names_column() {
    let rec = obj(vec![("q", num("1"))]);
    let cols: Vec<String> = Vec::new();
    let err = construct_row(&cols, &rec).unwrap_err();
    assert_eq!(err.message(), "Column not found: q".to_string());
}

#[test]
fn later_duplicate_leaf_wins() {
    let rec = Json::Object(vec![
        ("a".to_string(), num("1")),
        ("a".to_string(), num("2")),
    ]);
    let cols = vec!["a".to_string()];
    let row = construct_row(&cols, &rec).unwrap();
    assert_eq!(row, vec!["2".to_string()]);
}
