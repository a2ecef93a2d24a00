use fedimint_observer::observer::FederationObserver;
use fedimint_observer::query::{convert_cell, Cell, ColumnKind, JsonValue, QueryResult};

fn cell(name: &str, kind: ColumnKind) -> Cell {
    Cell {
        name: name.to_owned(),
        kind,
        as_bool: None,
        as_text: None,
        as_int: None,
        as_real: None,
        as_blob: None,
    }
}

#[test]
fn blob_is_rendered_as_lower_case_hex() {
    let mut blob = cell("data", ColumnKind::Blob);
    blob.as_blob = Some(vec![1, 2, 3, 15, 16]);
    assert_eq!(convert_cell(&blob), JsonValue::Text("0102030f10".to_owned()));
    blob.as_blob = Some(vec![0x00, 0xff, 0xa5, 0x5a, 0x9c]);
    assert_eq!(convert_cell(&blob), JsonValue::Text("00ffa55a9c".to_owned()));
    blob.as_blob = Some(b"Hello world!".to_vec());
    assert_eq!(convert_cell(&blob), JsonValue::Text("48656c6c6f20776f726c6421".to_owned()));
    blob.as_blob = Some(vec![]);
    assert_eq!(convert_cell(&blob), JsonValue::Text(String::new()));
    blob.as_blob = None;
    assert_eq!(convert_cell(&blob), JsonValue::Null);
}

#[test]
fn typed_columns_are_read_as_their_type_only() {
    let mut flag = cell("flag", ColumnKind::Bool);
    flag.as_int = Some(1);
    flag.as_text = Some("true".to_owned());
    assert_eq!(convert_cell(&flag), JsonValue::Null);
    flag.as_bool = Some(true);
    assert_eq!(convert_cell(&flag), JsonValue::Bool(true));

    for kind in [ColumnKind::SmallInt, ColumnKind::Integer, ColumnKind::BigInt] {
        let mut number = cell("n", kind);
        number.as_bool = Some(true);
        assert_eq!(convert_cell(&number), JsonValue::Null);
        number.as_int = Some(-7);
        assert_eq!(convert_cell(&number), JsonValue::Int(-7));
    }

    for kind in [ColumnKind::Real, ColumnKind::Double] {
        let mut real = cell("r", kind);
        real.as_int = Some(3);
        assert_eq!(convert_cell(&real), JsonValue::Null);
        real.as_real = Some(1.5f64.to_bits());
        assert_eq!(convert_cell(&real), JsonValue::Real(1.5f64.to_bits()));
    }

    let mut text = cell("t", ColumnKind::Text);
    text.as_blob = Some(vec![1]);
    assert_eq!(convert_cell(&text), JsonValue::Null);
    text.as_text = Some("abc".to_owned());
    assert_eq!(convert_cell(&text), JsonValue::Text("abc".to_owned()));
}

#[test]
fn untyped_column_is_tried_as_bool_text_integer_blob() {
    let mut any = cell("x", ColumnKind::Null);
    assert_eq!(convert_cell(&any), JsonValue::Null);
    any.as_real = Some(2.0f64.to_bits());
    assert_eq!(convert_cell(&any), JsonValue::Null);
    any.as_blob = Some(vec![0xde, 0xad]);
    assert_eq!(convert_cell(&any), JsonValue::Text("dead".to_owned()));
    any.as_int = Some(12);
    assert_eq!(convert_cell(&any), JsonValue::Int(12));
    any.as_text = Some("twelve".to_owned());
    assert_eq!(convert_cell(&any), JsonValue::Text("twelve".to_owned()));
    any.as_bool = Some(false);
    assert_eq!(convert_cell(&any), JsonValue::Bool(false));
}

#[test]
fn empty_fetch_gives_an_empty_result() {
    let result = QueryResult::from_rows(&vec![]);
    assert!(result.cols.is_empty());
    assert!(result.rows.is_empty());
}

#[test]
fn result_names_columns_after_the_first_row() {
    let mut id = cell("id", ColumnKind::BigInt);
    id.as_int = Some(1);
    let mut name = cell("name", ColumnKind::Text);
    name.as_text = Some("alpha".to_owned());
    let mut id2 = cell("id", ColumnKind::BigInt);
    id2.as_int = Some(2);
    let name2 = cell("name", ColumnKind::Text);
    let rows = vec![vec![id, name], vec![id2, name2]];
    let result = QueryResult::from_rows(&rows);
    assert_eq!(result.cols, vec!["id".to_owned(), "name".to_owned()]);
    assert_eq!(
        result.rows,
        vec![
            vec![JsonValue::Int(1), JsonValue::Text("alpha".to_owned())],
            vec![JsonValue::Int(2), JsonValue::Null],
        ]
    );
}

#[test]
fn observer_builds_query_results() {
    let observer = FederationObserver::new("secret");
    let mut blob = cell("txid", ColumnKind::Blob);
    blob.as_blob = Some(vec![0xca, 0xfe]);
    let result = observer.run_qery(&vec![vec![blob]]);
    assert_eq!(result.cols, vec!["txid".to_owned()]);
    assert_eq!(result.rows, vec![vec![JsonValue::Text("cafe".to_owned())]]);
    let empty = observer.run_qery(&vec![]);
    assert_eq!(empty, QueryResult { cols: vec![], rows: vec![] });
}
