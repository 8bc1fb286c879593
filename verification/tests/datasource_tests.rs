use septic_config_generator::cells::{CtxErrorType, CtxValue};
use septic_config_generator::datasource::{
    CsvSourceReader, ExcelSourceReader, MultiSourceReader,
};

#[test]
fn csv_parses_text_float_int_zeros() {
    let csv_content = r#"keys;text;float;int;mix;zeros
key1;value1;1.1;1;1.0;0
# Ignore this line
key2;value2;2.2;2;2;00"#;

    let reader = CsvSourceReader::new("test.csv", "", Some(';'));
    let result = reader.read(&csv_content.as_bytes().to_vec());

    assert!(result.is_ok());

    let data = result.unwrap();
    assert_eq!(data.len(), 2);

    let values = data.get("key1").unwrap();
    assert_eq!(values.get("text"), Some(&CtxValue::Text("value1".to_string())));
    assert_eq!(values.get("float"), Some(&CtxValue::Float("1.1".to_string())));
    assert_eq!(values.get("int"), Some(&CtxValue::Int(1)));
    assert_eq!(values.get("mix"), Some(&CtxValue::Float("1.0".to_string())));
    assert_eq!(values.get("zeros"), Some(&CtxValue::Int(0)));

    let values = data.get("key2").unwrap();
    assert_eq!(values.get("text"), Some(&CtxValue::Text("value2".to_string())));
    assert_eq!(values.get("float"), Some(&CtxValue::Float("2.2".to_string())));
    assert_eq!(values.get("int"), Some(&CtxValue::Int(2)));
    assert_eq!(values.get("mix"), Some(&CtxValue::Int(2)));
    assert_eq!(values.get("zeros"), Some(&CtxValue::Text("00".to_string())));
}

#[test]
fn csv_parses_padded_text_float_int() {
    let csv_content = "keys ;  text   ;  float ; int  \nkey1  ;   value1  ;    1.1 ; 1  ";

    let reader = CsvSourceReader::new("test.csv", "", Some(';'));
    let result = reader.read(&csv_content.as_bytes().to_vec());

    assert!(result.is_ok());

    let data = result.unwrap();
    assert_eq!(data.len(), 1);

    let values = data.get("key1").unwrap();
    assert_eq!(values.get("text"), Some(&CtxValue::Text("value1".to_string())));
    assert_eq!(values.get("float"), Some(&CtxValue::Float("1.1".to_string())));
    assert_eq!(values.get("int"), Some(&CtxValue::Int(1)));
}

#[test]
fn csv_parses_empty_cell_as_empty() {
    let csv_content = "keys;header1;header2;header3\n    key1;value1;;value3";

    let reader = CsvSourceReader::new("test.csv", "", Some(';'));
    let result = reader.read(&csv_content.as_bytes().to_vec());

    assert!(result.is_ok());

    let data = result.unwrap();
    assert_eq!(data.len(), 1);

    let values = data.get("key1").unwrap();
    assert_eq!(values.get("header1"), Some(&CtxValue::Text("value1".to_string())));
    assert_eq!(values.get("header2"), Some(&CtxValue::Empty));
    assert_eq!(values.get("header3"), Some(&CtxValue::Text("value3".to_string())));
}

#[test]
fn csv_read_errors_on_invalid_row() {
    let csv_content = "keys;header1;header2\nkey1;value1a;value1b\nkey2;value2a";

    let reader = CsvSourceReader::new("test.csv", "", Some(';'));
    let result = reader.read(&csv_content.as_bytes().to_vec());
    assert!(result.is_err());
    assert!(result.unwrap_err().message().contains("CSV error: record 2"));
}

#[test]
fn csv_read_errors_on_first_column_not_string() {
    let csv_content = "keys;text;float;int\nkey1;value1;1.1;1\n2;value2;2.2;2";

    let reader = CsvSourceReader::new("test.csv", "", Some(';'));
    let result = reader.read(&csv_content.as_bytes().to_vec());

    assert!(result.is_err());
    assert!(result.unwrap_err().message().contains("First column must contain strings only"));
}

#[test]
fn csv_read_errors_on_first_column_empty_string() {
    let csv_content = "keys;text;float;int\nkey1;value1;1.1;1\n  ;value2;2.2;2";

    let reader = CsvSourceReader::new("test.csv", "", Some(';'));
    let result = reader.read(&csv_content.as_bytes().to_vec());

    assert!(result.is_err());
    assert!(result.unwrap_err().message().contains("First column must contain strings only"));
}

#[test]
fn csv_coerces_comma_decimal_and_bool() {
    let csv_content = "keys;num;flag\nkey1;1,5;true";

    let reader = CsvSourceReader::new("test.csv", "", Some(';'));
    let data = reader.read(&csv_content.as_bytes().to_vec()).unwrap();

    let values = data.get("key1").unwrap();
    assert_eq!(values.get("num"), Some(&CtxValue::Float("1.5".to_string())));
    assert_eq!(values.get("flag"), Some(&CtxValue::Bool(true)));
}

#[test]
fn csv_oversized_integer_becomes_float() {
    // one past i64::MAX no longer parses as an integer but still has the
    // shape of a float literal
    let csv_content = "keys;big;plus\nkey1;9223372036854775808;+007";

    let reader = CsvSourceReader::new("test.csv", "", Some(';'));
    let data = reader.read(&csv_content.as_bytes().to_vec()).unwrap();

    let values = data.get("key1").unwrap();
    assert_eq!(values.get("big"), Some(&CtxValue::Float("9223372036854775808".to_string())));
    assert_eq!(values.get("plus"), Some(&CtxValue::Int(7)));
}

#[test]
fn csv_reader_joins_relative_root() {
    let reader = CsvSourceReader::new("data.csv", "some/dir", None);
    assert_eq!(reader.path().as_str(), "some/dir/data.csv");
    let reader = CsvSourceReader::new("data.csv", "", None);
    assert_eq!(reader.path().as_str(), "data.csv");
}

#[test]
fn multi_reader_unions_in_file_order() {
    let file1 = "keys;val\na;1\nb;2";
    let file2 = "keys;val\nb;20\nc;3";

    let names = vec!["f1.csv".to_string(), "f2.csv".to_string()];
    let reader = MultiSourceReader::new(&names, "", Some(';'));
    let datas = vec![file1.as_bytes().to_vec(), file2.as_bytes().to_vec()];
    let table = reader.read(&datas).unwrap();

    // the later file's row overrides the earlier one's, position kept
    assert_eq!(table.len(), 3);
    assert_eq!(table.key_at(0).as_str(), "a");
    assert_eq!(table.key_at(1).as_str(), "b");
    assert_eq!(table.key_at(2).as_str(), "c");
    assert_eq!(table.get("b").unwrap().get("val"), Some(&CtxValue::Int(20)));
}

#[test]
fn multi_reader_reports_first_bad_file() {
    let file1 = "keys;val\na;1";
    let file2 = "keys;val\n2;2";

    let names = vec!["f1.csv".to_string(), "f2.csv".to_string()];
    let reader = MultiSourceReader::new(&names, "", Some(';'));
    let datas = vec![file1.as_bytes().to_vec(), file2.as_bytes().to_vec()];
    let result = reader.read(&datas);
    assert!(result.is_err());
    assert!(result.unwrap_err().message().contains("First column must contain strings only"));
}

fn text(s: &str) -> CtxValue {
    CtxValue::Text(s.to_string())
}

#[test]
fn grid_read_builds_keyed_rows() {
    let grid = vec![
        vec![text("keys"), text("num"), text("err")],
        vec![text("one"), CtxValue::Int(1), CtxValue::ErrorCell(CtxErrorType::Div0)],
        vec![text("two"), CtxValue::Float("2.5".to_string()), CtxValue::Empty],
    ];
    let reader = ExcelSourceReader::new("test.xlsx", "", Some("sheet"));
    let table = reader.read(&grid).unwrap();

    assert_eq!(table.len(), 2);
    assert_eq!(table.key_at(0).as_str(), "one");
    let row = table.get("one").unwrap();
    assert_eq!(row.get("num"), Some(&CtxValue::Int(1)));
    assert_eq!(row.get("err"), Some(&CtxValue::ErrorCell(CtxErrorType::Div0)));
    let row = table.get("two").unwrap();
    assert_eq!(row.get("num"), Some(&CtxValue::Float("2.5".to_string())));
    assert_eq!(row.get("err"), Some(&CtxValue::Empty));
}

#[test]
fn grid_read_errors_on_nontext_key() {
    let grid = vec![
        vec![text("keys"), text("num")],
        vec![CtxValue::Int(5), CtxValue::Int(1)],
    ];
    let reader = ExcelSourceReader::new("test.xlsx", "", Some("sheet"));
    let result = reader.read(&grid);
    assert!(result.is_err());
    assert!(result.unwrap_err().message().contains("First column must contain strings only"));
}
