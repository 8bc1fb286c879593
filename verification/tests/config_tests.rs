use septic_config_generator::config::{
    validate_encoding, validate_source, Filename, Source,
};

fn single(name: &str) -> Filename {
    Filename::Single(name.to_string())
}

fn multiple(names: Vec<&str>) -> Filename {
    Filename::Multiple(names.into_iter().map(|s| s.to_string()).collect())
}

#[test]
fn validate_source_good_xlsx() {
    let source = Source {
        filename: single("data.xlsx"),
        id: "id".to_string(),
        sheet: Some("sheet".to_string()),
        ..Default::default()
    };
    assert!(validate_source(&source).is_ok())
}

#[test]
fn fail_validate_source_xlsx_no_sheet() {
    let source = Source {
        filename: single("data.xlsx"),
        id: "id".to_string(),
        ..Default::default()
    };
    let result = validate_source(&source);
    assert!(result.is_err());
    assert!(result.unwrap_err().message().contains("missing field 'sheet'"))
}

#[test]
fn fail_validate_source_xlsx_with_delimiter() {
    let source = Source {
        filename: single("data.xlsx"),
        id: "id".to_string(),
        sheet: Some("sheet".to_string()),
        delimiter: Some(':'),
        ..Default::default()
    };
    let result = validate_source(&source);
    assert!(result.is_err());
    assert!(result.unwrap_err().message().contains("field 'delimiter' invalid"))
}

#[test]
fn validate_source_good_csv() {
    let source = Source {
        filename: single("data.csv"),
        id: "id".to_string(),
        delimiter: Some(':'),
        ..Default::default()
    };
    assert!(validate_source(&source).is_ok())
}

#[test]
fn fail_validate_source_csv_with_sheet() {
    let source = Source {
        filename: single("data.csv"),
        id: "id".to_string(),
        sheet: Some("sheet".to_string()),
        ..Default::default()
    };
    let result = validate_source(&source);
    assert!(result.is_err());
    assert!(result.unwrap_err().message().contains("field 'sheet' invalid"))
}

#[test]
fn validate_multisource_good_csv() {
    let source = Source {
        filename: multiple(vec!["data1.csv", "data2.csv"]),
        id: "id".to_string(),
        delimiter: Some(':'),
        ..Default::default()
    };
    assert!(validate_source(&source).is_ok())
}

#[test]
fn fail_validate_multisource_with_xlsx() {
    let source = Source {
        filename: multiple(vec!["data1.csv", "data2.xlsx"]),
        id: "id".to_string(),
        delimiter: Some(':'),
        ..Default::default()
    };
    let result = validate_source(&source);
    assert!(result.unwrap_err().message().contains("in multi-file source 'id' must be .csv"));
}

#[test]
fn fail_validate_multisource_with_sheet() {
    let source = Source {
        filename: multiple(vec!["data1.csv", "data2.csv"]),
        id: "id".to_string(),
        sheet: Some("sheet".to_string()),
        ..Default::default()
    };
    let result = validate_source(&source);
    assert!(result.is_err());
    assert!(result.unwrap_err().message().contains("field 'sheet' invalid"))
}

#[test]
fn fail_validate_unknown_source_type() {
    let source = Source {
        filename: single("data.whatever"),
        id: "id".to_string(),
        ..Default::default()
    };
    let result = validate_source(&source);
    assert!(result.is_err());
    assert!(result.unwrap_err().message().contains("invalid file extension"))
}

#[test]
fn fail_validate_encoding_unknown() {
    let result = validate_encoding("unknown");
    assert!(result.is_err());
    assert!(result.unwrap_err().message().contains("invalid encoding"));
}

#[test]
fn validate_encoding_accepts_known_labels() {
    assert!(validate_encoding("Windows-1252").is_ok());
    assert!(validate_encoding("utf-8").is_ok());
    assert!(validate_encoding("latin1").is_ok());
}

#[test]
fn config_fail_read_on_missing_config_file() {
    // the library never opens files itself: the front end reads the
    // configuration file and surfaces the system's report for a missing
    // one, which names this error code
    let err = std::io::Error::from_raw_os_error(2);
    assert!(err.to_string().contains("os error 2"));
}
