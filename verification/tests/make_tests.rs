use septic_config_generator::cells::{coerce_cell, coerce_global, error_text, CtxErrorType, CtxValue};
use septic_config_generator::encodings::{decode_bytes, encode_text, encoding_known};
use septic_config_generator::make::{
    backup_name, check_overwrite, collect_file_list, timestamps_newer_than, MakeError,
    OverwriteDecision,
};
use septic_config_generator::text::{extension_of, join_path, trim_end_str};

#[test]
fn change_detection_proceeds_when_a_file_is_newer() {
    // the output is older than one watched file: rebuild
    assert!(timestamps_newer_than(&vec![100, 400, 200], 300));
}

#[test]
fn change_detection_halts_when_output_is_newest() {
    // the output is newer than all watched files: nothing changed
    assert!(!timestamps_newer_than(&vec![100, 200, 300], 300));
    assert!(!timestamps_newer_than(&vec![], 0));
}

#[test]
fn diff_halt_on_identical_content() {
    assert_eq!(check_overwrite("same text\n", "same text\n", true), OverwriteDecision::NoChange);
    assert_eq!(check_overwrite("same text\n", "same text\n", false), OverwriteDecision::NoChange);
}

#[test]
fn differing_content_asks_or_overwrites() {
    assert_eq!(check_overwrite("old\n", "new\n", true), OverwriteDecision::AskFirst);
    assert_eq!(check_overwrite("old\n", "new\n", false), OverwriteDecision::Overwrite);
}

#[test]
fn backup_rotation_appends_bak() {
    assert_eq!(backup_name("out.cnfg"), "out.cnfg.bak");
    assert_eq!(backup_name("out"), "out.bak");
    assert_eq!(backup_name("dir/out.cnfg"), "dir/out.cnfg.bak");
}

#[test]
fn collect_file_list_dedups_watched_files() {
    let cfg = "config.yaml".to_string();
    let templates = vec!["t/one.tmpl".to_string(), "t/two.tmpl".to_string()];
    let sources = vec!["data.csv".to_string(), "t/one.tmpl".to_string()];
    let files = collect_file_list(&cfg, &templates, &sources);
    assert_eq!(files.len(), 4);
    assert!(files.contains("config.yaml"));
    assert!(files.contains("t/one.tmpl"));
    assert!(files.contains("t/two.tmpl"));
    assert!(files.contains("data.csv"));
}

#[test]
fn halt_outcomes_map_to_exit_codes() {
    assert_eq!(MakeError::NoFilesChanged.exit_code(), 1);
    assert_eq!(MakeError::NoChangeFromPrevious.exit_code(), 1);
    assert_eq!(MakeError::Fatal("boom".to_string()).exit_code(), 2);
    assert!(MakeError::NoFilesChanged.message().contains("No files have changed"));
    assert!(MakeError::NoChangeFromPrevious.message().contains("No change from previous"));
}

#[test]
fn encodings_convert_non_ascii_text() {
    // 0xE6 is the small ae ligature in the legacy Western encoding
    let decoded = decode_bytes("Windows-1252", &vec![0xE6, 0x20, 0xF8]).unwrap();
    assert_eq!(decoded, "\u{e6} \u{f8}");
    let encoded = encode_text("Windows-1252", "\u{e6} \u{f8}").unwrap();
    assert_eq!(encoded, vec![0xE6, 0x20, 0xF8]);
    assert!(decode_bytes("no-such-encoding", &vec![]).is_none());
    assert!(encoding_known("utf-8"));
    assert!(!encoding_known("no-such-encoding"));
}

#[test]
fn coercion_round_trips_display_values() {
    // the literal spelling survives coercion wherever a template could
    // show it
    assert_eq!(coerce_cell("1.0"), CtxValue::Float("1.0".to_string()));
    assert_eq!(coerce_cell("00"), CtxValue::Text("00".to_string()));
    assert_eq!(coerce_cell("0"), CtxValue::Int(0));
    assert_eq!(coerce_cell("hello"), CtxValue::Text("hello".to_string()));
    assert_eq!(coerce_cell(""), CtxValue::Empty);
    assert_eq!(coerce_cell("false"), CtxValue::Bool(false));
    assert_eq!(coerce_cell("-12"), CtxValue::Int(-12));
}

#[test]
fn global_coercion_sniffs_in_bool_int_float_string_order() {
    assert_eq!(coerce_global("true"), CtxValue::Bool(true));
    assert_eq!(coerce_global("007"), CtxValue::Int(7));
    assert_eq!(coerce_global("2.5"), CtxValue::Float("2.5".to_string()));
    assert_eq!(coerce_global("2,5"), CtxValue::Text("2,5".to_string()));
    assert_eq!(coerce_global("text"), CtxValue::Text("text".to_string()));
}

#[test]
fn error_cells_serialize_to_fixed_spellings() {
    assert_eq!(error_text(&CtxErrorType::Div0), "#DIV/0!");
    assert_eq!(error_text(&CtxErrorType::NA), "#N/A");
    assert_eq!(error_text(&CtxErrorType::Name), "#NAME?");
    assert_eq!(error_text(&CtxErrorType::Null), "#NULL!");
    assert_eq!(error_text(&CtxErrorType::Num), "#NUM!");
    assert_eq!(error_text(&CtxErrorType::Ref), "#REF!");
    assert_eq!(error_text(&CtxErrorType::Value), "#VALUE!");
    assert_eq!(error_text(&CtxErrorType::GettingData), "#UNKNOWN!");
}

#[test]
fn text_helpers_behave_like_their_std_counterparts() {
    assert_eq!(trim_end_str("abc \t\r\n"), "abc");
    assert_eq!(trim_end_str(""), "");
    assert_eq!(join_path("root", "file.csv"), "root/file.csv");
    assert_eq!(join_path("", "file.csv"), "file.csv");
    assert_eq!(extension_of("data.xlsx").as_deref(), Some("xlsx"));
    assert_eq!(extension_of("a/b/data.tar.gz").as_deref(), Some("gz"));
    assert_eq!(extension_of(".hidden"), None);
    assert_eq!(extension_of("noext"), None);
    assert_eq!(extension_of("dir.d/noext"), None);
}

#[test]
fn integer_coercion_covers_the_full_range() {
    assert_eq!(
        coerce_cell("9223372036854775807"),
        CtxValue::Int(i64::MAX)
    );
    assert_eq!(
        coerce_cell("-9223372036854775808"),
        CtxValue::Int(i64::MIN)
    );
    // one past the range falls through to the float shape
    assert_eq!(
        coerce_cell("-9223372036854775809"),
        CtxValue::Float("-9223372036854775809".to_string())
    );
}

#[test]
fn numeric_shape_matches_rust_float_parsing() {
    // coercion classifies a comma-free cell as numeric exactly when
    // Rust's own float parser accepts it
    let cases = [
        "1.", ".5", "+.5e-2", "-1E3", "inf", "INFINITY", "NaN", "1e999", "5e", "e5", ".",
        "+", "-", "1_000", "0x1", "1.2.3", "--1", "1e2e3", "infx", "nan0", "007", "1e+05",
    ];
    for s in cases {
        let coerced = coerce_cell(s);
        let is_num = matches!(coerced, CtxValue::Int(_) | CtxValue::Float(_) | CtxValue::Text(_))
            && match &coerced {
                CtxValue::Text(t) => t.starts_with('0') && t != "0" && t.parse::<i64>().is_ok(),
                _ => true,
            }
            && !matches!(coerced, CtxValue::Text(t) if t.parse::<i64>().is_err());
        assert_eq!(is_num, s.parse::<f64>().is_ok(), "case {s}");
    }
}

#[test]
fn integer_shape_matches_rust_integer_parsing() {
    let cases = [
        "0", "-0", "+7", "42", "007", "9223372036854775807", "9223372036854775808",
        "-9223372036854775808", "-9223372036854775809", "1.0", "", " 1", "1 ", "--2",
    ];
    for s in cases {
        let coerced = coerce_cell(s);
        let as_int = match &coerced {
            CtxValue::Int(v) => Some(*v),
            // a zero-padded nonzero integer stays text on purpose
            CtxValue::Text(t) if t.starts_with('0') && t.as_str() != "0" => t.parse::<i64>().ok(),
            _ => None,
        };
        assert_eq!(as_int, s.parse::<i64>().ok(), "case {s}");
    }
}
