use septic_config_generator::cells::CtxValue;
use septic_config_generator::renderer::{
    adjust_piece, assemble_rows, bitmask, selected_row_indices, unpack, CounterMap,
    UnpackCell, UnpackInput, UnpackItem, UnpackOutput,
};
use septic_config_generator::table::{KeySet, Row, RowTable};

#[test]
fn countermap_create() {
    let mut counter_map = CounterMap::new();
    assert!(counter_map.create("counter1", Some(10)).is_ok());
    assert!(counter_map.create("counter2", None).is_ok());
    assert!(counter_map.create("counter1", None).is_err());
}

#[test]
fn countermap_increment_and_set() {
    let mut counter_map = CounterMap::new();
    counter_map.create("counter1", Some(10)).unwrap();
    assert_eq!(counter_map.increment("counter1", None).unwrap(), 11);
    assert_eq!(counter_map.increment("counter1", Some(20)).unwrap(), 20);
    assert_eq!(counter_map.increment("counter1", None).unwrap(), 21);
}

#[test]
fn countermap_default_value_is_0() {
    let mut counter_map = CounterMap::new();
    counter_map.create("counter1", None).unwrap();
    assert_eq!(counter_map.increment("counter1", None).unwrap(), 1);
}

#[test]
fn countermap_increment_nonexistent_fails() {
    let mut counter_map = CounterMap::new();
    counter_map.create("counter1", None).unwrap();
    assert!(counter_map.increment("counter2", None).is_err());
}

#[test]
fn customfunction_bitmask_on_valid_integer() {
    let result = bitmask(&vec![1], 31).unwrap();
    assert!(result == "0000000000000000000000000000001");
    let result = bitmask(&vec![31], 31).unwrap();
    assert!(result == "1000000000000000000000000000000");
    let result = bitmask(&vec![3], 5).unwrap();
    assert!(result == "00100");
}

#[test]
fn customfunction_bitmask_errors_on_integer_oor() {
    let result = bitmask(&vec![-1], 31);
    assert!(result.is_err());
    assert!(result.unwrap_err().message().contains("input value must be "));
    let result = bitmask(&vec![0], 31).unwrap();
    assert!(result == "0000000000000000000000000000000");
    let result = bitmask(&vec![32], 31);
    assert!(result.is_err());
    assert!(result.unwrap_err().message().contains("value is larger than"));
}

#[test]
fn customfunction_bitmask_on_valid_sequence() {
    let result = bitmask(&vec![0, 1, 3], 31).unwrap();
    assert!(result == "0000000000000000000000000000101");
    let result = bitmask(&vec![1, 3, 31], 31).unwrap();
    assert!(result == "1000000000000000000000000000101");
    let result = bitmask(&vec![1, 3], 5).unwrap();
    assert!(result == "00101");
}

#[test]
fn customfunction_bitmask_errors_on_sequence_oor() {
    let result = bitmask(&vec![-1, 1, 3], 31);
    assert!(result.is_err());
    assert!(result.unwrap_err().message().contains("input value must be "));
    let result = bitmask(&vec![0, 1, 3], 31).unwrap();
    assert!(result == "0000000000000000000000000000101");
    let result = bitmask(&vec![1, 3, 32], 31);
    assert!(result.is_err());
    assert!(result.unwrap_err().message().contains("value is larger than"));
}

fn row_ab(a: &str, b: &str) -> Row {
    let mut row = Row::new();
    row.insert("a".to_string(), CtxValue::Text(a.to_string()));
    row.insert("b".to_string(), CtxValue::Text(b.to_string()));
    row
}

fn val(s: &str) -> UnpackCell {
    UnpackCell::Val(CtxValue::Text(s.to_string()))
}

fn keys(ks: &[&str]) -> Vec<String> {
    ks.iter().map(|s| s.to_string()).collect()
}

#[test]
fn filt_unpack_source() {
    let input = UnpackInput::RowSeq(vec![row_ab("aa", "bb"), row_ab("cc", "dd")]);
    let result = unpack(&input, &keys(&["a", "b"])).unwrap();
    match result {
        UnpackOutput::Items(items) => {
            assert_eq!(items.len(), 2);
            assert_eq!(items[0], UnpackItem::Tuple(vec![val("aa"), val("bb")]));
            assert_eq!(items[1], UnpackItem::Tuple(vec![val("cc"), val("dd")]));
        }
        _ => panic!("expected one item per row"),
    }
}

#[test]
fn filt_unpack_source_single_key() {
    let input = UnpackInput::RowSeq(vec![row_ab("aa", "bb"), row_ab("cc", "dd")]);
    let result = unpack(&input, &keys(&["b"])).unwrap();
    match result {
        UnpackOutput::Items(items) => {
            assert_eq!(items[0], UnpackItem::Single(val("bb")));
            assert_eq!(items[1], UnpackItem::Single(val("dd")));
        }
        _ => panic!("expected one item per row"),
    }
}

#[test]
fn filt_unpack_source_invalid_key() {
    let input = UnpackInput::RowSeq(vec![row_ab("aa", "bb"), row_ab("cc", "dd")]);
    let result = unpack(&input, &keys(&["a", "c"])).unwrap();
    match result {
        UnpackOutput::Items(items) => {
            assert_eq!(items[0], UnpackItem::Tuple(vec![val("aa"), UnpackCell::Undef]));
            assert_eq!(items[1], UnpackItem::Tuple(vec![val("cc"), UnpackCell::Undef]));
        }
        _ => panic!("expected one item per row"),
    }
}

#[test]
fn filt_unpack_source_row() {
    let input = UnpackInput::RowMap(row_ab("aa", "bb"));
    let result = unpack(&input, &keys(&["a", "b"])).unwrap();
    assert_eq!(
        result,
        UnpackOutput::Item(UnpackItem::Tuple(vec![val("aa"), val("bb")]))
    );
}

#[test]
fn filt_unpack_source_row_single_key() {
    let input = UnpackInput::RowMap(row_ab("aa", "bb"));
    let result = unpack(&input, &keys(&["b"])).unwrap();
    assert_eq!(result, UnpackOutput::Item(UnpackItem::Single(val("bb"))));
}

#[test]
fn filt_unpack_source_row_invalid_key() {
    let input = UnpackInput::RowMap(row_ab("aa", "bb"));
    let result = unpack(&input, &keys(&["a", "c"])).unwrap();
    assert_eq!(
        result,
        UnpackOutput::Item(UnpackItem::Tuple(vec![val("aa"), UnpackCell::Undef]))
    );
}

#[test]
fn filt_unpack_whole_table() {
    let mut table = RowTable::new();
    table.insert("k1".to_string(), row_ab("aa", "bb"));
    table.insert("k2".to_string(), row_ab("cc", "dd"));
    let input = UnpackInput::Table(table);
    let result = unpack(&input, &keys(&["a"])).unwrap();
    match result {
        UnpackOutput::Items(items) => {
            assert_eq!(items, vec![UnpackItem::Single(val("aa")), UnpackItem::Single(val("cc"))]);
        }
        _ => panic!("expected one item per row"),
    }
}

#[test]
fn filt_unpack_rejects_other_shapes() {
    let result = unpack(&UnpackInput::Other, &keys(&["a"]));
    assert!(result.is_err());
    assert!(result
        .unwrap_err()
        .message()
        .contains("input is not a list of maps"));
}

#[test]
fn selected_rows_follow_narrowing_sets() {
    let table_keys = keys(&["one", "two", "three"]);
    let mut inc = KeySet::new();
    inc.insert("one".to_string());
    inc.insert("three".to_string());
    let mut exc = KeySet::new();
    exc.insert("three".to_string());

    let all = selected_row_indices(&table_keys, None, None);
    assert_eq!(all, vec![0, 1, 2]);
    let kept = selected_row_indices(&table_keys, Some(&inc), None);
    assert_eq!(kept, vec![0, 2]);
    let narrowed = selected_row_indices(&table_keys, Some(&inc), Some(&exc));
    assert_eq!(narrowed, vec![0]);
}

#[test]
fn adjust_piece_normalizes_trailing_space() {
    assert_eq!(adjust_piece("abc  \r\n\r\n"), "abc\r\n\r\n");
    assert_eq!(adjust_piece("abc"), "abc\r\n\r\n");
}

#[test]
fn assemble_rows_adjusts_spacing() {
    let pieces = vec!["one \r\n".to_string(), "two\t".to_string()];
    assert_eq!(assemble_rows(&pieces, true), "one\r\n\r\ntwo\r\n\r\n");
    assert_eq!(assemble_rows(&pieces, false), "one \r\ntwo\t");
}

#[test]
fn bitmask_with_zero_width_accepts_only_position_zero() {
    assert_eq!(bitmask(&vec![0], 0).unwrap(), "");
    assert!(bitmask(&vec![1], 0).is_err());
}
