use septic_config_generator::cells::CtxValue;
use septic_config_generator::config::{Include, IncludeConditional, IncludeExclude};
use septic_config_generator::selector::{resolve_rules, PredOutcome, ResolveStep};
use septic_config_generator::table::{KeySet, Row, RowTable};

fn create_rules_with_conditional(condition: &str, cont: Option<bool>) -> Vec<Include> {
    vec![
        Include::Element("one".to_string()),
        Include::Conditional(IncludeConditional {
            condition: condition.to_string(),
            items: Some(vec!["two".to_string()]),
            continue_: cont,
        }),
        Include::Element("three".to_string()),
    ]
}

/// Drives the resolver, answering each `then` predicate by reading its
/// condition text as a boolean literal.
fn resolve_with_literal_conditions(
    rules: &Vec<Include>,
    mode: IncludeExclude,
    table_keys: &Vec<String>,
) -> KeySet {
    let mut outcomes: Vec<PredOutcome> = Vec::new();
    loop {
        match resolve_rules(rules, mode, table_keys, &outcomes) {
            ResolveStep::Done(set) => return set,
            ResolveStep::NeedOnce(i) => {
                let cond = match &rules[i] {
                    Include::Conditional(c) => c.condition.clone(),
                    _ => panic!("a literal rule asked for a predicate"),
                };
                outcomes.push(PredOutcome::Once(cond == "true"));
            }
            ResolveStep::NeedPerRow(_) => panic!("no per-row conditional in these rules"),
            ResolveStep::Mismatch => panic!("outcome shape mismatch"),
        }
    }
}

#[test]
fn include_exclude_set_break_when_condition_matches() {
    let rules = create_rules_with_conditional("true", None);
    let res = resolve_with_literal_conditions(&rules, IncludeExclude::Include, &vec![]);
    assert_eq!(res.len(), 2);
    assert!(res.contains("one"));
    assert!(res.contains("two"));
}

#[test]
fn include_exclude_set_continue_when_condition_not_matched() {
    let rules = create_rules_with_conditional("false", None);
    let res = resolve_with_literal_conditions(&rules, IncludeExclude::Include, &vec![]);
    assert_eq!(res.len(), 2);
    assert!(res.contains("one"));
    assert!(res.contains("three"));
}

#[test]
fn include_exclude_set_continue_when_continue_true() {
    let rules = create_rules_with_conditional("true", Some(true));
    let res = resolve_with_literal_conditions(&rules, IncludeExclude::Include, &vec![]);
    assert_eq!(res.len(), 3);
    assert!(res.contains("one"));
    assert!(res.contains("two"));
    assert!(res.contains("three"));
}

#[test]
fn exclude_mode_never_stops_on_match() {
    // the same rules that stop a kept-rows list run to the end of a
    // dropped-rows list
    let rules = create_rules_with_conditional("true", None);
    let res = resolve_with_literal_conditions(&rules, IncludeExclude::Exclude, &vec![]);
    assert_eq!(res.len(), 3);
    assert!(res.contains("one"));
    assert!(res.contains("two"));
    assert!(res.contains("three"));
}

#[test]
fn per_row_conditional_marks_matching_rows() {
    let rules = vec![Include::Conditional(IncludeConditional {
        condition: "row test".to_string(),
        items: None,
        continue_: None,
    })];
    let table_keys = vec!["a".to_string(), "b".to_string(), "c".to_string()];
    let outcomes = vec![PredOutcome::PerRow(vec![true, false, true])];
    match resolve_rules(&rules, IncludeExclude::Include, &table_keys, &outcomes) {
        ResolveStep::Done(set) => {
            assert_eq!(set.len(), 2);
            assert!(set.contains("a"));
            assert!(!set.contains("b"));
            assert!(set.contains("c"));
        }
        _ => panic!("expected a finished resolution"),
    }
}

#[test]
fn per_row_conditional_asks_for_outcomes() {
    let rules = vec![Include::Conditional(IncludeConditional {
        condition: "row test".to_string(),
        items: None,
        continue_: None,
    })];
    let table_keys = vec!["a".to_string()];
    match resolve_rules(&rules, IncludeExclude::Include, &table_keys, &Vec::new()) {
        ResolveStep::NeedPerRow(i) => assert_eq!(i, 0),
        _ => panic!("expected a per-row request"),
    }
}

#[test]
fn wrongly_shaped_outcome_is_a_mismatch() {
    let rules = vec![Include::Conditional(IncludeConditional {
        condition: "x".to_string(),
        items: None,
        continue_: None,
    })];
    let table_keys = vec!["a".to_string(), "b".to_string()];
    let outcomes = vec![PredOutcome::Once(true)];
    match resolve_rules(&rules, IncludeExclude::Include, &table_keys, &outcomes) {
        ResolveStep::Mismatch => {}
        _ => panic!("expected a shape mismatch"),
    }
}

#[test]
fn exclude_is_order_insensitive() {
    // the same dropping rules, in two orders, drop the same keys
    let forward = vec![
        Include::Element("one".to_string()),
        Include::Conditional(IncludeConditional {
            condition: "true".to_string(),
            items: Some(vec!["two".to_string()]),
            continue_: None,
        }),
        Include::Element("three".to_string()),
    ];
    let backward = vec![
        Include::Element("three".to_string()),
        Include::Conditional(IncludeConditional {
            condition: "true".to_string(),
            items: Some(vec!["two".to_string()]),
            continue_: None,
        }),
        Include::Element("one".to_string()),
    ];
    let a = resolve_with_literal_conditions(&forward, IncludeExclude::Exclude, &vec![]);
    let b = resolve_with_literal_conditions(&backward, IncludeExclude::Exclude, &vec![]);
    for key in ["one", "two", "three"] {
        assert_eq!(a.contains(key), b.contains(key));
    }
    assert_eq!(a.len(), b.len());
}

#[test]
fn applying_the_same_narrowing_twice_changes_nothing() {
    let mut table = RowTable::new();
    for key in ["one", "two", "three"] {
        let mut row = Row::new();
        row.insert("keys".to_string(), CtxValue::Text(key.to_string()));
        table.insert(key.to_string(), row);
    }
    let mut inc = KeySet::new();
    inc.insert("one".to_string());
    inc.insert("two".to_string());
    let mut exc = KeySet::new();
    exc.insert("two".to_string());

    let once = table.apply_filters(Some(&inc), Some(&exc));
    assert_eq!(once.len(), 1);
    assert!(once.contains_key("one"));
    let twice = once.apply_filters(Some(&inc), Some(&exc));
    assert_eq!(twice.len(), 1);
    assert!(twice.contains_key("one"));
}
