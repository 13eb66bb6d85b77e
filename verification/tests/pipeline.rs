use ocbro::config::{FilterCondition, FilterOp};
use ocbro::pipeline::{apply_filter, apply_projection, compare_numeric, json_eq, process_rows, Order};
use ocbro::value::{NumKey, Row, Value};

fn key(x: f64) -> i64 {
    let bits = x.to_bits();
    let magnitude = (bits & 0x7fff_ffff_ffff_ffff) as i64;
    if bits >> 63 == 1 {
        -magnitude
    } else {
        magnitude
    }
}

fn num(i: i64) -> Value {
    Value::Number { repr: i.to_string(), key: key(i as f64) }
}

fn float_num(x: f64) -> Value {
    Value::Number { repr: x.to_string(), key: key(x) }
}

fn text(s: &str) -> Value {
    let reading = s.parse::<f64>().ok().map(|x| if x.is_nan() { NumKey::Nan } else { NumKey::Key(key(x)) });
    Value::Text { text: s.to_string(), reading }
}

fn row(pairs: &[(&str, Value)]) -> Row {
    let mut r = Row::new();
    for (k, v) in pairs {
        r.insert(k.to_string(), v.clone());
    }
    r
}

fn cond(field: &str, op: FilterOp, value: Option<Value>) -> FilterCondition {
    FilterCondition { field: field.to_string(), op, value }
}

// ── filter: eq / ne ──────────────────────────────────────────────────────

#[test]
fn test_filter_eq_int_match() {
    let r = row(&[("age", num(18))]);
    assert!(apply_filter(&r, &[cond("age", FilterOp::Eq, Some(num(18)))]));
}

#[test]
fn test_filter_eq_int_no_match() {
    let r = row(&[("age", num(17))]);
    assert!(!apply_filter(&r, &[cond("age", FilterOp::Eq, Some(num(18)))]));
}

#[test]
fn test_filter_eq_string() {
    let r = row(&[("name", text("Alice"))]);
    assert!(apply_filter(&r, &[cond("name", FilterOp::Eq, Some(text("Alice")))]));
    assert!(!apply_filter(&r, &[cond("name", FilterOp::Eq, Some(text("Bob")))]));
}

#[test]
fn pipeline_test_filter_ne() {
    let r = row(&[("age", num(20))]);
    assert!(apply_filter(&r, &[cond("age", FilterOp::Ne, Some(num(18)))]));
    assert!(!apply_filter(&r, &[cond("age", FilterOp::Ne, Some(num(20)))]));
}

// ── filter: numeric comparisons ──────────────────────────────────────────

#[test]
fn test_filter_gt() {
    let r = row(&[("age", num(19))]);
    assert!(apply_filter(&r, &[cond("age", FilterOp::Gt, Some(num(18)))]));
    assert!(!apply_filter(&r, &[cond("age", FilterOp::Gt, Some(num(19)))]));
    assert!(!apply_filter(&r, &[cond("age", FilterOp::Gt, Some(num(20)))]));
}

#[test]
fn test_filter_lt() {
    let r = row(&[("age", num(17))]);
    assert!(apply_filter(&r, &[cond("age", FilterOp::Lt, Some(num(18)))]));
    assert!(!apply_filter(&r, &[cond("age", FilterOp::Lt, Some(num(17)))]));
}

#[test]
fn test_filter_gte() {
    let r = row(&[("age", num(18))]);
    assert!(apply_filter(&r, &[cond("age", FilterOp::Gte, Some(num(18)))]));
    assert!(apply_filter(&r, &[cond("age", FilterOp::Gte, Some(num(17)))]));
    assert!(!apply_filter(&r, &[cond("age", FilterOp::Gte, Some(num(19)))]));
}

#[test]
fn test_filter_lte() {
    let r = row(&[("age", num(18))]);
    assert!(apply_filter(&r, &[cond("age", FilterOp::Lte, Some(num(18)))]));
    assert!(apply_filter(&r, &[cond("age", FilterOp::Lte, Some(num(19)))]));
    assert!(!apply_filter(&r, &[cond("age", FilterOp::Lte, Some(num(17)))]));
}

// ── filter: string ops ───────────────────────────────────────────────────

#[test]
fn pipeline_test_filter_contains() {
    let r = row(&[("name", text("Alice Wonderland"))]);
    assert!(apply_filter(&r, &[cond("name", FilterOp::Contains, Some(text("Alice")))]));
    assert!(!apply_filter(&r, &[cond("name", FilterOp::Contains, Some(text("Bob")))]));
}

#[test]
fn pipeline_test_filter_starts_with() {
    let r = row(&[("name", text("Alice"))]);
    assert!(apply_filter(&r, &[cond("name", FilterOp::StartsWith, Some(text("Ali")))]));
    assert!(!apply_filter(&r, &[cond("name", FilterOp::StartsWith, Some(text("ice")))]));
}

#[test]
fn pipeline_test_filter_ends_with() {
    let r = row(&[("name", text("Alice"))]);
    assert!(apply_filter(&r, &[cond("name", FilterOp::EndsWith, Some(text("ice")))]));
    assert!(!apply_filter(&r, &[cond("name", FilterOp::EndsWith, Some(text("Ali")))]));
}

// ── filter: null ops ─────────────────────────────────────────────────────

#[test]
fn pipeline_test_filter_is_null() {
    let r_null = row(&[("deleted_at", Value::Null)]);
    let r_val = row(&[("deleted_at", text("2024-01-01"))]);
    assert!(apply_filter(&r_null, &[cond("deleted_at", FilterOp::IsNull, None)]));
    assert!(!apply_filter(&r_val, &[cond("deleted_at", FilterOp::IsNull, None)]));
}

#[test]
fn pipeline_test_filter_is_not_null() {
    let r_null = row(&[("deleted_at", Value::Null)]);
    let r_val = row(&[("deleted_at", text("2024-01-01"))]);
    assert!(!apply_filter(&r_null, &[cond("deleted_at", FilterOp::IsNotNull, None)]));
    assert!(apply_filter(&r_val, &[cond("deleted_at", FilterOp::IsNotNull, None)]));
}

#[test]
fn test_filter_missing_field_treated_as_null() {
    let r = row(&[("name", text("Alice"))]);
    // "missing_col" not in row → treated as Null
    assert!(apply_filter(&r, &[cond("missing_col", FilterOp::IsNull, None)]));
}

// ── filter: AND combination ──────────────────────────────────────────────

#[test]
fn test_filter_and_all_pass() {
    let r = row(&[("age", num(25)), ("active", num(1))]);
    let conditions = vec![
        cond("age", FilterOp::Gte, Some(num(18))),
        cond("active", FilterOp::Eq, Some(num(1))),
    ];
    assert!(apply_filter(&r, &conditions));
}

#[test]
fn test_filter_and_one_fails() {
    let r = row(&[("age", num(15)), ("active", num(1))]);
    let conditions = vec![
        cond("age", FilterOp::Gte, Some(num(18))),
        cond("active", FilterOp::Eq, Some(num(1))),
    ];
    assert!(!apply_filter(&r, &conditions));
}

#[test]
fn test_filter_no_conditions_passes_all() {
    let r = row(&[("age", num(5))]);
    assert!(apply_filter(&r, &[]));
}

// ── projection ───────────────────────────────────────────────────────────

#[test]
fn test_projection_keeps_specified_fields() {
    let r = row(&[("id", num(1)), ("name", text("Alice")), ("age", num(30))]);
    let fields: Vec<String> = vec!["id".into(), "name".into()];
    let projected = apply_projection(r, &fields);
    assert_eq!(projected.len(), 2);
    assert!(projected.contains_key("id"));
    assert!(projected.contains_key("name"));
    assert!(!projected.contains_key("age"));
}

#[test]
fn test_projection_empty_keeps_all() {
    let r = row(&[("id", num(1)), ("name", text("Alice")), ("age", num(30))]);
    let projected = apply_projection(r, &[]);
    assert_eq!(projected.len(), 3);
}

#[test]
fn test_projection_unknown_field_is_ignored() {
    let r = row(&[("id", num(1))]);
    let fields: Vec<String> = vec!["id".into(), "nonexistent".into()];
    let projected = apply_projection(r, &fields);
    assert_eq!(projected.len(), 1);
    assert!(projected.contains_key("id"));
}

// ── further cases ────────────────────────────────────────────────────────

#[test]
fn numeric_string_equals_number() {
    // A string that parses as a number compares as that number.
    let r = row(&[("active", num(1))]);
    assert!(apply_filter(&r, &[cond("active", FilterOp::Eq, Some(text("1")))]));
    assert!(apply_filter(&r, &[cond("active", FilterOp::Eq, Some(text("1.0")))]));
    assert!(apply_filter(&r, &[cond("active", FilterOp::Lt, Some(text("2")))]));
}

#[test]
fn integer_equals_float() {
    assert!(json_eq(&num(18), &float_num(18.0)));
    assert!(!json_eq(&num(18), &float_num(18.5)));
}

#[test]
fn nan_text_equals_itself_but_is_unordered() {
    let nan = text("NaN");
    assert!(json_eq(&nan, &nan));
    assert!(!json_eq(&nan, &text("nan")));
    assert!(!json_eq(&nan, &num(1)));
    assert_eq!(compare_numeric(&nan, Some(&num(1))), None);
    let r = row(&[("x", nan.clone())]);
    assert!(apply_filter(&r, &[cond("x", FilterOp::Eq, Some(text("NaN")))]));
    assert!(!apply_filter(&r, &[cond("x", FilterOp::Ne, Some(text("NaN")))]));
    assert!(!apply_filter(&r, &[cond("x", FilterOp::Gte, Some(text("NaN")))]));
}

#[test]
fn equality_is_symmetric() {
    let pairs = [(num(3), text("3")), (text("a"), text("b")), (Value::Null, num(0)), (float_num(0.5), text("0.5"))];
    for (a, b) in pairs.iter() {
        assert_eq!(json_eq(a, b), json_eq(b, a));
        assert!(json_eq(a, a));
    }
}

#[test]
fn negative_numbers_and_zero_order() {
    assert_eq!(compare_numeric(&num(-5), Some(&num(3))), Some(Order::Less));
    assert_eq!(compare_numeric(&float_num(-0.0), Some(&num(0))), Some(Order::Equal));
    assert_eq!(compare_numeric(&float_num(-1.5), Some(&float_num(-2.5))), Some(Order::Greater));
    assert_eq!(compare_numeric(&num(1), None), None);
}

#[test]
fn order_operators_need_numbers() {
    let r = row(&[("name", text("Bob"))]);
    assert!(!apply_filter(&r, &[cond("name", FilterOp::Gt, Some(num(1)))]));
    assert!(!apply_filter(&r, &[cond("name", FilterOp::Lte, Some(num(1)))]));
    let r2 = row(&[("age", num(3))]);
    assert!(!apply_filter(&r2, &[cond("age", FilterOp::Gt, None)]));
}

#[test]
fn string_operators_need_strings() {
    let r = row(&[("age", num(30))]);
    assert!(!apply_filter(&r, &[cond("age", FilterOp::Contains, Some(text("3")))]));
    let r2 = row(&[("name", text("Alice"))]);
    assert!(!apply_filter(&r2, &[cond("name", FilterOp::Contains, None)]));
    assert!(apply_filter(&r2, &[cond("name", FilterOp::Contains, Some(text("")))]));
    assert!(apply_filter(&r2, &[cond("name", FilterOp::EndsWith, Some(text("Alice")))]));
    assert!(!apply_filter(&r2, &[cond("name", FilterOp::StartsWith, Some(text("Alice!")))]));
}

#[test]
fn eq_without_value_matches_null() {
    let r = row(&[("deleted_at", Value::Null)]);
    assert!(apply_filter(&r, &[cond("deleted_at", FilterOp::Eq, None)]));
    assert!(apply_filter(&r, &[cond("missing", FilterOp::Eq, None)]));
    assert!(!apply_filter(&r, &[cond("deleted_at", FilterOp::Ne, None)]));
}

#[test]
fn bools_and_composites_compare_structurally() {
    let r = row(&[("flag", Value::Bool(true))]);
    assert!(apply_filter(&r, &[cond("flag", FilterOp::Eq, Some(Value::Bool(true)))]));
    assert!(!apply_filter(&r, &[cond("flag", FilterOp::Eq, Some(text("true")))]));
    assert!(!apply_filter(&r, &[cond("flag", FilterOp::Eq, Some(Value::Composite("[1]".to_string())))]));
}

#[test]
fn filter_order_does_not_matter() {
    let r = row(&[("age", num(25)), ("name", text("Carol"))]);
    let a = cond("age", FilterOp::Gt, Some(num(20)));
    let b = cond("name", FilterOp::StartsWith, Some(text("C")));
    assert_eq!(
        apply_filter(&r, &[a.clone(), b.clone()]),
        apply_filter(&r, &[b.clone(), a.clone()])
    );
    assert!(apply_filter(&r, &[a.clone(), b.clone(), a]));
}

#[test]
fn projection_is_idempotent_and_keeps_values() {
    let r = row(&[("id", num(1)), ("name", text("Alice")), ("age", num(30))]);
    let fields: Vec<String> = vec!["name".into(), "name".into(), "id".into()];
    let once = apply_projection(r, &fields);
    assert_eq!(once.len(), 2);
    let twice = apply_projection(once, &fields);
    assert_eq!(twice.len(), 2);
    match twice.get("name") {
        Some(Value::Text { text, .. }) => assert_eq!(text, "Alice"),
        _ => panic!("name should be kept"),
    }
    assert!(twice.get("age").is_none());
}

#[test]
fn process_rows_filters_then_projects_in_order() {
    let rows = vec![
        row(&[("id", num(1)), ("name", text("Alice")), ("age", num(30))]),
        row(&[("id", num(2)), ("name", text("Bob")), ("age", num(17))]),
        row(&[("id", num(3)), ("name", text("Carol")), ("age", num(25))]),
    ];
    let conditions = vec![cond("age", FilterOp::Gte, Some(num(18)))];
    let fields: Vec<String> = vec!["name".into()];
    let out = process_rows(rows, &conditions, &fields);
    assert_eq!(out.len(), 2);
    match out[0].get("name") {
        Some(Value::Text { text, .. }) => assert_eq!(text, "Alice"),
        _ => panic!("first kept row is Alice"),
    }
    match out[1].get("name") {
        Some(Value::Text { text, .. }) => assert_eq!(text, "Carol"),
        _ => panic!("second kept row is Carol"),
    }
    assert!(!out[0].contains_key("age"));
    // filtering the kept rows again keeps them all
    let again = process_rows(out, &[cond("name", FilterOp::IsNotNull, None)], &[]);
    assert_eq!(again.len(), 2);
}

#[test]
fn row_insert_replaces_and_get_reads_back() {
    let mut r = Row::new();
    r.insert("a".to_string(), num(1));
    r.insert("b".to_string(), text("x"));
    r.insert("a".to_string(), num(2));
    assert_eq!(r.len(), 2);
    match r.get("a") {
        Some(Value::Number { repr, .. }) => assert_eq!(repr, "2"),
        _ => panic!("a holds 2"),
    }
    assert_eq!(r.entries()[0].0, "a");
    assert!(r.get("c").is_none());
}

#[test]
fn no_conditions_and_no_projection_keep_rows_unchanged() {
    let rows = vec![
        row(&[("id", num(1)), ("name", text("Alice"))]),
        row(&[("id", num(2))]),
    ];
    let out = process_rows(rows, &[], &[]);
    assert_eq!(out.len(), 2);
    assert_eq!(out[0].len(), 2);
    assert_eq!(out[1].len(), 1);
    assert!(matches!(out[1].get("id"), Some(Value::Number { .. })));
}

#[test]
fn row_insert_keeps_place_of_existing_key() {
    let mut r = Row::new();
    r.insert("a".to_string(), num(1));
    r.insert("b".to_string(), num(2));
    r.insert("a".to_string(), num(3));
    assert_eq!(r.entries()[0].0, "a");
    assert_eq!(r.entries()[1].0, "b");
    assert!(matches!(&r.entries()[0].1, Value::Number { repr, .. } if repr == "3"));
}
