use ocbro::cli::{merge_filters, parse_filter_arg, parse_op, FilterArgError};
use ocbro::config::{FilterCondition, FilterOp};
use ocbro::value::{NumKey, Value};

fn cond(field: &str, op: FilterOp) -> FilterCondition {
    FilterCondition { field: field.to_string(), op, value: None }
}

#[test]
fn parses_operator_names() {
    assert_eq!(parse_op("eq"), Some(FilterOp::Eq));
    assert_eq!(parse_op("is_not_null"), Some(FilterOp::IsNotNull));
    assert_eq!(parse_op("starts_with"), Some(FilterOp::StartsWith));
    assert_eq!(parse_op("EQ"), None);
    assert_eq!(parse_op(""), None);
}

#[test]
fn parses_field_op_value() {
    let a = parse_filter_arg("age:gte:18").ok().unwrap();
    assert_eq!(a.field, "age");
    assert_eq!(a.op, FilterOp::Gte);
    assert_eq!(a.value.as_deref(), Some("18"));
    let b = parse_filter_arg("deleted_at:is_null").ok().unwrap();
    assert_eq!(b.op, FilterOp::IsNull);
    assert!(b.value.is_none());
    let c = parse_filter_arg("t:eq:10:30").ok().unwrap();
    assert_eq!(c.value.as_deref(), Some("10:30"));
    let d = parse_filter_arg("name:eq:").ok().unwrap();
    assert_eq!(d.value.as_deref(), Some(""));
}

#[test]
fn refuses_bad_arguments() {
    assert!(matches!(parse_filter_arg("badformat"), Err(FilterArgError::MissingOperator)));
    assert!(matches!(parse_filter_arg(":eq:1"), Err(FilterArgError::EmptyField)));
    match parse_filter_arg("age:bigger:1") {
        Err(FilterArgError::UnknownOperator(op)) => assert_eq!(op, "bigger"),
        _ => panic!("unknown operator expected"),
    }
}

#[test]
fn argument_becomes_text_condition() {
    let a = parse_filter_arg("active:eq:1").ok().unwrap();
    let c = a.into_condition(Some(NumKey::Key(4607182418800017408)));
    assert_eq!(c.field, "active");
    match c.value {
        Some(Value::Text { text, reading }) => {
            assert_eq!(text, "1");
            assert_eq!(reading, Some(NumKey::Key(4607182418800017408)));
        }
        _ => panic!("text value expected"),
    }
}

#[test]
fn cli_filter_overrides_config_field() {
    let config = vec![cond("age", FilterOp::Gte), cond("active", FilterOp::Eq), cond("age", FilterOp::Lt)];
    let cli = vec![cond("age", FilterOp::Lt), cond("name", FilterOp::IsNotNull), cond("age", FilterOp::Gt)];
    let (merged, warned) = merge_filters(&config, cli);
    let fields: Vec<&str> = merged.iter().map(|c| c.field.as_str()).collect();
    assert_eq!(fields, vec!["active", "age", "name", "age"]);
    assert_eq!(merged[1].op, FilterOp::Lt);
    assert_eq!(merged[3].op, FilterOp::Gt);
    assert_eq!(warned, vec!["age".to_string()]);
}

#[test]
fn new_cli_filters_add_to_config() {
    let config = vec![cond("age", FilterOp::Gte)];
    let (merged, warned) = merge_filters(&config, vec![cond("active", FilterOp::Eq)]);
    assert_eq!(merged.len(), 2);
    assert!(warned.is_empty());
    let (same, none) = merge_filters(&config, vec![]);
    assert_eq!(same.len(), 1);
    assert!(none.is_empty());
}
