use ocbro::config::Source;
use ocbro::db::{blob_text, build_sql, row_from_columns, QueryError};
use ocbro::value::Value;

fn source(query: Option<&str>, table: Option<&str>) -> Source {
    Source {
        db_path: "./data.db".to_string(),
        query: query.map(|s| s.to_string()),
        table: table.map(|s| s.to_string()),
    }
}

#[test]
fn sql_from_table() {
    assert_eq!(build_sql(&source(None, Some("users"))).ok().unwrap(), "SELECT * FROM \"users\"");
}

#[test]
fn raw_query_wins_over_table() {
    let q = "SELECT * FROM users WHERE age >= 18";
    assert_eq!(build_sql(&source(Some(q), Some("users"))).ok().unwrap(), q);
}

#[test]
fn no_query_or_table_is_an_error() {
    match build_sql(&source(None, None)) {
        Err(e) => {
            assert_eq!(e, QueryError::NoQueryOrTable);
            assert_eq!(e.message(), "source must specify either 'query' or 'table'");
        }
        Ok(s) => panic!("unexpected sql {s}"),
    }
}

#[test]
fn db_override_wins() {
    let s = source(None, Some("users"));
    assert_eq!(s.db_path_for(Some("/tmp/other.db")), "/tmp/other.db");
    assert_eq!(s.db_path_for(None), "./data.db");
}

#[test]
fn blob_placeholder() {
    assert_eq!(blob_text(0), "<blob 0 bytes>");
    assert_eq!(blob_text(1234), "<blob 1234 bytes>");
}

#[test]
fn columns_make_a_row_later_column_winning() {
    let names = vec!["id".to_string(), "name".to_string(), "id".to_string()];
    let values = vec![
        Value::Number { repr: "1".to_string(), key: 4607182418800017408 },
        Value::Null,
        Value::Bool(false),
    ];
    let r = row_from_columns(&names, values);
    assert_eq!(r.len(), 2);
    assert!(matches!(r.get("id"), Some(Value::Bool(false))));
    assert!(matches!(r.get("name"), Some(Value::Null)));
}
