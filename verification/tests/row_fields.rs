use task_graph::import::{check_snapshot_schema, parent_not_found_message};
use task_graph::json::Json;

fn row() -> Json {
    Json::Object(vec![
        ("id".to_string(), Json::Str("t1".to_string())),
        ("note".to_string(), Json::Null),
        ("n".to_string(), Json::Int(7)),
        ("big".to_string(), Json::Int(4294967297)),
        ("f".to_string(), Json::Float("1.5".to_string())),
    ])
}

#[test]
fn string_fields() {
    assert_eq!(row().get_string("id"), Ok("t1".to_string()));
    assert_eq!(row().get_string("n"), Err("Missing or invalid string field: n".to_string()));
    assert_eq!(row().get_opt_string("id"), Some("t1".to_string()));
    assert_eq!(row().get_opt_string("note"), None);
    assert_eq!(row().get_opt_string("missing"), None);
}

#[test]
fn integer_fields() {
    assert_eq!(row().get_i64("n"), Ok(7));
    assert_eq!(row().get_i64("f"), Err("Missing or invalid i64 field: f".to_string()));
    assert_eq!(row().get_opt_i64("note"), None);
    assert_eq!(row().get_i64_or_default("missing"), 0);
    assert_eq!(row().get_i64_or_default("n"), 7);
    assert_eq!(row().get_i32("big"), Ok(1));
    assert_eq!(row().get_i32("id"), Err("Missing or invalid i32 field: id".to_string()));
    assert_eq!(row().get_opt_i32("n"), Some(7));
}

#[test]
fn snapshot_schema_check() {
    assert!(check_snapshot_schema(3).is_ok());
    assert_eq!(
        check_snapshot_schema(2),
        Err("Schema version mismatch: snapshot is v2, database is v3. Migration required.".to_string())
    );
    assert_eq!(
        parent_not_found_message("p"),
        "Parent task 'p' not found in database. Cannot attach imported roots."
    );
}
