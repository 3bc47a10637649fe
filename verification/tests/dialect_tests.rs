use dbx_core::dialect_types::{list_dialect_type_names_in, DialectRegistry};
use dbx_core::web_error::AppError;

fn make_registry_with_types(dialect_name: &str, type_names: &[&str]) -> DialectRegistry {
    let mut registry = DialectRegistry::new();
    registry.register(dialect_name, type_names.iter().map(|t| t.to_string()).collect());
    registry
}

#[test]
fn list_mysql_types() {
    let registry = make_registry_with_types("MySQL", &["VARCHAR", "INT", "BIGINT"]);
    let types = list_dialect_type_names_in("MySQL", &registry);
    assert_eq!(types, vec!["VARCHAR", "INT", "BIGINT"]);
    assert!(types.contains(&"VARCHAR".to_string()));
}

#[test]
fn list_dameng_types() {
    let registry = make_registry_with_types(
        "Dameng",
        &["VARCHAR", "VARCHAR2", "INT", "INTEGER", "BIGINT", "FLOAT", "DOUBLE", "DATE", "TIMESTAMP", "CLOB", "BLOB", "TEXT"],
    );
    let types = list_dialect_type_names_in("Dameng", &registry);
    assert!(!types.is_empty(), "Dameng should have types");
    assert!(types.contains(&"VARCHAR2".to_string()));
    assert_eq!(types.len(), 12);
}

#[test]
fn list_unknown_dialect_returns_empty() {
    let registry = DialectRegistry::new();
    let types = list_dialect_type_names_in("nonexistent_db", &registry);
    assert!(types.is_empty());
}

// ---- further scenarios ----

#[test]
fn register_replaces_and_keeps_others() {
    let mut registry = make_registry_with_types("MySQL", &["INT"]);
    registry.register("SQLite", vec!["TEXT".to_string()]);
    registry.register("MySQL", vec!["BIGINT".to_string(), "JSON".to_string()]);
    assert_eq!(registry.len(), 2);
    assert_eq!(list_dialect_type_names_in("MySQL", &registry), vec!["BIGINT", "JSON"]);
    assert_eq!(list_dialect_type_names_in("SQLite", &registry), vec!["TEXT"]);
    assert!(list_dialect_type_names_in("mysql", &registry).is_empty());
}

#[test]
fn app_error_carries_message_and_status() {
    let e = AppError::internal("boom");
    assert_eq!(e.message(), "boom");
    assert_eq!(e.status(), 500);
    assert_eq!(AppError::bad_request("bad").0, "bad");
    let f: AppError = String::from("x").into();
    assert_eq!(f.message(), "x");
}
