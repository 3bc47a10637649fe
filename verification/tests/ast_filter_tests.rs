use dbx_core::ast_filter::{AstFilter, AstTransmitFilter, FilterAction};
use dbx_core::sql_parse::{ParsedStatement, StatementFacts, StatementShape};

#[test]
fn allows_create_table() {
    let result =
        AstTransmitFilter::filter_sql("CREATE TABLE users (id INT PRIMARY KEY, name VARCHAR(100))", "generic").unwrap();
    assert!(!result.allowed.is_empty());
    assert!(result.allowed[0].contains("CREATE TABLE"));
}

#[test]
fn allows_create_index() {
    let result = AstTransmitFilter::filter_sql("CREATE INDEX idx_users_name ON users (name)", "generic").unwrap();
    assert!(!result.allowed.is_empty());
}

#[test]
fn allows_alter_table() {
    let result = AstTransmitFilter::filter_sql("ALTER TABLE users ADD COLUMN age INT", "generic").unwrap();
    assert!(!result.allowed.is_empty());
}

#[test]
fn allows_drop_table() {
    let result = AstTransmitFilter::filter_sql("DROP TABLE users", "generic").unwrap();
    assert!(!result.allowed.is_empty());
}

#[test]
fn blocks_create_function() {
    let result =
        AstTransmitFilter::filter_sql("CREATE FUNCTION add(a INT, b INT) RETURNS INT LANGUAGE SQL RETURN a + b", "generic")
            .unwrap();
    assert!(result.allowed.is_empty());
    assert!(!result.denied.is_empty());
}

#[test]
fn blocks_create_procedure() {
    let result =
        AstTransmitFilter::filter_sql("CREATE PROCEDURE test_proc() AS LANGUAGE SQL BEGIN ATOMIC SELECT 1; END", "postgres");
    match result {
        Ok(r) => {
            assert!(r.allowed.is_empty());
            assert!(!r.denied.is_empty());
        }
        Err(_) => {}
    }
}

#[test]
fn blocks_create_trigger() {
    let result = AstTransmitFilter::filter_sql(
        "CREATE TRIGGER test_trigger BEFORE INSERT ON users FOR EACH ROW EXECUTE FUNCTION log_change()",
        "postgres",
    )
    .unwrap();
    assert!(result.allowed.is_empty());
    assert!(!result.denied.is_empty());
}

#[test]
fn allows_multiple_ddl_statements() {
    let result = AstTransmitFilter::filter_sql(
        "CREATE TABLE a (id INT); CREATE TABLE b (id INT); ALTER TABLE a ADD COLUMN x INT;",
        "generic",
    )
    .unwrap();
    assert_eq!(result.allowed.len(), 3);
}

#[test]
fn blocks_mixed_ddl_and_function() {
    let result = AstTransmitFilter::filter_sql(
        "CREATE TABLE t (id INT); CREATE FUNCTION f() RETURNS INT AS $$ SELECT 1 $$ LANGUAGE SQL",
        "postgres",
    )
    .unwrap();
    assert_eq!(result.allowed.len(), 1);
    assert_eq!(result.denied.len(), 1);
}

#[test]
fn blocks_select_statement() {
    let result = AstTransmitFilter::filter_sql("SELECT * FROM users", "generic").unwrap();
    assert!(result.allowed.is_empty());
    assert!(!result.denied.is_empty());
}

#[test]
fn allows_create_view() {
    let result =
        AstTransmitFilter::filter_sql("CREATE VIEW active_users AS SELECT * FROM users WHERE active = 1", "generic")
            .unwrap();
    assert!(!result.allowed.is_empty());
}

#[test]
fn deny_insert_statement() {
    let result = AstTransmitFilter::filter_sql("INSERT INTO users VALUES (1, 'a')", "generic").unwrap();
    assert!(result.allowed.is_empty());
    assert!(!result.denied.is_empty());
}

// ---- further scenarios ----

#[test]
fn denied_line_names_reason_and_statement() {
    let result = AstTransmitFilter::filter_sql("SELECT 1", "generic").unwrap();
    assert_eq!(result.denied, vec!["Blocked: Statement type not in whitelist for schema diff — SELECT 1".to_string()]);
}

#[test]
fn parse_error_is_reported_with_prefix() {
    let err = AstTransmitFilter::filter_sql("CREATE TABLE (", "generic").unwrap_err();
    assert!(err.starts_with("SQL parse error in AST filter: "));
}

#[test]
fn filter_parsed_keeps_order() {
    let stmts = vec![
        ParsedStatement { shape: StatementShape::CreateTable { name: "a".to_string() }, sql: "CREATE TABLE a".to_string() },
        ParsedStatement { shape: StatementShape::CreateTrigger, sql: "CREATE TRIGGER t".to_string() },
        ParsedStatement { shape: StatementShape::Truncate { table_names: vec![] }, sql: "TRUNCATE b".to_string() },
    ];
    let r = AstTransmitFilter::filter_parsed(&stmts);
    assert_eq!(r.allowed, vec!["CREATE TABLE a".to_string(), "TRUNCATE b".to_string()]);
    assert_eq!(
        r.denied,
        vec!["Blocked: Function/procedure/trigger body not allowed in schema diff — CREATE TRIGGER t".to_string()]
    );
}

#[test]
fn filter_shape_and_statement_agree() {
    let f = AstTransmitFilter;
    assert!(matches!(f.filter_shape(&StatementShape::Drop { object_type: "TABLE".to_string(), names: vec![] }), FilterAction::Allow));
    assert!(matches!(f.filter_shape(&StatementShape::Insert), FilterAction::Deny(_)));
    let stmts = sqlparser::parser::Parser::parse_sql(&sqlparser::dialect::GenericDialect {}, "DROP TABLE x").unwrap();
    assert!(matches!(f.filter_statement(&stmts[0]), FilterAction::Allow));
}

#[test]
fn dialect_names_are_case_insensitive() {
    let a = AstTransmitFilter::filter_sql("CREATE TABLE t (id INT)", "PostgreSQL").unwrap();
    let b = AstTransmitFilter::filter_sql("CREATE TABLE t (id INT)", "postgres").unwrap();
    assert_eq!(a.allowed, b.allowed);
}

#[test]
fn facts_of_a_routine_body_are_refused() {
    let facts = StatementFacts {
        debug: "CreateFunction(CreateFunction { name: f })".to_string(),
        object_name: None,
        index_names: None,
        role_first_name: None,
        drop_target: None,
        truncate_targets: None,
        operations: vec![],
        sql: "CREATE FUNCTION f()".to_string(),
    };
    match AstTransmitFilter.filter_facts(&facts) {
        FilterAction::Deny(reason) => {
            assert_eq!(reason, "Function/procedure/trigger body not allowed in schema diff")
        },
        FilterAction::Allow => panic!("routine body passed"),
    }
}
