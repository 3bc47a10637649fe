use dbx_core::sql_risk::{
    accumulate_ddl_risk, analyze_sql_impact, classify_by_keyword, classify_ddl_risk, classify_sql_risk, estimate_table_size,
    normalize_dialect, select_execution_strategy, DdlRiskLevel, ExecStrategy, SqlRisk, TableSize,
};

#[test]
fn classify_select_statements() {
    assert_eq!(classify_sql_risk("SELECT * FROM users", "postgres").unwrap(), SqlRisk::ReadOnly);
    assert_eq!(
        classify_sql_risk("SELECT id, name FROM users WHERE active = true", "mysql").unwrap(),
        SqlRisk::ReadOnly
    );
    assert_eq!(classify_sql_risk("SHOW TABLES", "mysql").unwrap(), SqlRisk::ReadOnly);
    assert_eq!(classify_sql_risk("DESCRIBE users", "mysql").unwrap(), SqlRisk::ReadOnly);
    assert_eq!(classify_sql_risk("EXPLAIN SELECT * FROM users", "postgres").unwrap(), SqlRisk::ReadOnly);
}

#[test]
fn classify_cte_read() {
    assert_eq!(
        classify_sql_risk("WITH cte AS (SELECT 1) SELECT * FROM cte", "postgres").unwrap(),
        SqlRisk::ReadOnly
    );
}

#[test]
fn classify_write_statements() {
    assert_eq!(classify_sql_risk("INSERT INTO users VALUES (1)", "postgres").unwrap(), SqlRisk::Write);
    assert_eq!(classify_sql_risk("UPDATE users SET name = 'x'", "postgres").unwrap(), SqlRisk::Write);
    assert_eq!(classify_sql_risk("DELETE FROM users", "postgres").unwrap(), SqlRisk::Write);
}

#[test]
fn classify_ddl_statements() {
    assert_eq!(classify_sql_risk("CREATE TABLE users (id INT)", "postgres").unwrap(), SqlRisk::Ddl);
    assert_eq!(classify_sql_risk("DROP TABLE users", "postgres").unwrap(), SqlRisk::Ddl);
    assert_eq!(classify_sql_risk("ALTER TABLE users ADD COLUMN age INT", "postgres").unwrap(), SqlRisk::Ddl);
    assert_eq!(classify_sql_risk("TRUNCATE TABLE users", "postgres").unwrap(), SqlRisk::Ddl);
}

#[test]
fn classify_transaction_statements() {
    assert_eq!(classify_sql_risk("BEGIN", "postgres").unwrap(), SqlRisk::Transaction);
    assert_eq!(classify_sql_risk("COMMIT", "postgres").unwrap(), SqlRisk::Transaction);
    assert_eq!(classify_sql_risk("ROLLBACK", "postgres").unwrap(), SqlRisk::Transaction);
}

#[test]
fn classify_multi_statement_returns_highest_risk() {
    assert_eq!(classify_sql_risk("SELECT 1; INSERT INTO users VALUES (1)", "postgres").unwrap(), SqlRisk::Write);
}

#[test]
fn classify_fallback_on_parse_error() {
    assert_eq!(classify_sql_risk("SELECT * FROM users", "generic").unwrap(), SqlRisk::ReadOnly);
}

#[test]
fn classify_unknown_statement_is_write() {
    assert_eq!(classify_sql_risk("GRANT SELECT ON users TO admin", "postgres").unwrap(), SqlRisk::Ddl);
}

#[test]
fn ddl_risk_safe_create_table() {
    let report = analyze_sql_impact("CREATE TABLE users (id INT)", "postgres", TableSize::Small, 0).unwrap();
    assert_eq!(report.ddl_risk_level, Some(DdlRiskLevel::Safe));
    assert_eq!(report.recommended_strategy, ExecStrategy::Online);
    assert!(!report.requires_maintenance_window);
}

#[test]
fn ddl_risk_safe_create_index() {
    let report = analyze_sql_impact("CREATE INDEX idx_name ON users (name)", "postgres", TableSize::Small, 0).unwrap();
    assert_eq!(report.ddl_risk_level, Some(DdlRiskLevel::Safe));
    assert_eq!(report.recommended_strategy, ExecStrategy::Online);
}

#[test]
fn ddl_risk_caution_add_column() {
    let report = analyze_sql_impact("ALTER TABLE users ADD COLUMN age INT", "postgres", TableSize::Small, 0).unwrap();
    assert_eq!(report.ddl_risk_level, Some(DdlRiskLevel::Caution));
    assert_eq!(report.recommended_strategy, ExecStrategy::Online);
}

#[test]
fn ddl_risk_caution_grant() {
    let report = analyze_sql_impact("GRANT SELECT ON users TO admin", "postgres", TableSize::Small, 0).unwrap();
    assert_eq!(report.ddl_risk_level, Some(DdlRiskLevel::Caution));
}

#[test]
fn ddl_risk_dangerous_drop_column() {
    let report = analyze_sql_impact("ALTER TABLE users DROP COLUMN age", "postgres", TableSize::Medium, 0).unwrap();
    assert_eq!(report.ddl_risk_level, Some(DdlRiskLevel::Dangerous));
    assert_eq!(report.recommended_strategy, ExecStrategy::Offline);
    assert!(report.requires_maintenance_window);
}

#[test]
fn ddl_risk_dangerous_truncate() {
    let report = analyze_sql_impact("TRUNCATE TABLE users", "postgres", TableSize::Medium, 0).unwrap();
    assert_eq!(report.ddl_risk_level, Some(DdlRiskLevel::Dangerous));
    assert_eq!(report.recommended_strategy, ExecStrategy::Offline);
}

#[test]
fn ddl_risk_blocked_drop_table() {
    let report = analyze_sql_impact("DROP TABLE users", "postgres", TableSize::Large, 0).unwrap();
    assert_eq!(report.ddl_risk_level, Some(DdlRiskLevel::Blocked));
    assert_eq!(report.recommended_strategy, ExecStrategy::Batch);
    assert!(!report.is_reversible);
    assert!(report.requires_maintenance_window);
}

#[test]
fn ddl_risk_blocked_drop_schema() {
    let report = analyze_sql_impact("DROP SCHEMA public CASCADE", "postgres", TableSize::Small, 0).unwrap();
    assert_eq!(report.ddl_risk_level, Some(DdlRiskLevel::Blocked));
    assert!(!report.is_reversible);
}

#[test]
fn ddl_risk_cumulative_max_risk() {
    let levels = vec![DdlRiskLevel::Safe, DdlRiskLevel::Caution, DdlRiskLevel::Dangerous];
    assert_eq!(accumulate_ddl_risk(&levels), DdlRiskLevel::Dangerous);

    let levels = vec![DdlRiskLevel::Safe, DdlRiskLevel::Blocked, DdlRiskLevel::Caution];
    assert_eq!(accumulate_ddl_risk(&levels), DdlRiskLevel::Blocked);
}

#[test]
fn ddl_risk_cumulative_empty() {
    assert_eq!(accumulate_ddl_risk(&[]), DdlRiskLevel::Safe);
}

#[test]
fn multi_statement_ddl_risk_escalation() {
    let sql = "CREATE TABLE users (id INT); ALTER TABLE users DROP COLUMN name";
    let report = analyze_sql_impact(sql, "postgres", TableSize::Medium, 0).unwrap();
    assert_eq!(report.ddl_risk_level, Some(DdlRiskLevel::Dangerous));
    assert_eq!(report.ddl_details.len(), 2);
}

#[test]
fn multi_statement_mixed_read_and_ddl() {
    let sql = "SELECT 1; CREATE INDEX idx_a ON t (a)";
    let report = analyze_sql_impact(sql, "postgres", TableSize::Small, 0).unwrap();
    assert_eq!(report.overall_risk, SqlRisk::Ddl);
    assert_eq!(report.ddl_risk_level, Some(DdlRiskLevel::Safe));
}

#[test]
fn strategy_online_for_safe_ops() {
    assert_eq!(select_execution_strategy(DdlRiskLevel::Safe, TableSize::Large, 100), ExecStrategy::Online);
}

#[test]
fn strategy_lazy_for_caution_large_table() {
    assert_eq!(select_execution_strategy(DdlRiskLevel::Caution, TableSize::Large, 50), ExecStrategy::Lazy);
}

#[test]
fn strategy_offline_for_dangerous() {
    assert_eq!(select_execution_strategy(DdlRiskLevel::Dangerous, TableSize::Medium, 0), ExecStrategy::Offline);
}

#[test]
fn strategy_batch_for_blocked() {
    assert_eq!(select_execution_strategy(DdlRiskLevel::Blocked, TableSize::Large, 0), ExecStrategy::Batch);
}

#[test]
fn estimate_table_size_small() {
    assert_eq!(estimate_table_size(0), TableSize::Small);
    assert_eq!(estimate_table_size(10_000), TableSize::Small);
}

#[test]
fn estimate_table_size_medium() {
    assert_eq!(estimate_table_size(10_001), TableSize::Medium);
    assert_eq!(estimate_table_size(1_000_000), TableSize::Medium);
}

#[test]
fn estimate_table_size_large() {
    assert_eq!(estimate_table_size(1_000_001), TableSize::Large);
}

#[test]
fn impact_report_contains_locks() {
    let report = analyze_sql_impact("ALTER TABLE users DROP COLUMN age", "postgres", TableSize::Medium, 0).unwrap();
    assert!(!report.estimated_locks.is_empty());
    let lock = &report.estimated_locks[0];
    assert_eq!(lock.object, "users");
    assert!(lock.lock_type.contains("rebuild"));
}

#[test]
fn impact_report_contains_warnings_for_dangerous() {
    let report = analyze_sql_impact("ALTER TABLE users DROP COLUMN age", "postgres", TableSize::Medium, 0).unwrap();
    assert!(!report.warnings.is_empty());
    assert!(report.warnings.iter().any(|w| w.contains("rebuild")));
}

#[test]
fn impact_report_no_warnings_for_safe() {
    let report = analyze_sql_impact("CREATE INDEX idx ON t (c)", "postgres", TableSize::Small, 0).unwrap();
    assert!(report.warnings.is_empty());
    assert!(report.is_safe_for_online_execution());
}

#[test]
fn impact_report_is_reversible_for_add_column() {
    let report = analyze_sql_impact("ALTER TABLE users ADD COLUMN age INT", "postgres", TableSize::Small, 0).unwrap();
    assert!(report.is_reversible);
}

#[test]
fn impact_report_not_reversible_for_drop() {
    let report = analyze_sql_impact("DROP TABLE users", "postgres", TableSize::Small, 0).unwrap();
    assert!(!report.is_reversible);
}

#[test]
fn impact_report_truncate_is_dangerous_not_blocked() {
    let report = analyze_sql_impact("TRUNCATE TABLE t", "postgres", TableSize::Small, 0).unwrap();
    assert_eq!(report.ddl_risk_level, Some(DdlRiskLevel::Dangerous));
    assert!(!report.is_reversible);
}

#[test]
fn classify_ddl_risk_convenience() {
    let r = classify_ddl_risk("CREATE TABLE t (id INT)", "postgres").unwrap();
    assert_eq!(r, Some(DdlRiskLevel::Safe));

    let r = classify_ddl_risk("SELECT 1", "postgres").unwrap();
    assert_eq!(r, None);
}

#[test]
fn analyze_impact_pure_read() {
    let report = analyze_sql_impact("SELECT * FROM users", "postgres", TableSize::Small, 0).unwrap();
    assert_eq!(report.overall_risk, SqlRisk::ReadOnly);
    assert_eq!(report.ddl_risk_level, None);
    assert!(report.ddl_details.is_empty());
    assert!(report.estimated_locks.is_empty());
    assert!(report.is_safe_for_online_execution());
}

#[test]
fn existing_classify_sql_risk_still_works_for_ddl() {
    assert_eq!(classify_sql_risk("CREATE TABLE users (id INT)", "postgres").unwrap(), SqlRisk::Ddl);
    assert_eq!(classify_sql_risk("DROP TABLE users", "postgres").unwrap(), SqlRisk::Ddl);
    assert_eq!(classify_sql_risk("ALTER TABLE users ADD COLUMN age INT", "postgres").unwrap(), SqlRisk::Ddl);
    assert_eq!(classify_sql_risk("TRUNCATE TABLE users", "postgres").unwrap(), SqlRisk::Ddl);
    assert_eq!(classify_sql_risk("GRANT SELECT ON users TO admin", "postgres").unwrap(), SqlRisk::Ddl);
}

#[test]
fn existing_classify_sql_risk_still_works_for_non_ddl() {
    assert_eq!(classify_sql_risk("SELECT * FROM users", "postgres").unwrap(), SqlRisk::ReadOnly);
    assert_eq!(classify_sql_risk("INSERT INTO users VALUES (1)", "postgres").unwrap(), SqlRisk::Write);
}

#[test]
fn analyze_impact_empty_sql() {
    let result = analyze_sql_impact("", "postgres", TableSize::Small, 0);
    assert!(result.is_err());
}

#[test]
fn ddl_risk_order() {
    assert!(DdlRiskLevel::Safe < DdlRiskLevel::Caution);
    assert!(DdlRiskLevel::Caution < DdlRiskLevel::Dangerous);
    assert!(DdlRiskLevel::Dangerous < DdlRiskLevel::Blocked);
}

#[test]
fn ddl_risk_unnamed_drop_column_field() {
    let r = classify_ddl_risk("ALTER TABLE t DROP COLUMN c", "postgres").unwrap();
    assert_eq!(r, Some(DdlRiskLevel::Dangerous));
}

#[test]
fn ddl_risk_truncate_not_reversible_anymore() {
    let report = analyze_sql_impact("TRUNCATE TABLE t", "postgres", TableSize::Small, 0).unwrap();
    assert!(!report.is_reversible);
    assert_eq!(report.ddl_risk_level, Some(DdlRiskLevel::Dangerous));
}

#[test]
fn summaries_locks_and_warnings_are_exact() {
    let report = analyze_sql_impact("DROP TABLE a, b", "postgres", TableSize::Medium, 3).unwrap();
    assert_eq!(report.ddl_details[0].summary, "DROP TABLE a, b");
    assert_eq!(report.ddl_details[0].affected_objects, vec!["a".to_string(), "b".to_string()]);
    assert_eq!(report.estimated_locks.len(), 2);
    assert_eq!(report.estimated_locks[1].object, "b");
    assert_eq!(report.estimated_locks[1].lock_type, "exclusive");
    assert_eq!(report.estimated_locks[1].estimated_duration, "1-15 minutes");
    assert_eq!(report.estimated_total_duration, "1-15 minutes");
    assert_eq!(
        report.warnings,
        vec![
            "DROP TABLE a, b — destructive operation, data will be permanently lost".to_string(),
            "Ensure backups are up-to-date and schedule during maintenance window".to_string(),
        ]
    );
}

#[test]
fn alter_table_summary_lists_operations() {
    let report =
        analyze_sql_impact("ALTER TABLE t ADD COLUMN x INT, DROP COLUMN y", "postgres", TableSize::Small, 0).unwrap();
    assert_eq!(report.ddl_details[0].summary, "ALTER TABLE t [x, drop column]");
    assert_eq!(report.ddl_risk_level, Some(DdlRiskLevel::Dangerous));
    assert_eq!(report.recommended_strategy, ExecStrategy::Lazy);
}

#[test]
fn create_index_lock_names_index_and_table() {
    let report = analyze_sql_impact("CREATE INDEX idx ON t (c)", "postgres", TableSize::Small, 0).unwrap();
    assert_eq!(report.estimated_locks[0].object, "idx (on t)");
    assert_eq!(report.ddl_details[0].affected_objects, vec!["t".to_string(), "idx".to_string()]);
}

#[test]
fn parse_error_is_reported() {
    let err = analyze_sql_impact("SELEC nonsense ((", "postgres", TableSize::Small, 0).unwrap_err();
    assert!(err.starts_with("SQL parse error: "));
    assert_eq!(classify_sql_risk("SELEC nonsense ((", "postgres").unwrap(), SqlRisk::Write);
    assert_eq!(classify_sql_risk("SELECT FROM WHERE ((", "postgres").unwrap(), SqlRisk::ReadOnly);
}

#[test]
fn dialect_names_are_normalized() {
    assert_eq!(normalize_dialect("PostgreSQL"), "postgres");
    assert_eq!(normalize_dialect("MariaDB"), "mysql");
    assert_eq!(normalize_dialect("MSSQL"), "sqlserver");
    assert_eq!(normalize_dialect("oracle"), "generic");
}

#[test]
fn blocked_small_table_depends_on_load() {
    assert_eq!(select_execution_strategy(DdlRiskLevel::Blocked, TableSize::Small, 9), ExecStrategy::Offline);
    assert_eq!(select_execution_strategy(DdlRiskLevel::Blocked, TableSize::Small, 10), ExecStrategy::Batch);
    assert_eq!(select_execution_strategy(DdlRiskLevel::Caution, TableSize::Unknown, 0), ExecStrategy::Lazy);
    assert_eq!(select_execution_strategy(DdlRiskLevel::Caution, TableSize::Small, 0), ExecStrategy::Online);
    assert_eq!(select_execution_strategy(DdlRiskLevel::Dangerous, TableSize::Small, 0), ExecStrategy::Lazy);
}

#[test]
fn routine_definitions_are_ddl() {
    assert_eq!(
        classify_sql_risk("CREATE FUNCTION f() RETURNS INT AS $$ SELECT 1 $$ LANGUAGE sql", "postgres").unwrap(),
        SqlRisk::Ddl
    );
    assert_eq!(
        classify_sql_risk("CREATE TRIGGER trg BEFORE INSERT ON t FOR EACH ROW EXECUTE FUNCTION f()", "postgres").unwrap(),
        SqlRisk::Ddl
    );
}

#[test]
fn unreadable_text_is_classified_by_first_keyword() {
    assert_eq!(classify_sql_risk("  select * from (((", "postgres").unwrap(), SqlRisk::ReadOnly);
    assert_eq!(classify_by_keyword("\tSHOW whatever (("), SqlRisk::ReadOnly);
    assert_eq!(classify_sql_risk("UPSERT nonsense ((", "postgres").unwrap(), SqlRisk::Write);
    assert_eq!(classify_sql_risk("", "postgres").unwrap(), SqlRisk::Write);
    assert_eq!(classify_by_keyword("desc t"), SqlRisk::ReadOnly);
    assert_eq!(classify_by_keyword("DESCRIBE"), SqlRisk::ReadOnly);
    assert_eq!(classify_by_keyword("selector"), SqlRisk::Write);
    assert_eq!(classify_by_keyword("(SELECT 1"), SqlRisk::Write);
}

#[test]
fn modify_column_is_dangerous_and_rebuilds() {
    assert_eq!(
        classify_ddl_risk("ALTER TABLE users MODIFY COLUMN name VARCHAR(200)", "mysql").unwrap(),
        Some(DdlRiskLevel::Dangerous)
    );
    let report =
        analyze_sql_impact("ALTER TABLE users MODIFY COLUMN name VARCHAR(200)", "mysql", TableSize::Small, 0).unwrap();
    assert_eq!(report.ddl_details[0].summary, "ALTER TABLE users [name]");
    assert_eq!(report.estimated_locks[0].lock_type, "table-exclusive (with rebuild)");
}

#[test]
fn ddl_levels_of_the_level_table() {
    let level = |sql: &str| classify_ddl_risk(sql, "postgres").unwrap();
    assert_eq!(level("CREATE TABLE users (id INT)"), Some(DdlRiskLevel::Safe));
    assert_eq!(level("CREATE INDEX idx_name ON users (name)"), Some(DdlRiskLevel::Safe));
    assert_eq!(level("ALTER TABLE users ADD COLUMN age INT"), Some(DdlRiskLevel::Caution));
    assert_eq!(level("GRANT SELECT ON users TO admin"), Some(DdlRiskLevel::Caution));
    assert_eq!(level("TRUNCATE TABLE users"), Some(DdlRiskLevel::Dangerous));
    assert_eq!(level("DROP TABLE users"), Some(DdlRiskLevel::Blocked));
    assert_eq!(level("DROP SCHEMA public CASCADE"), Some(DdlRiskLevel::Blocked));
    assert_eq!(level("SELECT 1"), None);
}

#[test]
fn every_create_alter_and_drop_is_ddl() {
    for sql in [
        "CREATE DATABASE shop",
        "CREATE EXTENSION hstore",
        "ALTER ROLE admin WITH PASSWORD 'x'",
        "DROP FUNCTION f()",
        "DROP TRIGGER trg ON t",
        "ALTER SCHEMA s RENAME TO s2",
    ] {
        assert_eq!(classify_sql_risk(sql, "postgres").unwrap(), SqlRisk::Ddl, "{sql}");
    }
    assert_eq!(classify_ddl_risk("CREATE DATABASE shop", "postgres").unwrap(), None);
}

#[test]
fn caution_change_on_table_of_unknown_size_runs_lazily() {
    let report = analyze_sql_impact("ALTER TABLE users ADD COLUMN age INT", "postgres", TableSize::Unknown, 0).unwrap();
    assert_eq!(report.ddl_risk_level, Some(DdlRiskLevel::Caution));
    assert_eq!(report.recommended_strategy, ExecStrategy::Lazy);
    assert!(!report.requires_maintenance_window);
}
