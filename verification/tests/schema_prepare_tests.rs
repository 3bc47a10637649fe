use dbx_core::schema_diff::TableSchemaDetail;
use dbx_core::schema_prepare::{prepare_schema_diff, SchemaDiffPreparationOptions};
use dbx_core::schema_patterns::BatchPattern;
use dbx_core::schema_rollback::RenamePair;
use dbx_core::schema_schedule::ResourceConstraint;
use dbx_core::schema_types::{
    ColumnInfo, DatabaseType, FunctionInfo, OwnerInfo, PermissionInfo, RuleInfo, SequenceInfo, TableInfo,
};

fn column(name: &str, data_type: &str, comment: Option<&str>) -> ColumnInfo {
    ColumnInfo {
        name: name.to_string(),
        data_type: data_type.to_string(),
        is_nullable: false,
        column_default: None,
        is_primary_key: false,
        extra: None,
        comment: comment.map(str::to_string),
        numeric_precision: None,
        numeric_scale: None,
        character_maximum_length: None,
    }
}

fn base_table(name: &str, comment: Option<&str>) -> TableInfo {
    TableInfo {
        name: name.to_string(),
        table_type: "BASE TABLE".to_string(),
        comment: comment.map(str::to_string),
        parent_schema: None,
        parent_name: None,
    }
}

fn detail(name: &str, columns: Vec<ColumnInfo>, ddl: Option<&str>) -> TableSchemaDetail {
    TableSchemaDetail {
        name: name.to_string(),
        columns,
        indexes: Vec::new(),
        foreign_keys: Vec::new(),
        triggers: Vec::new(),
        ddl: ddl.map(str::to_string),
    }
}

#[test]
fn ignore_comments_skips_column_and_table_comment_diffs() {
    let options = SchemaDiffPreparationOptions {
        source_tables: vec![base_table("users", Some("用户表"))],
        target_tables: vec![base_table("users", Some("Users"))],
        source_details: vec![detail("users", vec![column("name", "varchar(64)", Some("用户姓名"))], None)],
        target_details: vec![detail("users", vec![column("name", "varchar(64)", Some("Name"))], None)],
        source_functions: Vec::new(),
        target_functions: Vec::new(),
        source_sequences: Vec::new(),
        target_sequences: Vec::new(),
        source_rules: Vec::new(),
        target_rules: Vec::new(),
        source_owners: Vec::new(),
        target_owners: Vec::new(),
        database_type: DatabaseType::Mysql,
        target_schema: None,
        ignore_comments: true,
        cascade_delete: false,
        compare_column_order: false,
        ..Default::default()
    };

    let result = prepare_schema_diff(options, vec![]);
    assert!(result.diffs.is_empty());
    assert!(result.sync_sql.is_empty());
}

#[test]
fn prepare_schema_diff_attaches_per_table_sync_sql() {
    let options = SchemaDiffPreparationOptions {
        source_tables: vec![base_table("users", None)],
        target_tables: vec![base_table("users", None)],
        source_details: vec![detail(
            "users",
            vec![column("name", "varchar(128)", None)],
            Some("CREATE TABLE `users` (`name` varchar(128));"),
        )],
        target_details: vec![detail(
            "users",
            vec![column("name", "varchar(64)", None)],
            Some("CREATE TABLE `users` (`name` varchar(64));"),
        )],
        source_functions: Vec::new(),
        target_functions: Vec::new(),
        source_sequences: Vec::new(),
        target_sequences: Vec::new(),
        source_rules: Vec::new(),
        target_rules: Vec::new(),
        source_owners: Vec::new(),
        target_owners: Vec::new(),
        database_type: DatabaseType::Mysql,
        target_schema: None,
        ignore_comments: false,
        cascade_delete: false,
        compare_column_order: false,
        ..Default::default()
    };

    let result = prepare_schema_diff(options, vec![]);
    let table_sync_sql = result.diffs[0].sync_sql.as_deref().unwrap_or_default();

    assert!(table_sync_sql.contains("ALTER TABLE `users`"));
    assert!(!table_sync_sql.contains("CREATE TABLE"));
}

#[test]
fn new_options_default_values_do_not_affect_basic_diff() {
    let options = SchemaDiffPreparationOptions::default();
    let result = prepare_schema_diff(options, vec![]);
    assert!(result.diffs.is_empty());
    assert!(result.sync_sql.is_empty());
    assert!(result.rollback_sync_sql.is_none());
    assert!(result.renames.is_empty());
    assert!(result.rollback_graph.is_none());
    assert!(result.permission_diffs.is_empty());
}

#[test]
fn prepare_schema_diff_with_rollback_generates_rollback_sql() {
    let options = SchemaDiffPreparationOptions {
        source_tables: vec![base_table("new_table", None)],
        target_tables: vec![],
        source_details: vec![detail(
            "new_table",
            vec![column("id", "int", None)],
            Some("CREATE TABLE new_table (id int);"),
        )],
        target_details: vec![],
        source_functions: vec![],
        target_functions: vec![],
        source_sequences: vec![],
        target_sequences: vec![],
        source_rules: vec![],
        target_rules: vec![],
        source_owners: vec![],
        target_owners: vec![],
        database_type: DatabaseType::Mysql,
        target_schema: None,
        ignore_comments: false,
        cascade_delete: false,
        compare_column_order: false,
        enable_rollback: true,
        ..Default::default()
    };

    let result = prepare_schema_diff(options, vec![]);
    assert!(result.rollback_sync_sql.is_some());
    assert!(result.rollback_graph.is_some());
    let graph = result.rollback_graph.unwrap();
    assert!(graph.is_consistent);
    assert_eq!(graph.forward_nodes.len(), 1);
    assert_eq!(graph.rollback_nodes.len(), 1);
    assert_eq!(graph.rollback_nodes[0].table_diff.diff_type, "removed");
}

#[test]
fn prepared_scripts_cover_tables_owners_and_grants() {
    let owner = |who: &str| OwnerInfo { object_name: "users".to_string(), object_type: "TABLE".to_string(), owner: who.to_string() };
    let grant = PermissionInfo {
        grantee: "app".to_string(),
        object_type: "TABLE".to_string(),
        object_name: "users".to_string(),
        privilege: "SELECT".to_string(),
        is_grantable: false,
    };
    let options = SchemaDiffPreparationOptions {
        source_tables: vec![base_table("users", None)],
        source_details: vec![detail("users", vec![column("id", "int", None)], Some("CREATE TABLE users (id int)"))],
        source_owners: vec![owner("alice")],
        target_owners: vec![owner("bob")],
        database_type: DatabaseType::Postgres,
        target_schema: Some("public".to_string()),
        enable_rollback: true,
        ..Default::default()
    }
    .with_permissions(vec![grant], vec![]);

    let result = prepare_schema_diff(options, vec![]);
    assert_eq!(result.diffs.len(), 1);
    assert_eq!(result.diffs[0].diff_type, "added");
    assert_eq!(
        result.diffs[0].sync_sql.as_deref(),
        Some("-- Create table: users\nCREATE TABLE users (id int);")
    );
    assert_eq!(
        result.sync_sql,
        "-- Create table: users\nCREATE TABLE users (id int);\n\n\n-- Owners\nALTER TABLE \"public\".\"users\" OWNER TO alice;"
    );
    assert_eq!(result.rollback_sync_sql.as_deref(), Some("-- Drop table: users\nDROP TABLE IF EXISTS \"public\".\"users\";"));
    assert_eq!(result.permission_diffs.len(), 1);
    assert_eq!(
        result.permission_sync_sql.as_deref(),
        Some("GRANT SELECT ON TABLE \"public\".\"users\" TO \"app\";")
    );
    let graph = result.dependency_graph.unwrap();
    assert_eq!(graph.topological_order, vec!["users".to_string()]);
}

#[test]
fn detected_renames_replace_the_drop_and_the_create() {
    let options = SchemaDiffPreparationOptions {
        source_tables: vec![base_table("users_new", None)],
        target_tables: vec![base_table("users_old", None)],
        source_details: vec![detail("users_new", vec![column("id", "int", None)], None)],
        target_details: vec![detail("users_old", vec![column("id", "int", None)], Some("CREATE TABLE users_old (id int)"))],
        database_type: DatabaseType::Mysql,
        detect_renames: true,
        ..Default::default()
    };
    let pair = RenamePair { removed_name: "users_old".to_string(), added_name: "users_new".to_string() };
    let result = prepare_schema_diff(options, vec![pair]);
    assert_eq!(result.diffs.len(), 1);
    assert_eq!(result.diffs[0].diff_type, "renamed");
    assert_eq!(result.diffs[0].name, "users_old");
    assert_eq!(result.diffs[0].ddl, None);
    assert_eq!(result.diffs[0].target_ddl, None);
    assert_eq!(result.diffs[0].sync_sql, None);
    assert_eq!(result.renames.len(), 1);
    assert!(result.sync_sql.is_empty());

    let without = SchemaDiffPreparationOptions {
        source_tables: vec![base_table("users_new", None)],
        target_tables: vec![base_table("users_old", None)],
        database_type: DatabaseType::Mysql,
        ..Default::default()
    };
    let pair = RenamePair { removed_name: "users_old".to_string(), added_name: "users_new".to_string() };
    let result = prepare_schema_diff(without, vec![pair]);
    assert_eq!(result.diffs.len(), 2);
    assert!(result.renames.is_empty());
}

#[test]
fn builders_set_only_their_own_options() {
    let options = SchemaDiffPreparationOptions::default()
        .with_rollback(true)
        .with_batch_patterns(vec![BatchPattern { pattern: "log_*".to_string(), is_regex: false, description: "logs".to_string() }])
        .with_resource_constraint(ResourceConstraint::default());
    assert!(options.enable_rollback);
    assert_eq!(options.batch_patterns.len(), 1);
    assert_eq!(options.resource_constraint.map(|c| c.max_concurrent_connections), Some(4));
    assert!(options.shard_strategy.is_none());
    assert!(!options.detect_renames);
    assert_eq!(options.database_type, DatabaseType::Sqlite);
}

#[test]
fn equal_schemas_need_no_synchronisation() {
    let function = || FunctionInfo {
        name: "f".to_string(),
        definition: "select  1".to_string(),
        function_type: "FUNCTION".to_string(),
        data_type: "int".to_string(),
        arguments: "a int".to_string(),
    };
    let sequence = || SequenceInfo {
        name: "s".to_string(),
        data_type: "bigint".to_string(),
        start_value: "1".to_string(),
        min_value: "1".to_string(),
        max_value: "9".to_string(),
        increment: "1".to_string(),
        cycle: false,
        last_value: Some("3".to_string()),
    };
    let rule = || RuleInfo { name: "r".to_string(), table_name: "t".to_string(), definition: "x".to_string() };
    let owner = || OwnerInfo { object_name: "t".to_string(), object_type: "TABLE".to_string(), owner: "o".to_string() };
    let grant = || PermissionInfo {
        grantee: "g".to_string(),
        object_type: "TABLE".to_string(),
        object_name: "t".to_string(),
        privilege: "SELECT".to_string(),
        is_grantable: true,
    };
    let options = SchemaDiffPreparationOptions {
        source_tables: vec![base_table("t", Some("c"))],
        target_tables: vec![base_table("t", Some("c"))],
        source_details: vec![detail("t", vec![column("id", "int", Some("k"))], None)],
        target_details: vec![detail("t", vec![column("id", "int", Some("k"))], None)],
        source_functions: vec![function()],
        target_functions: vec![function()],
        source_sequences: vec![sequence()],
        target_sequences: vec![sequence()],
        source_rules: vec![rule()],
        target_rules: vec![rule()],
        source_owners: vec![owner()],
        target_owners: vec![owner()],
        database_type: DatabaseType::Postgres,
        ..Default::default()
    }
    .with_permissions(vec![grant()], vec![grant()]);
    let result = prepare_schema_diff(options, vec![]);
    assert!(result.diffs.is_empty());
    assert!(result.function_diffs.is_empty());
    assert!(result.sequence_diffs.is_empty());
    assert!(result.rule_diffs.is_empty());
    assert!(result.owner_diffs.is_empty());
    assert!(result.permission_diffs.is_empty());
    assert_eq!(result.permission_sync_sql, None);
    assert_eq!(result.sync_sql, "");
}

#[test]
fn prepared_comparison_detects_column_renames_when_asked() {
    let options = |detect_renames: bool| SchemaDiffPreparationOptions {
        source_tables: vec![base_table("tb_user", None)],
        target_tables: vec![base_table("tb_user", None)],
        source_details: vec![detail(
            "tb_user",
            vec![column("id", "int", None), column("name2", "varchar(120)", None)],
            None,
        )],
        target_details: vec![detail(
            "tb_user",
            vec![column("id", "int", None), column("name", "varchar(120)", None)],
            None,
        )],
        database_type: DatabaseType::Mysql,
        detect_renames,
        ..Default::default()
    };
    let result = prepare_schema_diff(options(true), vec![]);
    assert_eq!(result.diffs.len(), 1);
    let columns = result.diffs[0].columns.as_ref().unwrap();
    assert_eq!(columns.len(), 1);
    assert_eq!(columns[0].diff_type, "renamed");
    assert_eq!(columns[0].changes, vec!["name → name2"]);
    let plain = prepare_schema_diff(options(false), vec![]);
    let columns = plain.diffs[0].columns.as_ref().unwrap();
    assert_eq!(columns.len(), 2);
    assert!(columns.iter().all(|c| c.diff_type != "renamed"));
}
