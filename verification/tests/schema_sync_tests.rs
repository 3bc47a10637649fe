use dbx_core::schema_diff::{
    ColumnDiff, ForeignKeyDiff, FunctionDiff, IndexDiff, OwnerDiff, RuleDiff, SequenceDiff, TableDiff, TriggerDiff,
};
use dbx_core::schema_graph::DependencyGraph;
use dbx_core::schema_rollback::RollbackGraph;
use dbx_core::schema_sync::{column_def, drop_object_sql, generate_rollback_sync_sql, generate_schema_sync_sql, trim};
use dbx_core::schema_types::{
    ColumnInfo, DatabaseType, ForeignKeyInfo, FunctionInfo, IndexInfo, OwnerInfo, RuleInfo, SequenceInfo,
};

fn column(name: &str, data_type: &str, comment: Option<&str>) -> ColumnInfo {
    ColumnInfo {
        name: name.to_string(),
        data_type: data_type.to_string(),
        is_nullable: false,
        column_default: None,
        is_primary_key: false,
        extra: None,
        comment: comment.map(str::to_string),
        numeric_precision: None,
        numeric_scale: None,
        character_maximum_length: None,
    }
}

fn index(overrides: IndexInfo) -> IndexInfo {
    IndexInfo {
        name: if overrides.name.is_empty() { "idx_users_email".to_string() } else { overrides.name },
        columns: if overrides.columns.is_empty() { vec!["email".to_string()] } else { overrides.columns },
        is_unique: overrides.is_unique,
        is_primary: overrides.is_primary,
        filter: overrides.filter,
        index_type: overrides.index_type,
        included_columns: overrides.included_columns,
        comment: overrides.comment,
    }
}

fn foreign_key(overrides: ForeignKeyInfo) -> ForeignKeyInfo {
    ForeignKeyInfo {
        name: if overrides.name.is_empty() { "orders_user_id_fk".to_string() } else { overrides.name },
        column: if overrides.column.is_empty() { "user_id".to_string() } else { overrides.column },
        ref_schema: overrides.ref_schema,
        ref_table: if overrides.ref_table.is_empty() { "users".to_string() } else { overrides.ref_table },
        ref_column: if overrides.ref_column.is_empty() { "id".to_string() } else { overrides.ref_column },
        on_update: overrides.on_update,
        on_delete: overrides.on_delete,
    }
}

fn table_diff(diff_type: &str, name: &str) -> TableDiff {
    TableDiff {
        diff_type: diff_type.to_string(),
        object_type: None,
        name: name.to_string(),
        columns: None,
        indexes: None,
        foreign_keys: None,
        triggers: None,
        ddl: None,
        target_ddl: None,
        source_table_comment: None,
        target_table_comment: None,
        sync_sql: None,
    }
}

fn sync(diffs: &[TableDiff], db: DatabaseType, schema: Option<&str>) -> String {
    generate_schema_sync_sql(diffs, &[], &[], &[], &[], db, schema, false)
}

#[test]
fn generates_sync_sql_for_index_and_foreign_key_changes() {
    let diffs = vec![TableDiff {
        diff_type: "modified".to_string(),
        object_type: None,
        name: "orders".to_string(),
        columns: None,
        indexes: Some(vec![IndexDiff {
            diff_type: "modified".to_string(),
            name: "idx_orders_status".to_string(),
            source: Some(index(IndexInfo {
                name: "idx_orders_status".to_string(),
                columns: vec!["status".to_string(), "created_at".to_string()],
                is_unique: true,
                is_primary: false,
                filter: None,
                index_type: None,
                included_columns: None,
                comment: None,
            })),
            target: None,
            changes: Vec::new(),
        }]),
        foreign_keys: Some(vec![ForeignKeyDiff {
            diff_type: "modified".to_string(),
            name: "orders_user_id_fk".to_string(),
            source: Some(foreign_key(ForeignKeyInfo {
                name: "orders_user_id_fk".to_string(),
                column: String::new(),
                ref_schema: None,
                ref_table: "users".to_string(),
                ref_column: String::new(),
                on_update: None,
                on_delete: None,
            })),
            target: None,
            changes: Vec::new(),
        }]),
        triggers: None,
        ddl: None,
        target_ddl: None,
        source_table_comment: None,
        target_table_comment: None,
        sync_sql: None,
    }];

    assert_eq!(
        generate_schema_sync_sql(&diffs, &[], &[], &[], &[], DatabaseType::Postgres, None, false),
        [
            "ALTER TABLE \"orders\" DROP CONSTRAINT \"orders_user_id_fk\";",
            "DROP INDEX IF EXISTS \"idx_orders_status\";",
            "CREATE UNIQUE INDEX \"idx_orders_status\" ON \"orders\" (\"status\", \"created_at\");",
            "ALTER TABLE \"orders\" ADD CONSTRAINT \"orders_user_id_fk\" FOREIGN KEY (\"user_id\") REFERENCES \"users\" (\"id\");",
        ]
        .join("\n")
    );
}

#[test]
fn mysql_column_comment_changes_generate_modify_column_sql() {
    let diffs = vec![TableDiff {
        diff_type: "modified".to_string(),
        object_type: None,
        name: "users".to_string(),
        columns: Some(vec![ColumnDiff {
            diff_type: "modified".to_string(),
            name: "name".to_string(),
            source: Some(column("name", "varchar(64)", Some("用户姓名"))),
            target: Some(column("name", "varchar(64)", Some("Name"))),
            changes: vec!["comment: Name → 用户姓名".to_string()],
        }]),
        indexes: None,
        foreign_keys: None,
        triggers: None,
        ddl: None,
        target_ddl: None,
        source_table_comment: Some(Some("用户表".to_string())),
        target_table_comment: Some(Some("Users".to_string())),
        sync_sql: None,
    }];

    assert_eq!(
        generate_schema_sync_sql(&diffs, &[], &[], &[], &[], DatabaseType::Mysql, None, false),
        [
            "-- Alter table: users",
            "ALTER TABLE `users`",
            "  MODIFY COLUMN `name` varchar(64) NOT NULL COMMENT '用户姓名';",
            "",
            "ALTER TABLE `users` COMMENT = '用户表';",
        ]
        .join("\n")
    );
}

#[test]
fn qualifies_generated_schema_sync_sql_with_target_schema() {
    let diffs = vec![TableDiff {
        diff_type: "modified".to_string(),
        object_type: None,
        name: "orders".to_string(),
        columns: Some(vec![ColumnDiff {
            diff_type: "added".to_string(),
            name: "status".to_string(),
            source: Some(ColumnInfo {
                name: "status".to_string(),
                data_type: "text".to_string(),
                is_nullable: true,
                column_default: None,
                is_primary_key: false,
                extra: None,
                comment: None,
                numeric_precision: None,
                numeric_scale: None,
                character_maximum_length: None,
            }),
            target: None,
            changes: Vec::new(),
        }]),
        indexes: Some(vec![IndexDiff {
            diff_type: "added".to_string(),
            name: "idx_orders_status".to_string(),
            source: Some(index(IndexInfo {
                name: "idx_orders_status".to_string(),
                columns: vec!["status".to_string()],
                is_unique: false,
                is_primary: false,
                filter: None,
                index_type: None,
                included_columns: None,
                comment: None,
            })),
            target: None,
            changes: Vec::new(),
        }]),
        foreign_keys: None,
        triggers: None,
        ddl: None,
        target_ddl: None,
        source_table_comment: None,
        target_table_comment: None,
        sync_sql: None,
    }];

    assert_eq!(
        generate_schema_sync_sql(&diffs, &[], &[], &[], &[], DatabaseType::Postgres, Some("sales"), false),
        [
            "-- Alter table: orders",
            "ALTER TABLE \"sales\".\"orders\"  ADD COLUMN \"status\" text;",
            "",
            "CREATE INDEX \"idx_orders_status\" ON \"sales\".\"orders\" (\"status\");",
        ]
        .join("\n")
    );
}

#[test]
fn column_definitions_and_drop_statements() {
    let mut c = column("note", "text", Some("it's"));
    c.column_default = Some("''".to_string());
    assert_eq!(column_def(&c, DatabaseType::Mysql), "`note` text NOT NULL DEFAULT '' COMMENT 'it''s'");
    assert_eq!(column_def(&c, DatabaseType::Postgres), "\"note\" text NOT NULL DEFAULT ''");
    let mut view = table_diff("removed", "v");
    view.object_type = Some("view".to_string());
    assert_eq!(drop_object_sql(&view, DatabaseType::Postgres, Some("app"), true), "DROP VIEW IF EXISTS \"app\".\"v\" CASCADE;");
    assert_eq!(drop_object_sql(&table_diff("removed", "t"), DatabaseType::Mysql, None, false), "DROP TABLE IF EXISTS `t`;");
    assert_eq!(trim(" \t\n a b \u{3000}"), "a b");
    assert_eq!(trim("   "), "");
}

#[test]
fn created_and_dropped_objects() {
    let mut created = table_diff("added", "t1");
    created.ddl = Some("CREATE TABLE t1 (id int)".to_string());
    let mut view_only = table_diff("added", "v1");
    view_only.object_type = Some("view".to_string());
    let mut dropped = table_diff("removed", "v2");
    dropped.object_type = Some("view".to_string());
    let unchanged = table_diff("none", "t3");
    let sql = generate_schema_sync_sql(
        &[created, view_only, dropped, unchanged],
        &[],
        &[],
        &[],
        &[],
        DatabaseType::Postgres,
        None,
        true,
    );
    assert_eq!(
        sql,
        [
            "-- Create table: t1",
            "CREATE TABLE t1 (id int);",
            "",
            "-- View exists only in source: v1",
            "-- Source view definition is not available from this driver yet.",
            "",
            "-- Drop view: v2",
            "DROP VIEW IF EXISTS \"v2\" CASCADE;",
        ]
        .join("\n")
    );
}

#[test]
fn renamed_columns_follow_each_products_form() {
    let renamed = |source: ColumnInfo, target: ColumnInfo| {
        let mut d = table_diff("modified", "users");
        d.columns = Some(vec![ColumnDiff {
            diff_type: "renamed".to_string(),
            name: source.name.clone(),
            source: Some(source),
            target: Some(target),
            changes: vec![],
        }]);
        d
    };
    let mut wide = column("full_name", "VARCHAR(128)", None);
    wide.is_nullable = true;
    let narrow = column("name", "varchar(64)", None);

    assert_eq!(
        sync(&[renamed(wide.clone(), narrow.clone())], DatabaseType::Mysql, None),
        "-- Alter table: users\nALTER TABLE `users`\n  CHANGE COLUMN `name` `full_name` VARCHAR(128);"
    );

    let mut upper = column("full_name", "INT", None);
    upper.is_nullable = true;
    assert_eq!(
        sync(&[renamed(upper, column("name", "int", None))], DatabaseType::Postgres, None),
        [
            "-- Alter table: users",
            "ALTER TABLE \"users\"  RENAME COLUMN \"name\" TO \"full_name\";",
            "ALTER TABLE \"users\"  ALTER COLUMN \"full_name\" DROP NOT NULL;",
        ]
        .join("\n")
    );

    assert_eq!(
        sync(&[renamed(wide.clone(), narrow.clone())], DatabaseType::H2, None),
        [
            "-- Alter table: users",
            "ALTER TABLE \"users\"  ALTER COLUMN \"name\" RENAME TO \"full_name\";",
            "ALTER TABLE \"users\"  ALTER COLUMN \"full_name\" SET DATA TYPE VARCHAR(128);",
        ]
        .join("\n")
    );

    assert_eq!(
        sync(&[renamed(wide.clone(), narrow.clone())], DatabaseType::SqlServer, Some("dbo")),
        [
            "-- Alter table: users",
            "ALTER TABLE \"dbo\".\"users\"  EXEC sp_rename '\"dbo\".\"users\".\"name\"', 'full_name', 'COLUMN';;",
        ]
        .join("\n")
    );

    let mut commented = wide.clone();
    commented.comment = Some("who".to_string());
    assert_eq!(
        sync(&[renamed(commented, narrow)], DatabaseType::Sqlite, None),
        [
            "-- Alter table: users",
            "ALTER TABLE \"users\"  RENAME COLUMN \"name\" TO \"full_name\";",
            "",
            "COMMENT ON COLUMN \"users\".\"full_name\" IS 'who';",
        ]
        .join("\n")
    );
}

#[test]
fn changed_columns_outside_mysql_alter_each_property() {
    let mut age = column("age", "bigint", Some("years"));
    age.is_nullable = true;
    age.column_default = Some("0".to_string());
    let mut d = table_diff("modified", "people");
    d.columns = Some(vec![
        ColumnDiff {
            diff_type: "removed".to_string(),
            name: "old".to_string(),
            source: None,
            target: Some(column("old", "int", None)),
            changes: vec![],
        },
        ColumnDiff {
            diff_type: "modified".to_string(),
            name: "age".to_string(),
            source: Some(age),
            target: Some(column("age", "int", None)),
            changes: vec![
                "type: int → bigint".to_string(),
                "nullable: NO → YES".to_string(),
                "default: NULL → 0".to_string(),
                "comment: none → years".to_string(),
            ],
        },
    ]);
    d.source_table_comment = Some(None);
    d.target_table_comment = Some(Some("x".to_string()));
    assert_eq!(
        sync(&[d], DatabaseType::Postgres, None),
        [
            "-- Alter table: people",
            "ALTER TABLE \"people\"  DROP COLUMN \"old\";",
            "ALTER TABLE \"people\"  ALTER COLUMN \"age\" TYPE bigint;",
            "ALTER TABLE \"people\"  ALTER COLUMN \"age\" DROP NOT NULL;",
            "ALTER TABLE \"people\"  ALTER COLUMN \"age\" SET DEFAULT 0;",
            "",
            "COMMENT ON COLUMN \"people\".\"age\" IS 'years';",
            "COMMENT ON TABLE \"people\" IS '';",
        ]
        .join("\n")
    );

    let mut moved = table_diff("modified", "people");
    moved.columns = Some(vec![ColumnDiff {
        diff_type: "modified".to_string(),
        name: "age".to_string(),
        source: Some(column("age", "int", None)),
        target: Some(column("age", "int", None)),
        changes: vec!["order: 2 → 1".to_string()],
    }]);
    assert_eq!(sync(&[moved], DatabaseType::Mysql, None), "");
}

#[test]
fn sqlite_foreign_keys_and_triggers_get_notes() {
    let mut d = table_diff("modified", "orders");
    d.foreign_keys = Some(vec![ForeignKeyDiff {
        diff_type: "added".to_string(),
        name: "fk1".to_string(),
        source: Some(foreign_key(ForeignKeyInfo {
            name: "fk1".to_string(),
            column: String::new(),
            ref_schema: None,
            ref_table: String::new(),
            ref_column: String::new(),
            on_update: None,
            on_delete: None,
        })),
        target: None,
        changes: vec![],
    }]);
    d.triggers = Some(vec![TriggerDiff {
        diff_type: "removed".to_string(),
        name: "trg".to_string(),
        source: None,
        target: None,
        changes: vec![],
    }]);
    assert_eq!(
        sync(&[d], DatabaseType::Sqlite, None),
        [
            "ALTER TABLE \"orders\" ADD CONSTRAINT \"fk1\" FOREIGN KEY (\"user_id\") REFERENCES \"users\" (\"id\");",
            "-- Trigger removed: trg on orders; review trigger definition manually.",
            "",
            "-- SQLite foreign key synchronization may require table rebuild for: orders",
        ]
        .join("\n")
    );
}

#[test]
fn routines_sequences_rules_and_owners_sections() {
    let functions = vec![
        FunctionDiff {
            diff_type: "added".to_string(),
            name: "f".to_string(),
            source: Some(FunctionInfo {
                name: "f".to_string(),
                definition: "() RETURNS int AS $$ SELECT 1 $$ LANGUAGE sql".to_string(),
                function_type: "FUNCTION".to_string(),
                data_type: "int".to_string(),
                arguments: String::new(),
            }),
            target: None,
            changes: vec![],
        },
        FunctionDiff { diff_type: "removed".to_string(), name: "g".to_string(), source: None, target: None, changes: vec![] },
    ];
    let sequences = vec![SequenceDiff {
        diff_type: "modified".to_string(),
        name: "s".to_string(),
        source: Some(SequenceInfo {
            name: "s".to_string(),
            data_type: "bigint".to_string(),
            start_value: "1".to_string(),
            min_value: "1".to_string(),
            max_value: "100".to_string(),
            increment: "2".to_string(),
            cycle: true,
            last_value: None,
        }),
        target: None,
        changes: vec![],
    }];
    let rule = RuleInfo {
        name: "r".to_string(),
        table_name: "t".to_string(),
        definition: "CREATE RULE r AS ON INSERT TO t DO NOTHING".to_string(),
    };
    let rules = vec![RuleDiff { diff_type: "removed".to_string(), name: "r".to_string(), source: Some(rule), target: None, changes: vec![] }];
    let owner = |who: &str| OwnerInfo {
        object_name: "t".to_string(),
        object_type: "MATERIALIZED VIEW".to_string(),
        owner: who.to_string(),
    };
    let owners = vec![OwnerDiff {
        diff_type: "modified".to_string(),
        object_name: "t".to_string(),
        source: Some(owner("alice")),
        target: Some(owner("bob")),
        changes: vec![],
    }];
    let sql = generate_schema_sync_sql(&[], &functions, &sequences, &rules, &owners, DatabaseType::Postgres, None, true);
    assert_eq!(
        sql,
        [
            "-- Functions",
            "-- Create function: f",
            "CREATE OR REPLACE FUNCTION \"f\" () RETURNS int AS $$ SELECT 1 $$ LANGUAGE sql;",
            "-- Drop function: g",
            "DROP FUNCTION IF EXISTS \"g\" CASCADE;",
            "",
            "-- Sequences",
            "-- Alter sequence: s",
            "ALTER SEQUENCE \"s\" AS bigint START WITH 1 INCREMENT BY 2 MINVALUE 1 MAXVALUE 100 CYCLE;",
            "",
            "-- Rules",
            "-- Drop rule: r",
            "DROP RULE IF EXISTS r ON \"t\";",
            "",
            "-- Owners",
            "ALTER TABLE \"t\" OWNER TO alice;",
        ]
        .join("\n")
    );
}

#[test]
fn rollback_script_drops_what_the_plan_creates() {
    let mut created = table_diff("added", "t");
    created.object_type = Some("table".to_string());
    let graph = RollbackGraph::from_forward_diffs(
        &vec![created],
        &vec![],
        &DependencyGraph { nodes: vec![], topological_order: vec![] },
    );
    assert_eq!(generate_rollback_sync_sql(&graph, DatabaseType::Mysql, None, false), "-- Drop table: t\nDROP TABLE IF EXISTS `t`;");
}
