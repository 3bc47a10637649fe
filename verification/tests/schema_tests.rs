use dbx_core::ast_filter::AstTransmitFilter;
use dbx_core::column_renames::RenameThreshold;
use dbx_core::schema_diff::{
    diff_columns, diff_columns_with_options, diff_foreign_keys, diff_functions, diff_indexes, diff_names, diff_owners,
    diff_permissions, diff_rules, diff_sequences, diff_triggers, normalize_definition, ColumnDiff, PermissionDiff,
    TableDiff, TableSchemaDetail,
};
use dbx_core::schema_graph::{dependency_order, DependencyGraph};
use dbx_core::schema_prepare::SchemaDiffPreparationOptions;
use dbx_core::schema_rollback::{RenamePair, RollbackGraph};
use dbx_core::schema_schedule::{AdaptiveScheduler, ResourceConstraint};
use dbx_core::schema_sql::{
    add_foreign_key_sql, column_comment_sql, comment_literal, create_index_sql, drop_foreign_key_sql, drop_index_sql,
    generate_permission_sync_sql, qualified_name, quote_id, table_comment_sql,
};
use dbx_core::schema_types::{
    ColumnInfo, DatabaseType, ForeignKeyInfo, FunctionInfo, IndexInfo, OwnerInfo, PermissionInfo, RuleInfo,
    SequenceInfo, TableInfo, TriggerInfo,
};

fn threshold(t: f64) -> RenameThreshold {
    RenameThreshold { positive: t > 0.0, admits_family: 0.8 >= t, admits_same: 1.0 >= t }
}

fn column(name: &str, data_type: &str, comment: Option<&str>) -> ColumnInfo {
    ColumnInfo {
        name: name.to_string(),
        data_type: data_type.to_string(),
        is_nullable: false,
        column_default: None,
        is_primary_key: false,
        extra: None,
        comment: comment.map(str::to_string),
        numeric_precision: None,
        numeric_scale: None,
        character_maximum_length: None,
    }
}

fn index(overrides: IndexInfo) -> IndexInfo {
    IndexInfo {
        name: if overrides.name.is_empty() { "idx_users_email".to_string() } else { overrides.name },
        columns: if overrides.columns.is_empty() { vec!["email".to_string()] } else { overrides.columns },
        is_unique: overrides.is_unique,
        is_primary: overrides.is_primary,
        filter: overrides.filter,
        index_type: overrides.index_type,
        included_columns: overrides.included_columns,
        comment: overrides.comment,
    }
}

fn foreign_key(overrides: ForeignKeyInfo) -> ForeignKeyInfo {
    ForeignKeyInfo {
        name: if overrides.name.is_empty() { "orders_user_id_fk".to_string() } else { overrides.name },
        column: if overrides.column.is_empty() { "user_id".to_string() } else { overrides.column },
        ref_schema: overrides.ref_schema,
        ref_table: if overrides.ref_table.is_empty() { "users".to_string() } else { overrides.ref_table },
        ref_column: if overrides.ref_column.is_empty() { "id".to_string() } else { overrides.ref_column },
        on_update: overrides.on_update,
        on_delete: overrides.on_delete,
    }
}

fn table(name: &str) -> TableInfo {
    TableInfo {
        name: name.to_string(),
        table_type: "BASE TABLE".to_string(),
        comment: None,
        parent_schema: None,
        parent_name: None,
    }
}

fn fk_to(name: &str, column: &str, ref_table: &str) -> ForeignKeyInfo {
    ForeignKeyInfo {
        name: name.to_string(),
        column: column.to_string(),
        ref_schema: None,
        ref_table: ref_table.to_string(),
        ref_column: "id".to_string(),
        on_update: None,
        on_delete: None,
    }
}

fn detail(name: &str, fks: Vec<ForeignKeyInfo>) -> TableSchemaDetail {
    TableSchemaDetail {
        name: name.to_string(),
        columns: vec![],
        indexes: vec![],
        foreign_keys: fks,
        triggers: vec![],
        ddl: None,
    }
}

fn make_diff(diff_type: &str, name: &str) -> TableDiff {
    TableDiff {
        diff_type: diff_type.to_string(),
        object_type: Some("table".to_string()),
        name: name.to_string(),
        columns: None,
        indexes: None,
        foreign_keys: None,
        triggers: None,
        ddl: None,
        target_ddl: None,
        source_table_comment: None,
        target_table_comment: None,
        sync_sql: None,
    }
}

fn empty_graph() -> DependencyGraph {
    DependencyGraph { nodes: vec![], topological_order: vec![] }
}

#[test]
fn ignores_column_order_when_option_is_disabled() {
    let diffs = diff_columns_with_options(
        &vec![column("id", "int", None), column("name", "varchar(64)", None), column("status", "varchar(16)", None)],
        &vec![column("status", "varchar(16)", None), column("id", "int", None), column("name", "varchar(64)", None)],
        false,
        false,
        false,
        threshold(0.5),
    );
    assert!(diffs.is_empty());
}

#[test]
fn detects_column_order_when_option_is_enabled() {
    let diffs = diff_columns_with_options(
        &vec![column("id", "int", None), column("name", "varchar(64)", None), column("status", "varchar(16)", None)],
        &vec![column("status", "varchar(16)", None), column("id", "int", None), column("name", "varchar(64)", None)],
        false,
        true,
        false,
        threshold(0.5),
    );
    assert_eq!(diffs.len(), 3);
    assert_eq!(diffs[0].changes, vec!["order: 2 → 1"]);
}

#[test]
fn detects_modified_indexes_not_only_added_or_removed_indexes() {
    let diffs = diff_indexes(
        &vec![index(IndexInfo {
            name: "idx_orders_status".to_string(),
            columns: vec!["status".to_string(), "created_at".to_string()],
            is_unique: false,
            is_primary: false,
            filter: None,
            index_type: None,
            included_columns: None,
            comment: None,
        })],
        &vec![index(IndexInfo {
            name: "idx_orders_status".to_string(),
            columns: vec!["status".to_string()],
            is_unique: true,
            is_primary: false,
            filter: None,
            index_type: None,
            included_columns: None,
            comment: None,
        })],
    );
    assert_eq!(diffs.len(), 1);
    assert_eq!(diffs[0].diff_type, "modified");
    assert_eq!(diffs[0].changes, vec!["unique: YES → NO", "columns: status → status, created_at"]);
}

#[test]
fn detects_foreign_key_additions_removals_and_target_changes() {
    let diffs = diff_foreign_keys(
        &vec![
            foreign_key(ForeignKeyInfo {
                name: "orders_user_id_fk".to_string(),
                column: String::new(),
                ref_schema: None,
                ref_table: String::new(),
                ref_column: String::new(),
                on_update: None,
                on_delete: None,
            }),
            foreign_key(ForeignKeyInfo {
                name: "orders_account_id_fk".to_string(),
                column: "account_id".to_string(),
                ref_schema: None,
                ref_table: "accounts".to_string(),
                ref_column: String::new(),
                on_update: None,
                on_delete: None,
            }),
        ],
        &vec![
            foreign_key(ForeignKeyInfo {
                name: "orders_user_id_fk".to_string(),
                column: String::new(),
                ref_schema: None,
                ref_table: "members".to_string(),
                ref_column: String::new(),
                on_update: None,
                on_delete: None,
            }),
            foreign_key(ForeignKeyInfo {
                name: "orders_region_id_fk".to_string(),
                column: "region_id".to_string(),
                ref_schema: None,
                ref_table: "regions".to_string(),
                ref_column: String::new(),
                on_update: None,
                on_delete: None,
            }),
        ],
    );
    let summary: Vec<_> = diffs.iter().map(|diff| (diff.diff_type.as_str(), diff.name.as_str())).collect();
    assert_eq!(
        summary,
        vec![("modified", "orders_user_id_fk"), ("added", "orders_account_id_fk"), ("removed", "orders_region_id_fk"),]
    );
}

#[test]
fn dependency_graph_builds_dag_from_foreign_keys() {
    let details = vec![detail("orders", vec![fk_to("fk_orders_users", "user_id", "users")]), detail("users", vec![])];
    let tables = vec![table("orders"), table("users")];
    let graph = DependencyGraph::build(&details, &tables);
    assert_eq!(graph.nodes.len(), 2);
    assert!(graph.node("orders").unwrap().depends_on.contains(&"users".to_string()));
    assert_eq!(graph.node("orders").unwrap().depends_on.len(), 1);
    assert_eq!(graph.node("users").unwrap().depends_on.len(), 0);
}

#[test]
fn dependency_graph_topological_sort_drop_order() {
    let details = vec![
        detail("order_items", vec![fk_to("fk_items_orders", "order_id", "orders")]),
        detail("orders", vec![fk_to("fk_orders_users", "user_id", "users")]),
        detail("users", vec![]),
    ];
    let tables = vec![table("order_items"), table("orders"), table("users")];
    let graph = DependencyGraph::build(&details, &tables);
    let drop_order = graph.drop_order();
    let di = drop_order.iter().position(|n| n == "order_items").unwrap();
    let oi = drop_order.iter().position(|n| n == "orders").unwrap();
    assert!(di < oi, "order_items should be dropped before orders");
}

#[test]
fn rollback_graph_add_becomes_drop() {
    let diffs = vec![make_diff("added", "new_table")];
    let graph = RollbackGraph::from_forward_diffs(&diffs, &vec![], &empty_graph());
    assert_eq!(graph.forward_nodes.len(), 1);
    assert_eq!(graph.rollback_nodes.len(), 1);
    assert_eq!(graph.forward_nodes[0].table_diff.diff_type, "added");
    assert_eq!(graph.rollback_nodes[0].table_diff.diff_type, "removed");
}

#[test]
fn rollback_graph_remove_becomes_add() {
    let diffs = vec![make_diff("removed", "old_table")];
    let graph = RollbackGraph::from_forward_diffs(&diffs, &vec![], &empty_graph());
    assert_eq!(graph.rollback_nodes[0].table_diff.diff_type, "added");
    assert_eq!(graph.rollback_nodes[0].table_diff.ddl, None);
}

#[test]
fn rollback_graph_modified_stays_modified_swapped() {
    let source_col = column("name", "varchar(100)", None);
    let target_col = column("name", "varchar(50)", None);
    let mut diff = make_diff("modified", "users");
    diff.columns = Some(vec![ColumnDiff {
        diff_type: "modified".to_string(),
        name: "name".to_string(),
        source: Some(source_col.clone()),
        target: Some(target_col.clone()),
        changes: vec!["type: varchar(50) → varchar(100)".to_string()],
    }]);
    let graph = RollbackGraph::from_forward_diffs(&vec![diff], &vec![], &empty_graph());
    let rollback = &graph.rollback_nodes[0];
    assert_eq!(rollback.table_diff.diff_type, "modified");
    let rb_cols = rollback.table_diff.columns.as_ref().unwrap();
    assert_eq!(rb_cols[0].diff_type, "modified");
    assert_eq!(rb_cols[0].source.as_ref().unwrap().data_type, "varchar(50)");
    assert_eq!(rb_cols[0].target.as_ref().unwrap().data_type, "varchar(100)");
    assert_eq!(rb_cols[0].changes, vec!["varchar(100) → type: varchar(50)"]);
}

#[test]
fn rollback_consistency_validation() {
    let diffs = vec![make_diff("added", "t1"), make_diff("removed", "t2")];
    let mut graph = RollbackGraph::from_forward_diffs(&diffs, &vec![], &empty_graph());
    assert!(graph.validate_consistency());
    assert!(graph.consistency_issues.is_empty());
}

#[test]
fn diff_permissions_detects_added_and_removed() {
    let source = vec![PermissionInfo {
        grantee: "app_user".to_string(),
        object_type: "TABLE".to_string(),
        object_name: "orders".to_string(),
        privilege: "SELECT".to_string(),
        is_grantable: false,
    }];
    let target = vec![PermissionInfo {
        grantee: "app_user".to_string(),
        object_type: "TABLE".to_string(),
        object_name: "orders".to_string(),
        privilege: "INSERT".to_string(),
        is_grantable: false,
    }];
    let diffs = diff_permissions(&source, &target);
    assert_eq!(diffs.len(), 2);
    assert!(diffs.iter().any(|d| d.diff_type == "added"));
    assert!(diffs.iter().any(|d| d.diff_type == "removed"));
}

#[test]
fn generate_permission_sql_mysql() {
    let diffs = vec![PermissionDiff {
        diff_type: "added".to_string(),
        grantee: "app_user".to_string(),
        object_name: "orders".to_string(),
        privilege: "SELECT".to_string(),
        source: Some(PermissionInfo {
            grantee: "app_user".to_string(),
            object_type: "TABLE".to_string(),
            object_name: "orders".to_string(),
            privilege: "SELECT".to_string(),
            is_grantable: true,
        }),
        target: None,
    }];
    let sql = generate_permission_sync_sql(&diffs, DatabaseType::Mysql, Some("mydb"));
    assert!(sql.contains("GRANT SELECT ON `mydb`.`orders` TO 'app_user' WITH GRANT OPTION"));
}

#[test]
fn generate_permission_sql_postgres_revoke() {
    let diffs = vec![PermissionDiff {
        diff_type: "removed".to_string(),
        grantee: "old_user".to_string(),
        object_name: "users".to_string(),
        privilege: "INSERT".to_string(),
        source: None,
        target: Some(PermissionInfo {
            grantee: "old_user".to_string(),
            object_type: "TABLE".to_string(),
            object_name: "users".to_string(),
            privilege: "INSERT".to_string(),
            is_grantable: false,
        }),
    }];
    let sql = generate_permission_sync_sql(&diffs, DatabaseType::Postgres, Some("public"));
    assert!(sql.contains("REVOKE INSERT ON TABLE \"public\".\"users\" FROM \"old_user\""));
}

#[test]
fn adaptive_scheduler_optimal_batch_size() {
    let constraint = ResourceConstraint::default();
    let scheduler = AdaptiveScheduler::new(constraint, 400);
    let batch = scheduler.optimal_batch_size();
    assert!(batch > 0);
    assert!(batch <= 50);
}

#[test]
fn filter_options_removes_dangerous_functions() {
    let opts = SchemaDiffPreparationOptions {
        source_functions: vec![
            FunctionInfo {
                name: "f1".into(),
                definition: "CREATE FUNCTION f1() RETURNS INT ...".into(),
                function_type: "FUNCTION".into(),
                data_type: "int".into(),
                arguments: "".into(),
            },
            FunctionInfo {
                name: "t1".into(),
                definition: "TABLE t1".into(),
                function_type: "TABLE".into(),
                data_type: "".into(),
                arguments: "".into(),
            },
        ],
        source_tables: vec![],
        target_tables: vec![],
        source_details: vec![],
        target_details: vec![],
        target_functions: vec![],
        source_sequences: vec![],
        target_sequences: vec![],
        source_rules: vec![],
        target_rules: vec![],
        source_owners: vec![],
        target_owners: vec![],
        database_type: DatabaseType::Mysql,
        target_schema: None,
        ignore_comments: false,
        cascade_delete: false,
        compare_column_order: false,
        ..Default::default()
    };

    let filtered = AstTransmitFilter::filter_diff_preparation_options(opts, "mysql");
    assert_eq!(filtered.source_functions.len(), 1);
    assert_eq!(filtered.source_functions[0].name, "t1");
}

#[test]
fn retained_functions_keep_their_order() {
    let f = |name: &str, definition: &str| FunctionInfo {
        name: name.into(),
        definition: definition.into(),
        function_type: "FUNCTION".into(),
        data_type: "int".into(),
        arguments: "".into(),
    };
    let kept = AstTransmitFilter::retain_safe_functions(vec![
        f("a", "select 1"),
        f("b", "begin select 1; end"),
        f("c", "language sql"),
        f("d", "RETURN 2"),
    ]);
    let names: Vec<&str> = kept.iter().map(|x| x.name.as_str()).collect();
    assert_eq!(names, vec!["a", "d"]);
}

// ---- further scenarios ----

#[test]
fn column_diff_reports_each_change_kind() {
    let mut src = column("c", "VARCHAR(10)", Some("new"));
    src.is_nullable = true;
    src.column_default = Some("'x'".to_string());
    let tgt = column("c", "varchar(10)", Some("old"));
    let diffs = diff_columns(&vec![src.clone(), column("added_col", "int", None)], &vec![tgt, column("gone", "int", None)]);
    assert_eq!(diffs.len(), 3);
    assert_eq!(diffs[0].diff_type, "modified");
    assert_eq!(diffs[0].changes, vec!["nullable: NO → YES", "default: NULL → 'x'", "comment: old → new"]);
    assert_eq!(diffs[1].diff_type, "added");
    assert_eq!(diffs[2].diff_type, "removed");
    assert_eq!(diffs[2].name, "gone");
    let ignored = diff_columns_with_options(&vec![column("c", "int", Some("a"))], &vec![column("c", "int", Some("b"))], true, false, false, threshold(0.5));
    assert!(ignored.is_empty());
}

#[test]
fn index_diff_skips_primary_keys_and_reports_details() {
    let mut pk = index(IndexInfo {
        name: "pk".to_string(),
        columns: vec![],
        is_unique: true,
        is_primary: true,
        filter: None,
        index_type: None,
        included_columns: None,
        comment: None,
    });
    pk.columns = vec!["id".to_string()];
    let src = index(IndexInfo {
        name: "i".to_string(),
        columns: vec!["a".to_string()],
        is_unique: false,
        is_primary: false,
        filter: Some("a > 0".to_string()),
        index_type: Some("btree".to_string()),
        included_columns: Some(vec!["b".to_string()]),
        comment: None,
    });
    let tgt = index(IndexInfo {
        name: "i".to_string(),
        columns: vec!["a".to_string()],
        is_unique: false,
        is_primary: false,
        filter: None,
        index_type: None,
        included_columns: None,
        comment: None,
    });
    let diffs = diff_indexes(&vec![pk, src], &vec![tgt]);
    assert_eq!(diffs.len(), 1);
    assert_eq!(diffs[0].changes, vec!["type: default → btree", "filter: none → a > 0", "include: none → b"]);
}

#[test]
fn trigger_rule_sequence_owner_diffs() {
    let t1 = TriggerInfo { name: "t".to_string(), event: "INSERT".to_string(), timing: "BEFORE".to_string() };
    let t2 = TriggerInfo { name: "t".to_string(), event: "UPDATE".to_string(), timing: "BEFORE".to_string() };
    let d = diff_triggers(&vec![t1], &vec![t2]);
    assert_eq!(d[0].changes, vec!["event: UPDATE → INSERT"]);

    let r1 = RuleInfo { name: "r".to_string(), table_name: "t".to_string(), definition: "a".to_string() };
    let r2 = RuleInfo { name: "r".to_string(), table_name: "t".to_string(), definition: "b".to_string() };
    assert_eq!(diff_rules(&vec![r1], &vec![r2])[0].changes, vec!["definition changed"]);

    let s1 = SequenceInfo {
        name: "s".to_string(),
        data_type: "bigint".to_string(),
        start_value: "1".to_string(),
        min_value: "1".to_string(),
        max_value: "100".to_string(),
        increment: "1".to_string(),
        cycle: true,
        last_value: Some("5".to_string()),
    };
    let mut s2 = s1.clone();
    s2.cycle = false;
    s2.last_value = None;
    assert_eq!(diff_sequences(&vec![s1], &vec![s2])[0].changes, vec!["cycle: false → true"]);

    let o1 = OwnerInfo { object_name: "t".to_string(), object_type: "TABLE".to_string(), owner: "alice".to_string() };
    let o2 = OwnerInfo { object_name: "t".to_string(), object_type: "TABLE".to_string(), owner: "bob".to_string() };
    let o3 = OwnerInfo { object_name: "only_source".to_string(), object_type: "TABLE".to_string(), owner: "x".to_string() };
    let od = diff_owners(&vec![o1, o3], &vec![o2]);
    assert_eq!(od.len(), 1);
    assert_eq!(od[0].changes, vec!["owner: bob → alice"]);
}

#[test]
fn function_diff_normalizes_and_tells_overloads_apart() {
    let f = |args: &str, def: &str| FunctionInfo {
        name: "f".to_string(),
        definition: def.to_string(),
        function_type: "FUNCTION".to_string(),
        data_type: "int".to_string(),
        arguments: args.to_string(),
    };
    assert!(diff_functions(&vec![f("a int", "SELECT  1\r\n  FROM t")], &vec![f("a int", "SELECT 1\nFROM t")]).is_empty());
    let d = diff_functions(&vec![f("a int", "x")], &vec![f("b int", "x")]);
    assert_eq!(d.len(), 2);
    assert_eq!(d[0].diff_type, "added");
    assert_eq!(d[1].diff_type, "removed");
    assert_eq!(normalize_definition("  a \t b\r\n\nc  d "), "a b\n\nc d");
}

#[test]
fn name_lists_split_three_ways() {
    let s = vec!["a".to_string(), "b".to_string(), "c".to_string()];
    let t = vec!["c".to_string(), "d".to_string()];
    let (added, removed, common) = diff_names(&s, &t);
    assert_eq!(added, vec!["a", "b"]);
    assert_eq!(removed, vec!["d"]);
    assert_eq!(common, vec!["c"]);
}

#[test]
fn sql_helpers_quote_and_qualify() {
    assert_eq!(quote_id("a`b", DatabaseType::Mysql), "`a``b`");
    assert_eq!(quote_id("a\"b", DatabaseType::Postgres), "\"a\"\"b\"");
    assert_eq!(qualified_name("t", DatabaseType::Postgres, Some("s")), "\"s\".\"t\"");
    assert_eq!(comment_literal("it's"), "'it''s'");
    assert_eq!(drop_index_sql("t", "i", DatabaseType::Mysql, None), "DROP INDEX `i` ON `t`;");
    assert_eq!(drop_index_sql("t", "i", DatabaseType::Postgres, Some("s")), "DROP INDEX IF EXISTS \"s\".\"i\";");
    assert_eq!(drop_foreign_key_sql("t", "f", DatabaseType::Mysql, None), "ALTER TABLE `t` DROP FOREIGN KEY `f`;");
    assert_eq!(
        add_foreign_key_sql("orders", &fk_to("fk", "user_id", "users"), DatabaseType::Postgres, None),
        "ALTER TABLE \"orders\" ADD CONSTRAINT \"fk\" FOREIGN KEY (\"user_id\") REFERENCES \"users\" (\"id\");"
    );
    assert_eq!(table_comment_sql("users", "用户表", DatabaseType::Mysql, None), "ALTER TABLE `users` COMMENT = '用户表';");
    assert_eq!(
        column_comment_sql("t", "c", "x", DatabaseType::Postgres, None),
        "COMMENT ON COLUMN \"t\".\"c\" IS 'x';"
    );
}

#[test]
fn create_index_sql_per_dialect() {
    let idx = IndexInfo {
        name: "idx_orders_status".to_string(),
        columns: vec!["status".to_string()],
        is_unique: false,
        is_primary: false,
        filter: None,
        index_type: None,
        included_columns: None,
        comment: None,
    };
    assert_eq!(
        create_index_sql("orders", &idx, DatabaseType::Postgres, Some("sales")),
        "CREATE INDEX \"idx_orders_status\" ON \"sales\".\"orders\" (\"status\");"
    );
    let mut idx2 = idx.clone();
    idx2.is_unique = true;
    idx2.index_type = Some("BTREE".to_string());
    idx2.comment = Some("c".to_string());
    assert_eq!(
        create_index_sql("orders", &idx2, DatabaseType::Mysql, None),
        "CREATE UNIQUE INDEX `idx_orders_status` USING BTREE ON `orders` (`status`) COMMENT 'c';"
    );
}

#[test]
fn graph_order_with_cycle_lists_every_table_once() {
    let details = vec![
        detail("a", vec![fk_to("f1", "b_id", "b")]),
        detail("b", vec![fk_to("f2", "a_id", "a")]),
        detail("c", vec![]),
    ];
    let mut tables = vec![table("a"), table("b"), table("c")];
    tables.push(TableInfo {
        name: "v".to_string(),
        table_type: "VIEW".to_string(),
        comment: None,
        parent_schema: None,
        parent_name: None,
    });
    let graph = DependencyGraph::build(&details, &tables);
    assert_eq!(graph.topological_order, vec!["c", "a", "b"]);
    assert_eq!(graph.build_order(), vec!["c", "a", "b"]);
    assert_eq!(graph.drop_order(), vec!["b", "a", "c"]);
    assert_eq!(graph.node("a").unwrap().depended_by, vec!["b"]);
    assert!(graph.node("v").is_none());
    let order = dependency_order(3, &vec![vec![1], vec![], vec![0]], &vec![vec![2], vec![0], vec![]]);
    assert_eq!(order, vec![1, 0, 2]);
}

#[test]
fn rollback_inverts_renames_and_reports_mismatches() {
    assert_eq!(RollbackGraph::invert_change_string("a → b"), "b → a");
    assert_eq!(RollbackGraph::invert_change_string("a → b → c"), "a → b → c");
    assert_eq!(RollbackGraph::invert_change_string("definition changed"), "definition changed");
    assert_eq!(RollbackGraph::invert_diff_type("none"), "modified");
    let renames = vec![RenamePair { removed_name: "old".to_string(), added_name: "new".to_string() }];
    let graph = RollbackGraph::from_forward_diffs(
        &vec![make_diff("added", "new"), make_diff("removed", "old")],
        &renames,
        &DependencyGraph { nodes: vec![], topological_order: vec!["old".to_string()] },
    );
    assert_eq!(graph.forward_nodes[0].rename_source.as_deref(), Some("old"));
    assert_eq!(graph.forward_nodes[1].rename_target.as_deref(), Some("new"));
    assert_eq!(graph.forward_nodes[1].dependency_order, 0);
    assert_eq!(graph.forward_nodes[0].dependency_order, usize::MAX);
    let mut bad = RollbackGraph::from_forward_diffs(&vec![make_diff("none", "t")], &vec![], &empty_graph());
    assert!(!bad.validate_consistency());
    assert_eq!(
        bad.consistency_issues,
        vec![
            "No rollback entry for forward none: t".to_string(),
            "Forward∘Rollback mismatch for t: forward=none, rollback∘rollback=modified".to_string()
        ]
    );
}

#[test]
fn detects_column_rename_with_same_type() {
    let source = vec![
        column("id", "int", None),
        column("name2", "varchar(120)", None),
        column("del_flag", "tinyint", None),
        column("create_at", "datetime", None),
    ];
    let target = vec![column("id", "int", None), column("name", "varchar(120)", None), column("del_flag", "tinyint", None)];
    let diffs = diff_columns_with_options(&source, &target, false, false, true, threshold(0.5));
    let renamed: Vec<_> = diffs.iter().filter(|d| d.diff_type == "renamed").collect();
    let added: Vec<_> = diffs.iter().filter(|d| d.diff_type == "added").collect();
    let removed: Vec<_> = diffs.iter().filter(|d| d.diff_type == "removed").collect();
    assert_eq!(renamed.len(), 1, "should detect one renamed column");
    assert_eq!(renamed[0].name, "name2");
    assert_eq!(renamed[0].changes, vec!["name → name2"]);
    assert_eq!(added.len(), 1, "should have one truly added column (create_at)");
    assert_eq!(added[0].name, "create_at");
    assert!(removed.is_empty(), "should have no removed columns");
}

#[test]
fn detects_column_rename_with_compatible_type() {
    let source = vec![column("col_a", "varchar(64)", None), column("col_b", "int", None)];
    let target = vec![column("col_a_old", "varchar(100)", None), column("col_b", "int", None)];
    let diffs = diff_columns_with_options(&source, &target, false, false, true, threshold(0.5));
    let renamed: Vec<_> = diffs.iter().filter(|d| d.diff_type == "renamed").collect();
    assert_eq!(renamed.len(), 1, "should detect rename across varchar family");
    assert_eq!(renamed[0].changes, vec!["col_a_old → col_a"]);
}

#[test]
fn no_rename_detection_when_disabled() {
    let source = vec![column("id", "int", None), column("name2", "varchar(120)", None), column("create_at", "datetime", None)];
    let target = vec![column("id", "int", None), column("name", "varchar(120)", None)];
    let diffs = diff_columns_with_options(&source, &target, false, false, false, threshold(0.5));
    let renamed: Vec<_> = diffs.iter().filter(|d| d.diff_type == "renamed").collect();
    let added: Vec<_> = diffs.iter().filter(|d| d.diff_type == "added").collect();
    let removed: Vec<_> = diffs.iter().filter(|d| d.diff_type == "removed").collect();
    assert!(renamed.is_empty(), "should not detect renames when disabled");
    assert_eq!(added.len(), 2);
    assert_eq!(removed.len(), 1);
}

#[test]
fn rename_not_detected_with_unrelated_types() {
    let source = vec![column("col_a", "varchar(120)", None), column("col_b", "int", None)];
    let target = vec![column("col_old", "int", None), column("col_b", "int", None)];
    let diffs = diff_columns_with_options(&source, &target, false, false, true, threshold(0.5));
    let renamed: Vec<_> = diffs.iter().filter(|d| d.diff_type == "renamed").collect();
    assert!(renamed.is_empty(), "should not rename across unrelated types");
}

#[test]
fn rename_with_rollback_graph_inversion() {
    let source = vec![column("id", "int", None), column("new_name", "varchar(120)", None)];
    let target = vec![column("id", "int", None), column("old_name", "varchar(120)", None)];
    let diffs = diff_columns_with_options(&source, &target, false, false, true, threshold(0.5));
    let inverted = RollbackGraph::invert_columns(&diffs);
    let renamed_inv: Vec<_> = inverted.iter().filter(|d| d.diff_type == "renamed").collect();
    assert_eq!(renamed_inv.len(), 1, "inverted rename should exist");
    assert_eq!(renamed_inv[0].name, "old_name");
    assert_eq!(renamed_inv[0].changes, vec!["new_name → old_name"]);
}

#[test]
fn column_rename_generates_change_column_sql_for_mysql() {
    let source = vec![
        column("id", "int", None),
        column("name2", "varchar(120)", None),
        column("del_flag", "tinyint", None),
        column("create_at", "datetime", None),
    ];
    let target = vec![column("id", "int", None), column("name", "varchar(120)", None), column("del_flag", "tinyint", None)];
    let diffs = diff_columns_with_options(&source, &target, false, false, true, threshold(0.5));
    let table_diff = TableDiff {
        diff_type: "modified".to_string(),
        object_type: Some("table".to_string()),
        name: "tb_user".to_string(),
        columns: Some(diffs),
        indexes: None,
        foreign_keys: None,
        triggers: None,
        ddl: None,
        target_ddl: None,
        source_table_comment: None,
        target_table_comment: None,
        sync_sql: None,
    };
    let sql = dbx_core::schema_sync::generate_schema_sync_sql(&[table_diff], &[], &[], &[], &[], DatabaseType::Mysql, None, false);
    assert!(sql.contains("CHANGE COLUMN `name`"), "should generate CHANGE COLUMN for rename: {sql}");
    assert!(sql.contains("ADD COLUMN `create_at`"), "should generate ADD COLUMN for new column: {sql}");
    assert!(!sql.contains("DROP COLUMN"), "should not DROP COLUMN: {sql}");
}

#[test]
fn rename_scores_prefer_same_nullability_and_respect_threshold() {
    let mut nullable = column("b_new", "varchar(10)", None);
    nullable.is_nullable = true;
    let source = vec![nullable, column("a_new", "text", None)];
    let target = vec![column("old", "varchar(20)", None)];
    let diffs = diff_columns_with_options(&source, &target, false, false, true, threshold(0.5));
    let renamed: Vec<_> = diffs.iter().filter(|d| d.diff_type == "renamed").collect();
    assert_eq!(renamed.len(), 1);
    assert_eq!(renamed[0].changes, vec!["old → b_new"]);
    let high = diff_columns_with_options(&source, &target, false, false, true, threshold(0.9));
    assert_eq!(high.iter().filter(|d| d.diff_type == "renamed").count(), 1);
    let strict = diff_columns_with_options(&source, &target, false, false, true, threshold(1.5));
    assert!(strict.iter().all(|d| d.diff_type != "renamed"));
    let off = diff_columns_with_options(&source, &target, false, false, true, threshold(0.0));
    assert!(off.iter().all(|d| d.diff_type != "renamed"));
    assert_eq!(dbx_core::column_renames::base_type_of("  VARCHAR (12) "), "varchar");
    assert_eq!(dbx_core::column_renames::type_similarity_of("INT", "integer"), 100);
    assert_eq!(dbx_core::column_renames::type_similarity_of("bigint", "smallint(2)"), 80);
    assert_eq!(dbx_core::column_renames::type_similarity_of("int", "text"), 0);
}

#[test]
fn adaptive_scheduler_shard_count() {
    let constraint = ResourceConstraint::default();
    let scheduler = AdaptiveScheduler::new(constraint, 200);
    let count = scheduler.recommended_shard_count();
    assert!(count >= 1);
    assert!(count <= 4);
}

#[test]
fn shard_count_rounds_up_and_is_capped() {
    let default = ResourceConstraint::default();
    assert_eq!(AdaptiveScheduler::new(default, 200).recommended_shard_count(), 4);
    assert_eq!(AdaptiveScheduler::new(default, 0).recommended_shard_count(), 1);
    let wide = ResourceConstraint { max_concurrent_connections: 20, ..ResourceConstraint::default() };
    assert_eq!(AdaptiveScheduler::new(wide, 201).recommended_shard_count(), 20);
    let ten = ResourceConstraint { max_concurrent_connections: 10, ..ResourceConstraint::default() };
    assert_eq!(AdaptiveScheduler::new(ten, 201).recommended_shard_count(), 10);
    let no_batch = ResourceConstraint { max_tables_per_batch: 0, ..ResourceConstraint::default() };
    assert_eq!(AdaptiveScheduler::new(no_batch, 7).recommended_shard_count(), 4);
    assert_eq!(AdaptiveScheduler::new(no_batch, 0).recommended_shard_count(), 1);
}

#[test]
fn normalized_definitions_keep_lines_and_are_stable() {
    let raw = "CREATE  FUNCTION f()\r\n\tRETURNS   int\n\n  AS $$ SELECT 1 $$  ";
    let once = normalize_definition(raw);
    assert_eq!(once, "CREATE FUNCTION f()\nRETURNS int\n\nAS $$ SELECT 1 $$");
    assert_eq!(normalize_definition(&once), once);
    assert_eq!(once.matches('\n').count(), raw.matches('\n').count());
}
