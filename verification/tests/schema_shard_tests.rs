use dbx_core::schema_compare::diff_schema;
use dbx_core::schema_diff::{TableDiff, TableSchemaDetail};
use dbx_core::schema_prepare::{prepare_schema_diff, SchemaDiffPreparationOptions};
use dbx_core::schema_shard::{plan_shards, shard_diff, sort_and_dedup, ShardBy, ShardStrategy};
use dbx_core::schema_types::{ColumnInfo, TableInfo};

fn table(name: &str, schema: Option<&str>) -> TableInfo {
    TableInfo {
        name: name.to_string(),
        table_type: "BASE TABLE".to_string(),
        comment: None,
        parent_schema: schema.map(str::to_string),
        parent_name: None,
    }
}

fn view(name: &str) -> TableInfo {
    TableInfo { name: name.to_string(), table_type: "VIEW".to_string(), comment: None, parent_schema: None, parent_name: None }
}

fn detail(name: &str, data_type: &str) -> TableSchemaDetail {
    TableSchemaDetail {
        name: name.to_string(),
        columns: vec![ColumnInfo {
            name: "x".to_string(),
            data_type: data_type.to_string(),
            is_nullable: true,
            column_default: None,
            is_primary_key: false,
            extra: None,
            comment: None,
            numeric_precision: None,
            numeric_scale: None,
            character_maximum_length: None,
        }],
        indexes: vec![],
        foreign_keys: vec![],
        triggers: vec![],
        ddl: None,
    }
}

fn options() -> SchemaDiffPreparationOptions {
    SchemaDiffPreparationOptions {
        source_tables: vec![table("b", None), table("a", None), table("c", None)],
        target_tables: vec![table("a", None), table("c", None), table("d", None)],
        source_details: vec![detail("a", "int"), detail("b", "int"), detail("c", "int")],
        target_details: vec![detail("a", "bigint"), detail("c", "int"), detail("d", "int")],
        ..Default::default()
    }
}

fn kinds(diffs: &[TableDiff]) -> Vec<(String, String)> {
    diffs.iter().map(|d| (d.name.clone(), d.diff_type.clone())).collect()
}

fn pair(name: &str, kind: &str) -> (String, String) {
    (name.to_string(), kind.to_string())
}

#[test]
fn round_robin_shards_compare_source_tables_and_sort_by_name() {
    let strategy = ShardStrategy { shard_count: 2, shard_by: ShardBy::RoundRobin };
    let diffs = shard_diff(&options(), &strategy);
    assert_eq!(kinds(&diffs), vec![pair("a", "modified"), pair("b", "added")]);
}

#[test]
fn a_single_shard_is_the_whole_comparison() {
    let strategy = ShardStrategy { shard_count: 1, shard_by: ShardBy::Table };
    let diffs = shard_diff(&options(), &strategy);
    assert_eq!(kinds(&diffs), vec![pair("b", "added"), pair("d", "removed"), pair("a", "modified")]);
    let none = ShardStrategy { shard_count: 0, shard_by: ShardBy::Table };
    assert_eq!(kinds(&shard_diff(&options(), &none)).len(), 3);
}

#[test]
fn shards_are_planned_in_turn_or_by_schema() {
    let tables = vec![view("v"), table("t1", Some("s1")), table("t2", None), table("t3", Some("s1"))];
    let by_table = plan_shards(&tables, ShardBy::Table, 2);
    assert_eq!(by_table, vec![vec!["t1".to_string(), "t3".to_string()], vec!["t2".to_string(), "v".to_string()]]);
    let by_schema = plan_shards(&tables, ShardBy::Schema, 2);
    assert_eq!(
        by_schema,
        vec![vec!["v".to_string(), "t2".to_string()], vec!["t1".to_string(), "t3".to_string()]]
    );
    let three = plan_shards(&tables, ShardBy::Schema, 3);
    assert_eq!(three[2], Vec::<String>::new());
}

#[test]
fn merging_sorts_stably_and_drops_repeats() {
    let d = |name: &str, kind: &str| TableDiff {
        diff_type: kind.to_string(),
        object_type: None,
        name: name.to_string(),
        columns: None,
        indexes: None,
        foreign_keys: None,
        triggers: None,
        ddl: None,
        target_ddl: None,
        source_table_comment: None,
        target_table_comment: None,
        sync_sql: None,
    };
    let merged = sort_and_dedup(vec![d("b", "added"), d("a", "removed"), d("b", "added"), d("B", "added"), d("a", "added"), d("a", "removed")]);
    assert_eq!(
        kinds(&merged),
        vec![pair("B", "added"), pair("a", "removed"), pair("a", "added"), pair("a", "removed"), pair("b", "added")]
    );
}

#[test]
fn prepared_comparison_uses_the_shard_strategy() {
    let sharded = options().with_shard_strategy(ShardStrategy { shard_count: 2, shard_by: ShardBy::Table });
    let result = prepare_schema_diff(sharded, vec![]);
    assert_eq!(kinds(&result.diffs), vec![pair("a", "modified"), pair("b", "added")]);
}

#[test]
fn a_schema_compared_with_itself_has_no_differences() {
    let o = options();
    let same = SchemaDiffPreparationOptions {
        source_tables: o.source_tables.clone(),
        target_tables: o.source_tables.clone(),
        source_details: vec![detail("a", "int"), detail("b", "int"), detail("c", "int")],
        target_details: vec![detail("a", "int"), detail("b", "int"), detail("c", "int")],
        compare_column_order: true,
        ..Default::default()
    };
    let result = prepare_schema_diff(same, vec![]);
    assert!(result.diffs.is_empty());
    assert!(result.sync_sql.is_empty());
}

#[test]
fn sharded_entries_are_entries_of_the_whole_comparison() {
    let o = options();
    let whole = diff_schema(&o.source_tables, &o.target_tables, &o.source_details, &o.target_details, false, false, None);
    let whole_kinds = kinds(&whole);
    for count in 2..5 {
        for by in [ShardBy::RoundRobin, ShardBy::Table, ShardBy::Schema] {
            let diffs = shard_diff(&o, &ShardStrategy { shard_count: count, shard_by: by });
            for k in kinds(&diffs) {
                assert!(whole_kinds.contains(&k), "{k:?} is not in the whole comparison");
                assert!(o.source_tables.iter().any(|t| t.name == k.0), "{k:?} names no source table");
            }
        }
    }
}
