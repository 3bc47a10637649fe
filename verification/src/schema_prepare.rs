//! Preparing a schema comparison: the table differences (with renames applied
//! where asked), the differences of routines, sequences, rules, owners and
//! grants, the synchronisation scripts and, on request, the rollback plan.

use vstd::prelude::*;

use crate::schema_compare::{diff_schema, schema_diffs};
use crate::schema_diff::{
    diff_functions, diff_owners, diff_permissions, diff_rules, diff_sequences, function_changes_fn, function_key,
    function_name, keyed_diff, lemma_prefix_step, lemma_views_push, never, no_changes, owner_diffs, permission_entries,
    permission_key, permission_object, rule_changes_fn, rule_name, sequence_changes_fn, sequence_name, views_of,
    FunctionDiff, OwnerDiff, PermissionDiff, RuleDiff, SequenceDiff, TableDiff, TableDiffView, TableSchemaDetail,
};
use crate::schema_graph::{graph_of, DependencyGraph};
use crate::schema_patterns::BatchPattern;
use crate::schema_schedule::ResourceConstraint;
use crate::schema_shard::{shard_diff, sharded_diffs, ShardStrategy};
use crate::schema_rollback::{consistency_issues, forward_node, node_tables, rollback_node, RenamePair, RollbackGraph};
use crate::schema_sql::{generate_permission_sync_sql, opt_str, permission_lines};
use crate::schema_sync::{
    generate_rollback_sync_sql, generate_schema_sync_sql, lines_of, push_table_lines, section, sync_lines,
    table_lines_fn, trim, trimmed,
};
use crate::schema_types::{
    clone_opt, opt_text, DatabaseType, FunctionInfo, OwnerInfo, PermissionInfo, RuleInfo, SequenceInfo, TableInfo,
};
use crate::text::{join_seq, join_strings, str_eq, string_views};

use crate::column_renames::RenameThreshold;

verus! {

/// What a schema comparison is asked to compare, and how.
#[derive(Debug)]
pub struct SchemaDiffPreparationOptions {
    pub source_tables: Vec<TableInfo>,
    pub target_tables: Vec<TableInfo>,
    pub source_details: Vec<TableSchemaDetail>,
    pub target_details: Vec<TableSchemaDetail>,
    pub source_functions: Vec<FunctionInfo>,
    pub target_functions: Vec<FunctionInfo>,
    pub source_sequences: Vec<SequenceInfo>,
    pub target_sequences: Vec<SequenceInfo>,
    pub source_rules: Vec<RuleInfo>,
    pub target_rules: Vec<RuleInfo>,
    pub source_owners: Vec<OwnerInfo>,
    pub target_owners: Vec<OwnerInfo>,
    pub database_type: DatabaseType,
    pub target_schema: Option<String>,
    pub ignore_comments: bool,
    pub cascade_delete: bool,
    pub compare_column_order: bool,
    pub detect_renames: bool,
    pub rename_threshold: RenameThreshold,
    pub enable_rollback: bool,
    pub source_permissions: Vec<PermissionInfo>,
    pub target_permissions: Vec<PermissionInfo>,
    pub batch_patterns: Vec<BatchPattern>,
    pub shard_strategy: Option<ShardStrategy>,
    pub resource_constraint: Option<ResourceConstraint>,
}

impl Default for SchemaDiffPreparationOptions {
    /// Nothing to compare, SQLite, every option off.
    fn default() -> (r: Self)
        ensures
            r.source_tables@.len() == 0,
            r.target_tables@.len() == 0,
            r.source_details@.len() == 0,
            r.target_details@.len() == 0,
            r.source_functions@.len() == 0,
            r.target_functions@.len() == 0,
            r.source_sequences@.len() == 0,
            r.target_sequences@.len() == 0,
            r.source_rules@.len() == 0,
            r.target_rules@.len() == 0,
            r.source_owners@.len() == 0,
            r.target_owners@.len() == 0,
            r.database_type == DatabaseType::Sqlite,
            r.target_schema is None,
            !r.ignore_comments,
            !r.cascade_delete,
            !r.compare_column_order,
            !r.detect_renames,
            r.rename_threshold == (RenameThreshold { positive: true, admits_family: true, admits_same: true }),
            !r.enable_rollback,
            r.source_permissions@.len() == 0,
            r.target_permissions@.len() == 0,
            r.batch_patterns@.len() == 0,
            r.shard_strategy is None,
            r.resource_constraint is None,
    {
        SchemaDiffPreparationOptions {
            source_tables: Vec::new(),
            target_tables: Vec::new(),
            source_details: Vec::new(),
            target_details: Vec::new(),
            source_functions: Vec::new(),
            target_functions: Vec::new(),
            source_sequences: Vec::new(),
            target_sequences: Vec::new(),
            source_rules: Vec::new(),
            target_rules: Vec::new(),
            source_owners: Vec::new(),
            target_owners: Vec::new(),
            database_type: DatabaseType::Sqlite,
            target_schema: None,
            ignore_comments: false,
            cascade_delete: false,
            compare_column_order: false,
            detect_renames: false,
            rename_threshold: RenameThreshold { positive: true, admits_family: true, admits_same: true },
            enable_rollback: false,
            source_permissions: Vec::new(),
            target_permissions: Vec::new(),
            batch_patterns: Vec::new(),
            shard_strategy: None,
            resource_constraint: None,
        }
    }
}

impl SchemaDiffPreparationOptions {
    /// The same options with the rollback plan asked for or not.
    pub fn with_rollback(self, enable: bool) -> (r: Self)
        ensures
            r == (SchemaDiffPreparationOptions { enable_rollback: enable, ..self }),
    {
        let mut o = self;
        o.enable_rollback = enable;
        o
    }

    /// The same options with the grants of both sides.
    pub fn with_permissions(self, source: Vec<PermissionInfo>, target: Vec<PermissionInfo>) -> (r: Self)
        ensures
            r == (SchemaDiffPreparationOptions { source_permissions: source, target_permissions: target, ..self }),
    {
        let mut o = self;
        o.source_permissions = source;
        o.target_permissions = target;
        o
    }

    /// The same options with these naming patterns.
    pub fn with_batch_patterns(self, patterns: Vec<BatchPattern>) -> (r: Self)
        ensures
            r == (SchemaDiffPreparationOptions { batch_patterns: patterns, ..self }),
    {
        let mut o = self;
        o.batch_patterns = patterns;
        o
    }

    /// The same options comparing in shards as `strategy` asks.
    pub fn with_shard_strategy(self, strategy: ShardStrategy) -> (r: Self)
        ensures
            r == (SchemaDiffPreparationOptions { shard_strategy: Some(strategy), ..self }),
    {
        let mut o = self;
        o.shard_strategy = Some(strategy);
        o
    }

    /// The same options with this resource constraint.
    pub fn with_resource_constraint(self, constraint: ResourceConstraint) -> (r: Self)
        ensures
            r == (SchemaDiffPreparationOptions { resource_constraint: Some(constraint), ..self }),
    {
        let mut o = self;
        o.resource_constraint = Some(constraint);
        o
    }
}

/// The outcome of a schema comparison.
#[derive(Debug)]
pub struct SchemaDiffPreparation {
    pub diffs: Vec<TableDiff>,
    pub function_diffs: Vec<FunctionDiff>,
    pub sequence_diffs: Vec<SequenceDiff>,
    pub rule_diffs: Vec<RuleDiff>,
    pub owner_diffs: Vec<OwnerDiff>,
    pub sync_sql: String,
    pub rollback_sync_sql: Option<String>,
    pub renames: Vec<RenamePair>,
    pub rollback_graph: Option<RollbackGraph>,
    pub permission_diffs: Vec<PermissionDiff>,
    pub permission_sync_sql: Option<String>,
    pub dependency_graph: Option<DependencyGraph>,
}

/// The old names of the renamed tables, in order.
pub open spec fn removed_names(renames: Seq<RenamePair>) -> Seq<Seq<char>> {
    renames.map_values(|r: RenamePair| r.removed_name@)
}

/// The new names of the renamed tables, in order.
pub open spec fn added_names(renames: Seq<RenamePair>) -> Seq<Seq<char>> {
    renames.map_values(|r: RenamePair| r.added_name@)
}

/// Whether a rename stands for this difference: a removed table that a
/// rename takes its name from, or an added table that a rename gives its name.
pub open spec fn replaced_by_rename(d: TableDiffView, removed: Seq<Seq<char>>, added: Seq<Seq<char>>) -> bool {
    (d.diff_type == "removed"@ && removed.contains(d.name)) || (d.diff_type == "added"@ && added.contains(d.name))
}

/// The differences that no rename stands for, in order.
pub open spec fn kept_diffs(diffs: Seq<TableDiffView>, removed: Seq<Seq<char>>, added: Seq<Seq<char>>) -> Seq<
    TableDiffView,
>
    decreases diffs.len(),
{
    if diffs.len() == 0 {
        Seq::empty()
    } else {
        let rest = kept_diffs(diffs.drop_last(), removed, added);
        if replaced_by_rename(diffs.last(), removed, added) {
            rest
        } else {
            rest.push(diffs.last())
        }
    }
}

/// The DDL of the first detail named `name`, if that detail has one.
pub open spec fn first_ddl(details: Seq<TableSchemaDetail>, name: Seq<char>) -> Option<Seq<char>>
    decreases details.len(),
{
    if details.len() == 0 {
        None
    } else if details[0].name@ == name {
        opt_text(details[0].ddl)
    } else {
        first_ddl(details.drop_first(), name)
    }
}

/// The difference recording that table `from` was renamed `to`, with the DDL
/// of both sides.
pub open spec fn renamed_entry(
    r: RenamePair,
    source_details: Seq<TableSchemaDetail>,
    target_details: Seq<TableSchemaDetail>,
) -> TableDiffView {
    TableDiffView {
        diff_type: "renamed"@,
        object_type: Some("table"@),
        name: r.removed_name@,
        columns: None,
        indexes: None,
        foreign_keys: None,
        triggers: None,
        ddl: first_ddl(source_details, r.removed_name@),
        target_ddl: first_ddl(target_details, r.added_name@),
        source_table_comment: None,
        target_table_comment: None,
        sync_sql: None,
    }
}

/// The differences with renames applied: those no rename stands for, then a
/// `renamed` entry per rename, in order.
pub open spec fn renamed_diffs(
    diffs: Seq<TableDiffView>,
    renames: Seq<RenamePair>,
    source_details: Seq<TableSchemaDetail>,
    target_details: Seq<TableSchemaDetail>,
) -> Seq<TableDiffView> {
    kept_diffs(diffs, removed_names(renames), added_names(renames)) + renames.map_values(
        |r: RenamePair| renamed_entry(r, source_details, target_details),
    )
}

/// The column-rename threshold a comparison applies: its own where renames
/// are detected, none otherwise.
pub open spec fn column_renames_of(o: SchemaDiffPreparationOptions) -> Option<RenameThreshold> {
    if o.detect_renames {
        Some(o.rename_threshold)
    } else {
        None
    }
}

/// The table differences a comparison plans, before scripts are attached:
/// those of the whole comparison, or of the sharded one where a shard
/// strategy is given, with renames applied where renames are detected.
pub open spec fn planned_diffs(o: SchemaDiffPreparationOptions, renames: Seq<RenamePair>) -> Seq<TableDiffView> {
    let base = match o.shard_strategy {
        Some(st) => sharded_diffs(
            o.source_tables@,
            o.target_tables@,
            o.source_details@,
            o.target_details@,
            o.ignore_comments,
            o.compare_column_order,
            column_renames_of(o),
            st,
        ),
        None => schema_diffs(
            o.source_tables@,
            o.target_tables@,
            o.source_details@,
            o.target_details@,
            o.ignore_comments,
            o.compare_column_order,
            column_renames_of(o),
        ),
    };
    if o.detect_renames {
        renamed_diffs(base, renames, o.source_details@, o.target_details@)
    } else {
        base
    }
}

/// The renames a comparison applies: those given when renames are detected,
/// none otherwise.
pub open spec fn applied_renames(o: SchemaDiffPreparationOptions, renames: Seq<RenamePair>) -> Seq<RenamePair> {
    if o.detect_renames {
        renames
    } else {
        Seq::empty()
    }
}

/// The synchronisation script of one table difference alone.
pub open spec fn table_sync_text(d: TableDiffView, db: DatabaseType, schema: Option<Seq<char>>, cascade: bool) -> Seq<
    char,
> {
    trimmed(
        join_seq(
            sync_lines(seq![d], Seq::empty(), Seq::empty(), Seq::empty(), Seq::empty(), db, schema, cascade),
            "\n"@,
        ),
    )
}

/// A table difference carrying its own script, when that script is not empty.
pub open spec fn with_sync_sql(d: TableDiffView, db: DatabaseType, schema: Option<Seq<char>>, cascade: bool) -> TableDiffView {
    let s = table_sync_text(d, db, schema, cascade);
    TableDiffView {
        sync_sql: if s.len() == 0 {
            None
        } else {
            Some(s)
        },
        ..d
    }
}

/// What a rollback plan built from `diffs` holds once checked: a forward
/// node and an inverted node per difference, in order, and the issues found.
pub open spec fn checked_plan(
    g: RollbackGraph,
    diffs: Seq<TableDiffView>,
    renames: Seq<RenamePair>,
    order: Seq<Seq<char>>,
) -> bool {
    &&& views_of(g.forward_nodes@) == diffs.map_values(
        |d: TableDiffView| forward_node(d, removed_names(renames), added_names(renames), order),
    )
    &&& views_of(g.rollback_nodes@) == diffs.map_values(|d: TableDiffView| rollback_node(d, order))
    &&& string_views(g.consistency_issues@) == consistency_issues(
        node_tables(views_of(g.forward_nodes@)),
        node_tables(views_of(g.rollback_nodes@)),
    )
    &&& g.is_consistent == (g.consistency_issues@.len() == 0)
}

fn contains_name(renames: &Vec<RenamePair>, name: &str, removed_side: bool) -> (r: bool)
    ensures
        r == (if removed_side {
            removed_names(renames@)
        } else {
            added_names(renames@)
        }).contains(name@),
{
    let ghost names = if removed_side {
        removed_names(renames@)
    } else {
        added_names(renames@)
    };
    let mut i: usize = 0;
    while i < renames.len()
        invariant
            i <= renames.len(),
            names == (if removed_side {
                removed_names(renames@)
            } else {
                added_names(renames@)
            }),
            forall|k: int| 0 <= k < i ==> names[k] != name@,
        decreases renames.len() - i,
    {
        let r = &renames[i];
        let n = if removed_side {
            r.removed_name.as_str()
        } else {
            r.added_name.as_str()
        };
        assert(names[i as int] == n@);
        if str_eq(n, name) {
            return true;
        }
        i = i + 1;
    }
    false
}

fn first_ddl_exec(details: &Vec<TableSchemaDetail>, name: &str) -> (r: Option<String>)
    ensures
        opt_text(r) == first_ddl(details@, name@),
{
    let mut i: usize = 0;
    assert(details@.subrange(0, details@.len() as int) =~= details@);
    while i < details.len()
        invariant
            i <= details.len(),
            first_ddl(details@, name@) == first_ddl(details@.subrange(i as int, details@.len() as int), name@),
        decreases details.len() - i,
    {
        let ghost rest = details@.subrange(i as int, details@.len() as int);
        assert(rest[0] == details@[i as int]);
        assert(rest.drop_first() =~= details@.subrange(i + 1, details@.len() as int));
        if str_eq(details[i].name.as_str(), name) {
            return clone_opt(&details[i].ddl);
        }
        i = i + 1;
    }
    assert(details@.subrange(i as int, details@.len() as int).len() == 0);
    None
}

fn apply_renames(
    diffs: &Vec<TableDiff>,
    renames: &Vec<RenamePair>,
    source_details: &Vec<TableSchemaDetail>,
    target_details: &Vec<TableSchemaDetail>,
) -> (r: Vec<TableDiff>)
    ensures
        views_of(r@) == renamed_diffs(views_of(diffs@), renames@, source_details@, target_details@),
{
    let ghost dv = views_of(diffs@);
    let ghost removed = removed_names(renames@);
    let ghost added = added_names(renames@);
    let mut out: Vec<TableDiff> = Vec::new();
    let mut i: usize = 0;
    while i < diffs.len()
        invariant
            i <= diffs.len(),
            dv == views_of(diffs@),
            removed == removed_names(renames@),
            added == added_names(renames@),
            views_of(out@) == kept_diffs(dv.subrange(0, i as int), removed, added),
        decreases diffs.len() - i,
    {
        proof {
            lemma_prefix_step(dv, i as int);
        }
        let d = &diffs[i];
        assert(dv[i as int] == d@);
        let gone = (str_eq(d.diff_type.as_str(), "removed") && contains_name(renames, d.name.as_str(), true)) || (
        str_eq(d.diff_type.as_str(), "added") && contains_name(renames, d.name.as_str(), false));
        if !gone {
            let c = d.clone();
            proof {
                lemma_views_push(out@, c);
            }
            out.push(c);
        }
        i = i + 1;
    }
    assert(dv.subrange(0, diffs.len() as int) =~= dv);
    let ghost kept = views_of(out@);
    let ghost f = |r: RenamePair| renamed_entry(r, source_details@, target_details@);
    let mut j: usize = 0;
    while j < renames.len()
        invariant
            j <= renames.len(),
            f == (|r: RenamePair| renamed_entry(r, source_details@, target_details@)),
            views_of(out@) == kept + renames@.subrange(0, j as int).map_values(f),
        decreases renames.len() - j,
    {
        let r = &renames[j];
        let entry = TableDiff {
            diff_type: String::from_str("renamed"),
            object_type: Some(String::from_str("table")),
            name: r.removed_name.clone(),
            columns: None,
            indexes: None,
            foreign_keys: None,
            triggers: None,
            ddl: first_ddl_exec(source_details, r.removed_name.as_str()),
            target_ddl: first_ddl_exec(target_details, r.added_name.as_str()),
            source_table_comment: None,
            target_table_comment: None,
            sync_sql: None,
        };
        assert(entry@ == f(renames@[j as int]));
        proof {
            lemma_views_push(out@, entry);
        }
        out.push(entry);
        assert(renames@.subrange(0, j + 1).map_values(f) =~= renames@.subrange(0, j as int).map_values(f).push(
            f(renames@[j as int]),
        ));
        j = j + 1;
    }
    assert(renames@.subrange(0, renames.len() as int) =~= renames@);
    out
}

/// Builds the synchronisation script of one table difference alone.
fn table_sync_sql(d: &TableDiff, db: DatabaseType, schema: Option<&str>, cascade: bool) -> (r: String)
    ensures
        r@ == table_sync_text(d@, db, opt_str(schema), cascade),
{
    let mut lines: Vec<String> = Vec::new();
    push_table_lines(&mut lines, d, db, schema, cascade);
    proof {
        let f = table_lines_fn(db, opt_str(schema), cascade);
        let one = seq![d@];
        assert(one.drop_last() =~= Seq::<TableDiffView>::empty());
        assert(lines_of(one, f) == lines_of(Seq::<TableDiffView>::empty(), f) + f(d@));
        assert(string_views(lines@) =~= sync_lines(
            one,
            Seq::empty(),
            Seq::empty(),
            Seq::empty(),
            Seq::empty(),
            db,
            opt_str(schema),
            cascade,
        ));
    }
    let joined = join_strings(lines.as_slice(), "\n");
    trim(joined.as_str())
}

fn attach_sync_sql(diffs: &Vec<TableDiff>, db: DatabaseType, schema: Option<&str>, cascade: bool) -> (r: Vec<TableDiff>)
    ensures
        views_of(r@) == views_of(diffs@).map_values(
            |d: TableDiffView| with_sync_sql(d, db, opt_str(schema), cascade),
        ),
{
    let ghost f = |d: TableDiffView| with_sync_sql(d, db, opt_str(schema), cascade);
    let ghost dv = views_of(diffs@);
    let mut out: Vec<TableDiff> = Vec::new();
    let mut i: usize = 0;
    while i < diffs.len()
        invariant
            i <= diffs.len(),
            dv == views_of(diffs@),
            f == (|d: TableDiffView| with_sync_sql(d, db, opt_str(schema), cascade)),
            views_of(out@) == dv.subrange(0, i as int).map_values(f),
        decreases diffs.len() - i,
    {
        let d = &diffs[i];
        assert(dv[i as int] == d@);
        let sql = table_sync_sql(d, db, schema, cascade);
        let mut e = d.clone();
        e.sync_sql = if sql.as_str().unicode_len() == 0 {
            None
        } else {
            Some(sql)
        };
        assert(e@ == f(d@));
        proof {
            lemma_views_push(out@, e);
        }
        out.push(e);
        assert(dv.subrange(0, i + 1).map_values(f) =~= dv.subrange(0, i as int).map_values(f).push(f(dv[i as int])));
        i = i + 1;
    }
    assert(dv.subrange(0, diffs.len() as int) =~= dv);
    out
}


fn schema_str(o: &Option<String>) -> (r: Option<&str>)
    ensures
        opt_str(r) == opt_text(*o),
{
    match o {
        Some(s) => Some(s.as_str()),
        None => None,
    }
}

fn checked_rollback_plan(diffs: &Vec<TableDiff>, renames: &Vec<RenamePair>, dep_graph: &DependencyGraph) -> (g:
    RollbackGraph)
    ensures
        checked_plan(g, views_of(diffs@), renames@, string_views(dep_graph.topological_order@)),
{
    let mut g = RollbackGraph::from_forward_diffs(diffs, renames, dep_graph);
    let ghost order = string_views(dep_graph.topological_order@);
    let ghost dv = views_of(diffs@);
    assert(views_of(g.forward_nodes@) =~= dv.map_values(
        |d: TableDiffView| forward_node(d, removed_names(renames@), added_names(renames@), order),
    ));
    assert(views_of(g.rollback_nodes@) =~= dv.map_values(|d: TableDiffView| rollback_node(d, order)));
    let _ = g.validate_consistency();
    g
}

/// Compares two schemas as `options` asks. The table differences are those of
/// the comparison (made in shards where a shard strategy is given), with
/// `renames` (the table renames that similarity scoring chose) applied when
/// renames are detected, each carrying its own script
/// when that is not empty; routines, sequences, rules and owners are compared
/// too; the script covers all of these. The rollback plan and its script are
/// made when asked for; grants are compared when either side has some.
pub fn prepare_schema_diff(options: SchemaDiffPreparationOptions, renames: Vec<RenamePair>) -> (r: SchemaDiffPreparation)
    ensures
        r.dependency_graph matches Some(g) && graph_of(g, options.source_details@, options.source_tables@),
        r.renames@ == applied_renames(options, renames@),
        views_of(r.diffs@) == planned_diffs(options, renames@).map_values(
            |d: TableDiffView|
                with_sync_sql(d, options.database_type, opt_text(options.target_schema), options.cascade_delete),
        ),
        views_of(r.function_diffs@) == keyed_diff(
            options.source_functions@,
            options.target_functions@,
            function_key(),
            function_name(),
            never(),
            function_changes_fn(),
        ),
        views_of(r.sequence_diffs@) == keyed_diff(
            options.source_sequences@,
            options.target_sequences@,
            sequence_name(),
            sequence_name(),
            never(),
            sequence_changes_fn(),
        ),
        views_of(r.rule_diffs@) == keyed_diff(
            options.source_rules@,
            options.target_rules@,
            rule_name(),
            rule_name(),
            never(),
            rule_changes_fn(),
        ),
        views_of(r.owner_diffs@) == owner_diffs(options.source_owners@, options.target_owners@),
        r.sync_sql@ == trimmed(
            join_seq(
                sync_lines(
                    views_of(r.diffs@),
                    views_of(r.function_diffs@),
                    views_of(r.sequence_diffs@),
                    views_of(r.rule_diffs@),
                    views_of(r.owner_diffs@),
                    options.database_type,
                    opt_text(options.target_schema),
                    options.cascade_delete,
                ),
                "\n"@,
            ),
        ),
        r.rollback_graph is Some <==> options.enable_rollback,
        match (r.rollback_graph, r.dependency_graph) {
            (Some(g), Some(dg)) => checked_plan(
                g,
                planned_diffs(options, renames@),
                applied_renames(options, renames@),
                string_views(dg.topological_order@),
            ),
            _ => true,
        },
        opt_text(r.rollback_sync_sql) == match r.rollback_graph {
            Some(g) => Some(
                trimmed(
                    join_seq(
                        sync_lines(
                            node_tables(views_of(g.rollback_nodes@)),
                            Seq::empty(),
                            Seq::empty(),
                            Seq::empty(),
                            Seq::empty(),
                            options.database_type,
                            opt_text(options.target_schema),
                            options.cascade_delete,
                        ),
                        "\n"@,
                    ),
                ),
            ),
            None => None,
        },
        views_of(r.permission_diffs@) == if options.source_permissions@.len() > 0
            || options.target_permissions@.len() > 0 {
            permission_entries(
                keyed_diff(
                    options.source_permissions@,
                    options.target_permissions@,
                    permission_key(),
                    permission_object(),
                    never(),
                    no_changes(),
                ),
            )
        } else {
            Seq::empty()
        },
        opt_text(r.permission_sync_sql) == if r.permission_diffs@.len() > 0 {
            Some(join_seq(permission_lines(views_of(r.permission_diffs@), options.database_type, opt_text(options.target_schema)), "\n"@))
        } else {
            None
        },
{
    let schema = schema_str(&options.target_schema);
    let db = options.database_type;
    let cascade = options.cascade_delete;
    let dep_graph = DependencyGraph::build(&options.source_details, &options.source_tables);
    let base = match &options.shard_strategy {
        Some(strategy) => shard_diff(&options, strategy),
        None => diff_schema(
            &options.source_tables,
            &options.target_tables,
            &options.source_details,
            &options.target_details,
            options.ignore_comments,
            options.compare_column_order,
            if options.detect_renames {
                Some(options.rename_threshold)
            } else {
                None
            },
        ),
    };
    let applied: Vec<RenamePair> = if options.detect_renames {
        renames
    } else {
        Vec::new()
    };
    assert(applied@ =~= applied_renames(options, renames@));
    let planned = if options.detect_renames {
        apply_renames(&base, &applied, &options.source_details, &options.target_details)
    } else {
        base
    };
    assert(views_of(planned@) == planned_diffs(options, renames@));
    let rollback_graph = if options.enable_rollback {
        Some(checked_rollback_plan(&planned, &applied, &dep_graph))
    } else {
        None
    };
    let function_diffs = diff_functions(&options.source_functions, &options.target_functions);
    let sequence_diffs = diff_sequences(&options.source_sequences, &options.target_sequences);
    let rule_diffs = diff_rules(&options.source_rules, &options.target_rules);
    let owner_diffs = diff_owners(&options.source_owners, &options.target_owners);
    let diffs = attach_sync_sql(&planned, db, schema, cascade);
    let sync_sql = generate_schema_sync_sql(
        diffs.as_slice(),
        function_diffs.as_slice(),
        sequence_diffs.as_slice(),
        rule_diffs.as_slice(),
        owner_diffs.as_slice(),
        db,
        schema,
        cascade,
    );
    let rollback_sync_sql = match &rollback_graph {
        Some(g) => Some(generate_rollback_sync_sql(g, db, schema, cascade)),
        None => None,
    };
    let permission_diffs = if options.source_permissions.len() > 0 || options.target_permissions.len() > 0 {
        diff_permissions(&options.source_permissions, &options.target_permissions)
    } else {
        let v: Vec<PermissionDiff> = Vec::new();
        assert(views_of(v@) =~= Seq::empty());
        v
    };
    let permission_sync_sql = if permission_diffs.len() > 0 {
        Some(generate_permission_sync_sql(&permission_diffs, db, schema))
    } else {
        None
    };
    SchemaDiffPreparation {
        diffs,
        function_diffs,
        sequence_diffs,
        rule_diffs,
        owner_diffs,
        sync_sql,
        rollback_sync_sql,
        renames: applied,
        rollback_graph,
        permission_diffs,
        permission_sync_sql,
        dependency_graph: Some(dep_graph),
    }
}
} // verus!
