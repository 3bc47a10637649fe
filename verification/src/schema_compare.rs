//! Comparing two schemas table by table.

use vstd::prelude::*;

use crate::schema_diff::{
    column_diffs, diff_columns_with_options, diff_foreign_keys, diff_indexes, diff_names, diff_triggers, fk_changes_fn,
    fk_name, index_changes_fn, index_is_primary, index_name, keyed_diff, last_index, last_position,
    lemma_last_index_bound_pub, lemma_prefix_step, lemma_views_push, names_where, never, or_text, trigger_changes_fn,
    trigger_name, views_of, ItemDiff, TableDiff, TableDiffView, TableSchemaDetail,
};
use crate::schema_types::{clone_opt, opt_text, ColumnInfo, TableInfo};
use crate::text::{lemma_string_views_push, seq_contains, str_contains, str_eq, string_views};

use crate::column_renames::{with_renames, RenameThreshold};

verus! {

/// The names of the tables that are views (`views`) or are not, in order.
pub open spec fn names_of_kind(tables: Seq<TableInfo>, views: bool) -> Seq<Seq<char>>
    decreases tables.len(),
{
    if tables.len() == 0 {
        Seq::empty()
    } else {
        let r = names_of_kind(tables.drop_last(), views);
        if seq_contains(tables.last().table_type@, "VIEW"@) == views {
            r.push(tables.last().name@)
        } else {
            r
        }
    }
}

/// The detail read for table `name` (the last one, if several).
pub open spec fn detail_for(details: Seq<TableSchemaDetail>, name: Seq<char>) -> Option<TableSchemaDetail> {
    match last_index(details.map_values(|d: TableSchemaDetail| d.name@), name) {
        Some(i) => Some(details[i]),
        None => None,
    }
}

/// The DDL of the detail read for table `name`, if any.
pub open spec fn ddl_for(details: Seq<TableSchemaDetail>, name: Seq<char>) -> Option<Seq<char>> {
    match detail_for(details, name) {
        Some(d) => opt_text(d.ddl),
        None => None,
    }
}

/// The comment of table `name` (the last one listed, if several).
pub open spec fn comment_for(tables: Seq<TableInfo>, name: Seq<char>) -> Option<Seq<char>> {
    match last_index(tables.map_values(|t: TableInfo| t.name@), name) {
        Some(i) => opt_text(tables[i].comment),
        None => None,
    }
}

/// A table or view present on one side only.
pub open spec fn one_sided(diff_type: Seq<char>, object_type: Seq<char>, name: Seq<char>, ddl: Option<Seq<char>>, target_ddl: Option<
    Seq<char>,
>) -> TableDiffView {
    TableDiffView {
        diff_type,
        object_type: Some(object_type),
        name,
        columns: None,
        indexes: None,
        foreign_keys: None,
        triggers: None,
        ddl,
        target_ddl,
        source_table_comment: None,
        target_table_comment: None,
        sync_sql: None,
    }
}

/// One entry per name, present on the source side only (`added`) or on the
/// target side only (`removed`).
pub open spec fn one_sided_entries(
    names: Seq<Seq<char>>,
    added: bool,
    object_type: Seq<char>,
    source_details: Seq<TableSchemaDetail>,
    target_details: Seq<TableSchemaDetail>,
) -> Seq<TableDiffView>
    decreases names.len(),
{
    if names.len() == 0 {
        Seq::empty()
    } else {
        let r = one_sided_entries(names.drop_last(), added, object_type, source_details, target_details);
        let n = names.last();
        r.push(
            if added {
                one_sided("added"@, object_type, n, ddl_for(source_details, n), None)
            } else {
                one_sided("removed"@, object_type, n, None, ddl_for(target_details, n))
            },
        )
    }
}

pub open spec fn nonempty<T>(s: Seq<T>) -> Option<Seq<T>> {
    if s.len() > 0 {
        Some(s)
    } else {
        None
    }
}

/// The column differences of a table present on both sides; with a
/// threshold, renamed columns are detected among them.
pub open spec fn table_column_diffs(
    sd: TableSchemaDetail,
    td: TableSchemaDetail,
    ignore_comments: bool,
    compare_column_order: bool,
    column_renames: Option<RenameThreshold>,
) -> Seq<ItemDiff<ColumnInfo>> {
    let cols = column_diffs(sd.columns@, td.columns@, ignore_comments, compare_column_order);
    match column_renames {
        Some(th) => if th.positive {
            with_renames(cols, th)
        } else {
            cols
        },
        None => cols,
    }
}

/// The difference of a table present on both sides, if there is one.
pub open spec fn common_entry(
    name: Seq<char>,
    sd: TableSchemaDetail,
    td: TableSchemaDetail,
    sc: Option<Seq<char>>,
    tc: Option<Seq<char>>,
    ignore_comments: bool,
    compare_column_order: bool,
    column_renames: Option<RenameThreshold>,
) -> Option<TableDiffView> {
    let cols = table_column_diffs(sd, td, ignore_comments, compare_column_order, column_renames);
    let idx = keyed_diff(
        views_of(sd.indexes@),
        views_of(td.indexes@),
        index_name(),
        index_name(),
        index_is_primary(),
        index_changes_fn(),
    );
    let fks = keyed_diff(sd.foreign_keys@, td.foreign_keys@, fk_name(), fk_name(), never(), fk_changes_fn());
    let trg = keyed_diff(sd.triggers@, td.triggers@, trigger_name(), trigger_name(), never(), trigger_changes_fn());
    let comment_changed = !ignore_comments && or_text(sc, ""@) != or_text(tc, ""@);
    if cols.len() > 0 || idx.len() > 0 || fks.len() > 0 || trg.len() > 0 || comment_changed {
        Some(
            TableDiffView {
                diff_type: "modified"@,
                object_type: Some("table"@),
                name,
                columns: nonempty(cols),
                indexes: nonempty(idx),
                foreign_keys: nonempty(fks),
                triggers: nonempty(trg),
                ddl: opt_text(sd.ddl),
                target_ddl: opt_text(td.ddl),
                source_table_comment: if comment_changed {
                    Some(sc)
                } else {
                    None
                },
                target_table_comment: if comment_changed {
                    Some(tc)
                } else {
                    None
                },
                sync_sql: None,
            },
        )
    } else {
        None
    }
}

/// The differences of the tables present on both sides, in source order;
/// tables without a detail on either side are skipped.
pub open spec fn common_entries(
    names: Seq<Seq<char>>,
    source_tables: Seq<TableInfo>,
    target_tables: Seq<TableInfo>,
    source_details: Seq<TableSchemaDetail>,
    target_details: Seq<TableSchemaDetail>,
    ignore_comments: bool,
    compare_column_order: bool,
    column_renames: Option<RenameThreshold>,
) -> Seq<TableDiffView>
    decreases names.len(),
{
    if names.len() == 0 {
        Seq::empty()
    } else {
        let r = common_entries(
            names.drop_last(),
            source_tables,
            target_tables,
            source_details,
            target_details,
            ignore_comments,
            compare_column_order,
            column_renames,
        );
        let n = names.last();
        match (detail_for(source_details, n), detail_for(target_details, n)) {
            (Some(sd), Some(td)) => match common_entry(
                n,
                sd,
                td,
                comment_for(source_tables, n),
                comment_for(target_tables, n),
                ignore_comments,
                compare_column_order,
                column_renames,
            ) {
                Some(e) => r.push(e),
                None => r,
            },
            _ => r,
        }
    }
}

/// All table differences: tables added, tables removed, views added, views
/// removed, then tables changed.
pub open spec fn schema_diffs(
    source_tables: Seq<TableInfo>,
    target_tables: Seq<TableInfo>,
    source_details: Seq<TableSchemaDetail>,
    target_details: Seq<TableSchemaDetail>,
    ignore_comments: bool,
    compare_column_order: bool,
    column_renames: Option<RenameThreshold>,
) -> Seq<TableDiffView> {
    let st = names_of_kind(source_tables, false);
    let tt = names_of_kind(target_tables, false);
    let sv = names_of_kind(source_tables, true);
    let tv = names_of_kind(target_tables, true);
    one_sided_entries(names_where(st, tt, false), true, "table"@, source_details, target_details)
        + one_sided_entries(names_where(tt, st, false), false, "table"@, source_details, target_details)
        + one_sided_entries(names_where(sv, tv, false), true, "view"@, source_details, target_details)
        + one_sided_entries(names_where(tv, sv, false), false, "view"@, source_details, target_details)
        + common_entries(
        names_where(st, tt, true),
        source_tables,
        target_tables,
        source_details,
        target_details,
        ignore_comments,
        compare_column_order,
        column_renames,
    )
}

pub(crate) fn names_of_kind_exec(tables: &Vec<TableInfo>, views: bool) -> (r: Vec<String>)
    ensures
        string_views(r@) == names_of_kind(tables@, views),
{
    let mut r: Vec<String> = Vec::new();
    let mut i: usize = 0;
    while i < tables.len()
        invariant
            i <= tables.len(),
            string_views(r@) == names_of_kind(tables@.subrange(0, i as int), views),
        decreases tables.len() - i,
    {
        proof {
            lemma_prefix_step(tables@, i as int);
        }
        if str_contains(tables[i].table_type.as_str(), "VIEW") == views {
            let n = tables[i].name.clone();
            proof {
                lemma_string_views_push(r@, n);
            }
            r.push(n);
        }
        i = i + 1;
    }
    assert(tables@.subrange(0, tables.len() as int) =~= tables@);
    r
}

fn detail_names(details: &Vec<TableSchemaDetail>) -> (r: Vec<String>)
    ensures
        string_views(r@) == details@.map_values(|d: TableSchemaDetail| d.name@),
{
    let mut r: Vec<String> = Vec::new();
    let mut i: usize = 0;
    while i < details.len()
        invariant
            i <= details.len(),
            r.len() == i,
            forall|k: int| 0 <= k < i ==> (#[trigger] r@[k])@ == details@[k].name@,
        decreases details.len() - i,
    {
        let ghost before = r@;
        r.push(details[i].name.clone());
        assert forall|k: int| 0 <= k < i + 1 implies (#[trigger] r@[k])@ == details@[k].name@ by {
            if k < i {
                assert(r@[k] == before[k]);
            }
        }
        i = i + 1;
    }
    assert(string_views(r@) =~= details@.map_values(|d: TableSchemaDetail| d.name@));
    r
}

fn table_names(tables: &Vec<TableInfo>) -> (r: Vec<String>)
    ensures
        string_views(r@) == tables@.map_values(|t: TableInfo| t.name@),
{
    let mut r: Vec<String> = Vec::new();
    let mut i: usize = 0;
    while i < tables.len()
        invariant
            i <= tables.len(),
            r.len() == i,
            forall|k: int| 0 <= k < i ==> (#[trigger] r@[k])@ == tables@[k].name@,
        decreases tables.len() - i,
    {
        let ghost before = r@;
        r.push(tables[i].name.clone());
        assert forall|k: int| 0 <= k < i + 1 implies (#[trigger] r@[k])@ == tables@[k].name@ by {
            if k < i {
                assert(r@[k] == before[k]);
            }
        }
        i = i + 1;
    }
    assert(string_views(r@) =~= tables@.map_values(|t: TableInfo| t.name@));
    r
}

fn ddl_lookup(details: &Vec<TableSchemaDetail>, names: &Vec<String>, name: &str) -> (r: Option<String>)
    requires
        string_views(names@) == details@.map_values(|d: TableSchemaDetail| d.name@),
    ensures
        opt_text(r) == ddl_for(details@, name@),
{
    let found = last_position(names, name);
    proof {
        lemma_last_index_bound_pub(string_views(names@), name@);
    }
    match found {
        Some(i) => clone_opt(&details[i].ddl),
        None => None,
    }
}

fn comment_lookup(tables: &Vec<TableInfo>, names: &Vec<String>, name: &str) -> (r: Option<String>)
    requires
        string_views(names@) == tables@.map_values(|t: TableInfo| t.name@),
    ensures
        opt_text(r) == comment_for(tables@, name@),
{
    let found = last_position(names, name);
    proof {
        lemma_last_index_bound_pub(string_views(names@), name@);
    }
    match found {
        Some(i) => clone_opt(&tables[i].comment),
        None => None,
    }
}

fn push_one_sided(
    out: &mut Vec<TableDiff>,
    names: &Vec<String>,
    added: bool,
    object_type: &str,
    source_details: &Vec<TableSchemaDetail>,
    source_names: &Vec<String>,
    target_details: &Vec<TableSchemaDetail>,
    target_names: &Vec<String>,
)
    requires
        string_views(source_names@) == source_details@.map_values(|d: TableSchemaDetail| d.name@),
        string_views(target_names@) == target_details@.map_values(|d: TableSchemaDetail| d.name@),
    ensures
        views_of(final(out)@) == views_of(old(out)@) + one_sided_entries(
            string_views(names@),
            added,
            object_type@,
            source_details@,
            target_details@,
        ),
{
    let ghost start = views_of(out@);
    let ghost nv = string_views(names@);
    let mut i: usize = 0;
    while i < names.len()
        invariant
            i <= names.len(),
            nv == string_views(names@),
            string_views(source_names@) == source_details@.map_values(|d: TableSchemaDetail| d.name@),
            string_views(target_names@) == target_details@.map_values(|d: TableSchemaDetail| d.name@),
            views_of(out@) == start + one_sided_entries(
                nv.subrange(0, i as int),
                added,
                object_type@,
                source_details@,
                target_details@,
            ),
        decreases names.len() - i,
    {
        proof {
            lemma_prefix_step(nv, i as int);
        }
        let n = names[i].as_str();
        let d = if added {
            TableDiff {
                diff_type: String::from_str("added"),
                object_type: Some(String::from_str(object_type)),
                name: String::from_str(n),
                columns: None,
                indexes: None,
                foreign_keys: None,
                triggers: None,
                ddl: ddl_lookup(source_details, source_names, n),
                target_ddl: None,
                source_table_comment: None,
                target_table_comment: None,
                sync_sql: None,
            }
        } else {
            TableDiff {
                diff_type: String::from_str("removed"),
                object_type: Some(String::from_str(object_type)),
                name: String::from_str(n),
                columns: None,
                indexes: None,
                foreign_keys: None,
                triggers: None,
                ddl: None,
                target_ddl: ddl_lookup(target_details, target_names, n),
                source_table_comment: None,
                target_table_comment: None,
                sync_sql: None,
            }
        };
        proof {
            lemma_views_push(out@, d);
        }
        out.push(d);
        i = i + 1;
    }
    assert(nv.subrange(0, names.len() as int) =~= nv);
}

fn common_entry_exec(
    name: &str,
    sd: &TableSchemaDetail,
    td: &TableSchemaDetail,
    sc: Option<String>,
    tc: Option<String>,
    ignore_comments: bool,
    compare_column_order: bool,
    column_renames: Option<RenameThreshold>,
) -> (r: Option<TableDiff>)
    ensures
        match r {
            Some(d) => common_entry(
                name@,
                *sd,
                *td,
                opt_text(sc),
                opt_text(tc),
                ignore_comments,
                compare_column_order,
                column_renames,
            ) == Some(d@),
            None => common_entry(
                name@,
                *sd,
                *td,
                opt_text(sc),
                opt_text(tc),
                ignore_comments,
                compare_column_order,
                column_renames,
            ) is None,
        },
{
    let (detect, threshold) = match column_renames {
        Some(th) => (true, th),
        None => (false, RenameThreshold { positive: false, admits_family: false, admits_same: false }),
    };
    let cols = diff_columns_with_options(&sd.columns, &td.columns, ignore_comments, compare_column_order, detect, threshold);
    let idx = diff_indexes(&sd.indexes, &td.indexes);
    let fks = diff_foreign_keys(&sd.foreign_keys, &td.foreign_keys);
    let trg = diff_triggers(&sd.triggers, &td.triggers);
    let sct: &str = match &sc {
        Some(c) => c.as_str(),
        None => "",
    };
    let tct: &str = match &tc {
        Some(c) => c.as_str(),
        None => "",
    };
    proof {
        reveal_strlit("");
        assert(sct@ == or_text(opt_text(sc), ""@));
        assert(tct@ == or_text(opt_text(tc), ""@));
    }
    let comment_changed = !ignore_comments && !str_eq(sct, tct);
    if cols.len() > 0 || idx.len() > 0 || fks.len() > 0 || trg.len() > 0 || comment_changed {
        let columns = if cols.len() > 0 {
            Some(cols)
        } else {
            None
        };
        let indexes = if idx.len() > 0 {
            Some(idx)
        } else {
            None
        };
        let foreign_keys = if fks.len() > 0 {
            Some(fks)
        } else {
            None
        };
        let triggers = if trg.len() > 0 {
            Some(trg)
        } else {
            None
        };
        let (source_table_comment, target_table_comment) = if comment_changed {
            (Some(sc), Some(tc))
        } else {
            (None, None)
        };
        Some(
            TableDiff {
                diff_type: String::from_str("modified"),
                object_type: Some(String::from_str("table")),
                name: String::from_str(name),
                columns,
                indexes,
                foreign_keys,
                triggers,
                ddl: clone_opt(&sd.ddl),
                target_ddl: clone_opt(&td.ddl),
                source_table_comment,
                target_table_comment,
                sync_sql: None,
            },
        )
    } else {
        None
    }
}

/// The differences between two schemas, table by table: tables (not views)
/// present on the source side only, then on the target side only, views on
/// the source side only, views on the target side only, then tables present
/// on both sides that differ in columns, indexes, foreign keys, triggers or
/// (unless ignored) comment.
pub fn diff_schema(
    source_tables: &Vec<TableInfo>,
    target_tables: &Vec<TableInfo>,
    source_details: &Vec<TableSchemaDetail>,
    target_details: &Vec<TableSchemaDetail>,
    ignore_comments: bool,
    compare_column_order: bool,
    column_renames: Option<RenameThreshold>,
) -> (r: Vec<TableDiff>)
    ensures
        views_of(r@) == schema_diffs(
            source_tables@,
            target_tables@,
            source_details@,
            target_details@,
            ignore_comments,
            compare_column_order,
            column_renames,
        ),
{
    let sdn = detail_names(source_details);
    let tdn = detail_names(target_details);
    let stn = table_names(source_tables);
    let ttn = table_names(target_tables);
    let st = names_of_kind_exec(source_tables, false);
    let tt = names_of_kind_exec(target_tables, false);
    let sv = names_of_kind_exec(source_tables, true);
    let tv = names_of_kind_exec(target_tables, true);
    let (added, removed, common) = diff_names(&st, &tt);
    let (added_views, removed_views, _) = diff_names(&sv, &tv);
    let mut result: Vec<TableDiff> = Vec::new();
    assert(views_of(result@) =~= Seq::<TableDiffView>::empty());
    push_one_sided(&mut result, &added, true, "table", source_details, &sdn, target_details, &tdn);
    push_one_sided(&mut result, &removed, false, "table", source_details, &sdn, target_details, &tdn);
    push_one_sided(&mut result, &added_views, true, "view", source_details, &sdn, target_details, &tdn);
    push_one_sided(&mut result, &removed_views, false, "view", source_details, &sdn, target_details, &tdn);
    let ghost before = views_of(result@);
    let ghost cv = string_views(common@);
    let mut i: usize = 0;
    while i < common.len()
        invariant
            i <= common.len(),
            cv == string_views(common@),
            string_views(sdn@) == source_details@.map_values(|d: TableSchemaDetail| d.name@),
            string_views(tdn@) == target_details@.map_values(|d: TableSchemaDetail| d.name@),
            string_views(stn@) == source_tables@.map_values(|t: TableInfo| t.name@),
            string_views(ttn@) == target_tables@.map_values(|t: TableInfo| t.name@),
            views_of(result@) == before + common_entries(
                cv.subrange(0, i as int),
                source_tables@,
                target_tables@,
                source_details@,
                target_details@,
                ignore_comments,
                compare_column_order,
                column_renames,
            ),
        decreases common.len() - i,
    {
        proof {
            lemma_prefix_step(cv, i as int);
        }
        let n = common[i].as_str();
        let sfound = last_position(&sdn, n);
        let tfound = last_position(&tdn, n);
        proof {
            lemma_last_index_bound_pub(string_views(sdn@), n@);
            lemma_last_index_bound_pub(string_views(tdn@), n@);
        }
        match (sfound, tfound) {
            (Some(a), Some(b)) => {
                let sc = comment_lookup(source_tables, &stn, n);
                let tc = comment_lookup(target_tables, &ttn, n);
                match common_entry_exec(
                    n,
                    &source_details[a],
                    &target_details[b],
                    sc,
                    tc,
                    ignore_comments,
                    compare_column_order,
                    column_renames,
                ) {
                    Some(d) => {
                        proof {
                            lemma_views_push(result@, d);
                        }
                        result.push(d);
                    },
                    None => {},
                }
            },
            _ => {},
        }
        i = i + 1;
    }
    assert(cv.subrange(0, common.len() as int) =~= cv);
    result
}

} // verus!
