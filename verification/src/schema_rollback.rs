//! Rollback plans: every forward change paired with the change that undoes
//! it, and a check that the pairing is consistent.

use vstd::prelude::*;

use crate::schema_diff::{
    clone_opt_opt, lemma_prefix_step, lemma_views_push, views_of, ColumnDiff, ForeignKeyDiff, IndexDiff, ItemDiff,
    TableDiff, TableDiffView, TriggerDiff,
};
use crate::schema_graph::DependencyGraph;
use crate::schema_types::{clone_opt, clone_strings, opt_text, ColumnInfo};
use crate::text::{chars_of, concat, concat3, lemma_string_views_push, push_char, str_eq, string_views};

verus! {

/// The kind of change that undoes a change of kind `t`.
pub open spec fn inverted_type(t: Seq<char>) -> Seq<char> {
    if t == "added"@ {
        "removed"@
    } else if t == "removed"@ {
        "added"@
    } else if t == "renamed"@ {
        "renamed"@
    } else {
        "modified"@
    }
}

/// The separator of a change line, ` → `.
pub open spec fn arrow() -> Seq<char> {
    seq![' ', '\u{2192}', ' ']
}

pub open spec fn arrow_at(s: Seq<char>, k: int) -> bool {
    0 <= k && k + 3 <= s.len() && s.subrange(k, k + 3) == arrow()
}

/// The first separator at or after `start`.
pub open spec fn first_arrow_from(s: Seq<char>, start: int) -> Option<int>
    decreases s.len() - start,
{
    if start < 0 || start + 3 > s.len() {
        None
    } else if arrow_at(s, start) {
        Some(start)
    } else {
        first_arrow_from(s, start + 1)
    }
}

/// A change line `a → b` turned into `b → a`; a line without exactly one
/// separator is kept as it is.
pub open spec fn inverted_change(ch: Seq<char>) -> Seq<char> {
    match first_arrow_from(ch, 0) {
        Some(k) => if first_arrow_from(ch, k + 3) is None {
            ch.subrange(k + 3, ch.len() as int) + arrow() + ch.subrange(0, k)
        } else {
            ch
        },
        None => ch,
    }
}

pub open spec fn inverted_changes(chs: Seq<Seq<char>>) -> Seq<Seq<char>> {
    chs.map_values(|c: Seq<char>| inverted_change(c))
}

/// A sub-object difference undone: kind inverted, sides swapped.
pub open spec fn inverted_item<T>(d: ItemDiff<T>) -> ItemDiff<T> {
    ItemDiff {
        diff_type: inverted_type(d.diff_type),
        name: d.name,
        source: d.target,
        target: d.source,
        changes: d.changes,
    }
}

/// A column difference undone: a rename goes back to the old name, and each
/// change line is reversed.
pub open spec fn inverted_column(d: ItemDiff<ColumnInfo>) -> ItemDiff<ColumnInfo> {
    ItemDiff {
        diff_type: inverted_type(d.diff_type),
        name: if d.diff_type == "renamed"@ {
            match d.target {
                Some(t) => t.name@,
                None => d.name,
            }
        } else {
            d.name
        },
        source: d.target,
        target: d.source,
        changes: inverted_changes(d.changes),
    }
}

pub open spec fn map_opt<A, B>(o: Option<Seq<A>>, f: spec_fn(A) -> B) -> Option<Seq<B>> {
    match o {
        Some(v) => Some(v.map_values(f)),
        None => None,
    }
}

/// A table difference undone: kind inverted, sub-differences undone, DDL
/// sides swapped. Comments: an inverted `added` takes them swapped, an
/// inverted `removed` keeps them, anything else swaps them.
pub open spec fn inverted_table(d: TableDiffView) -> TableDiffView {
    let t = inverted_type(d.diff_type);
    TableDiffView {
        diff_type: t,
        object_type: d.object_type,
        name: d.name,
        columns: map_opt(d.columns, |c: ItemDiff<ColumnInfo>| inverted_column(c)),
        indexes: map_opt(d.indexes, |i: ItemDiff<crate::schema_types::IndexView>| inverted_item(i)),
        foreign_keys: map_opt(d.foreign_keys, |f: ItemDiff<crate::schema_types::ForeignKeyInfo>| inverted_item(f)),
        triggers: map_opt(d.triggers, |g: ItemDiff<crate::schema_types::TriggerInfo>| inverted_item(g)),
        ddl: d.target_ddl,
        target_ddl: d.ddl,
        source_table_comment: if t == "removed"@ {
            d.source_table_comment
        } else {
            d.target_table_comment
        },
        target_table_comment: if t == "removed"@ {
            d.target_table_comment
        } else {
            d.source_table_comment
        },
        sync_sql: None,
    }
}

/// Whether a change kind is one that undoing twice gives back.
pub open spec fn invertible_type(t: Seq<char>) -> bool {
    t == "added"@ || t == "removed"@ || t == "modified"@ || t == "renamed"@
}

/// Undoing the undo of an added, removed, modified or renamed change gives
/// back the change kind (`none` becomes `modified` instead).
pub proof fn law_inverted_type_involution(t: Seq<char>)
    ensures
        invertible_type(t) ==> inverted_type(inverted_type(t)) == t,
        !invertible_type(t) ==> inverted_type(t) == "modified"@,
{
    reveal_strlit("added");
    reveal_strlit("removed");
    reveal_strlit("modified");
    reveal_strlit("renamed");
}

/// Undoing a table change twice gives back its kind, name, object type and
/// both DDL texts.
pub proof fn law_table_inversion_round_trip(d: TableDiffView)
    requires
        invertible_type(d.diff_type),
    ensures
        inverted_table(inverted_table(d)).diff_type == d.diff_type,
        inverted_table(inverted_table(d)).name == d.name,
        inverted_table(inverted_table(d)).object_type == d.object_type,
        inverted_table(inverted_table(d)).ddl == d.ddl,
        inverted_table(inverted_table(d)).target_ddl == d.target_ddl,
{
    law_inverted_type_involution(d.diff_type);
}

/// Whether a rollback of kind `r` undoes a forward change of kind `f`.
pub open spec fn undoes(f: Seq<char>, r: Seq<char>) -> bool {
    ||| (f == "added"@ && r == "removed"@)
    ||| (f == "removed"@ && r == "added"@)
    ||| (f == "modified"@ && r == "modified"@)
    ||| (f == "none"@ && r == "none"@)
}

/// Whether some rollback entry of the same name undoes `f`.
pub open spec fn has_rollback(f: TableDiffView, rollback: Seq<TableDiffView>) -> bool {
    exists|k: int| 0 <= k < rollback.len() && rollback[k].name == f.name && undoes(f.diff_type, rollback[k].diff_type)
}

/// The issue reported for a forward change without rollback.
pub open spec fn missing_rollback_text(f: TableDiffView) -> Seq<char> {
    "No rollback entry for forward "@ + f.diff_type + ": "@ + f.name
}

/// The issue reported when undoing a rollback entry does not give back the
/// forward change kind.
pub open spec fn mismatch_text(f: TableDiffView, ror: Seq<char>) -> Seq<char> {
    "Forward∘Rollback mismatch for "@ + f.name + ": forward="@ + f.diff_type + ", rollback∘rollback="@ + ror
}

/// One issue per rollback entry of `f`'s name whose undo is not of `f`'s kind.
pub open spec fn mismatch_lines(f: TableDiffView, rollback: Seq<TableDiffView>) -> Seq<Seq<char>>
    decreases rollback.len(),
{
    if rollback.len() == 0 {
        Seq::empty()
    } else {
        let rest = mismatch_lines(f, rollback.drop_last());
        let r = rollback.last();
        let ror = inverted_type(r.diff_type);
        if r.name == f.name && ror != f.diff_type {
            rest.push(mismatch_text(f, ror))
        } else {
            rest
        }
    }
}

/// All issues of a rollback plan, forward change by forward change.
pub open spec fn consistency_issues(forward: Seq<TableDiffView>, rollback: Seq<TableDiffView>) -> Seq<Seq<char>>
    decreases forward.len(),
{
    if forward.len() == 0 {
        Seq::empty()
    } else {
        let f = forward.last();
        consistency_issues(forward.drop_last(), rollback) + (if has_rollback(f, rollback) {
            Seq::empty()
        } else {
            seq![missing_rollback_text(f)]
        }) + mismatch_lines(f, rollback)
    }
}

/// Direction of a planned change.
#[derive(Debug, Clone, Copy, PartialEq, Eq, Structural)]
pub enum DiffDirection {
    Forward,
    Rollback,
}

/// A table found renamed: its old and new name.
#[derive(Debug, Clone)]
pub struct RenamePair {
    pub removed_name: String,
    pub added_name: String,
}

/// A planned change with its place in dependency order.
#[derive(Debug)]
pub struct DiffNode {
    pub table_diff: TableDiff,
    pub direction: DiffDirection,
    pub dependency_order: usize,
    pub rename_source: Option<String>,
    pub rename_target: Option<String>,
}

/// A planned change as plain values.
pub struct DiffNodeView {
    pub table_diff: TableDiffView,
    pub direction: DiffDirection,
    pub dependency_order: usize,
    pub rename_source: Option<Seq<char>>,
    pub rename_target: Option<Seq<char>>,
}

impl View for DiffNode {
    type V = DiffNodeView;

    open spec fn view(&self) -> DiffNodeView {
        DiffNodeView {
            table_diff: self.table_diff@,
            direction: self.direction,
            dependency_order: self.dependency_order,
            rename_source: opt_text(self.rename_source),
            rename_target: opt_text(self.rename_target),
        }
    }
}

/// The forward changes, the changes undoing them, and whether they match.
#[derive(Debug)]
pub struct RollbackGraph {
    pub forward_nodes: Vec<DiffNode>,
    pub rollback_nodes: Vec<DiffNode>,
    pub is_consistent: bool,
    pub consistency_issues: Vec<String>,
}

pub open spec fn node_tables(nodes: Seq<DiffNodeView>) -> Seq<TableDiffView> {
    nodes.map_values(|n: DiffNodeView| n.table_diff)
}

/// The position of `name` in the dependency order (its last occurrence), or
/// `usize::MAX` if it is not there.
pub open spec fn order_of(order: Seq<Seq<char>>, name: Seq<char>) -> usize {
    match crate::schema_diff::last_index(order, name) {
        Some(i) => i as usize,
        None => usize::MAX,
    }
}

/// The rename recorded for a forward change: an added table that is the new
/// name of a rename points back to its old name; a removed table that is the
/// old name of a rename points to its new name. When several renames match,
/// the last counts.
pub open spec fn rename_of(d: TableDiffView, removed: Seq<Seq<char>>, added: Seq<Seq<char>>) -> (
    Option<Seq<char>>,
    Option<Seq<char>>,
) {
    if d.diff_type == "added"@ {
        match crate::schema_diff::last_index(added, d.name) {
            Some(i) => (Some(removed[i]), Some(d.name)),
            None => (None, None),
        }
    } else if d.diff_type == "removed"@ {
        match crate::schema_diff::last_index(removed, d.name) {
            Some(i) => (Some(d.name), Some(added[i])),
            None => (None, None),
        }
    } else {
        (None, None)
    }
}

fn string_of_range(cs: &Vec<char>, a: usize, b: usize) -> (r: String)
    requires
        a <= b <= cs.len(),
    ensures
        r@ == cs@.subrange(a as int, b as int),
{
    let mut r = String::new();
    let mut i = a;
    while i < b
        invariant
            a <= i <= b,
            b <= cs.len(),
            r@ == cs@.subrange(a as int, i as int),
        decreases b - i,
    {
        push_char(&mut r, cs[i]);
        assert(r@ =~= cs@.subrange(a as int, i + 1));
        i = i + 1;
    }
    r
}

fn find_arrow_from(cs: &Vec<char>, start: usize) -> (r: Option<usize>)
    requires
        start <= cs.len(),
    ensures
        match r {
            Some(k) => first_arrow_from(cs@, start as int) == Some(k as int) && k + 3 <= cs.len(),
            None => first_arrow_from(cs@, start as int) is None,
        },
    decreases cs.len() - start,
{
    if cs.len() - start < 3 {
        return None;
    }
    if cs[start] == ' ' && cs[start + 1] == '\u{2192}' && cs[start + 2] == ' ' {
        assert(cs@.subrange(start as int, start + 3) =~= arrow());
        return Some(start);
    }
    assert(!(cs@.subrange(start as int, start + 3) =~= arrow()) ==> !arrow_at(cs@, start as int));
    assert(cs@.subrange(start as int, start + 3)[0] == cs@[start as int]);
    assert(cs@.subrange(start as int, start + 3)[1] == cs@[start + 1]);
    assert(cs@.subrange(start as int, start + 3)[2] == cs@[start + 2]);
    find_arrow_from(cs, start + 1)
}

impl RollbackGraph {
    /// The kind of change that undoes a change of kind `dt`.
    pub fn invert_diff_type(dt: &str) -> (r: &'static str)
        ensures
            r@ == inverted_type(dt@),
    {
        if str_eq(dt, "added") {
            "removed"
        } else if str_eq(dt, "removed") {
            "added"
        } else if str_eq(dt, "renamed") {
            "renamed"
        } else {
            "modified"
        }
    }

    /// Reverses a change line `a → b` into `b → a`.
    pub fn invert_change_string(ch: &str) -> (r: String)
        ensures
            r@ == inverted_change(ch@),
    {
        let cs = chars_of(ch);
        match find_arrow_from(&cs, 0) {
            None => String::from_str(ch),
            Some(k) => match find_arrow_from(&cs, k + 3) {
                Some(_) => String::from_str(ch),
                None => {
                    let before = string_of_range(&cs, 0, k);
                    let after = string_of_range(&cs, k + 3, cs.len());
                    proof {
                        reveal_strlit(" → ");
                        assert(" → "@ =~= arrow());
                    }
                    concat3(after.as_str(), " → ", before.as_str())
                },
            },
        }
    }

    fn invert_changes(chs: &Vec<String>) -> (r: Vec<String>)
        ensures
            string_views(r@) == inverted_changes(string_views(chs@)),
    {
        let mut out: Vec<String> = Vec::new();
        let mut i: usize = 0;
        while i < chs.len()
            invariant
                i <= chs.len(),
                string_views(out@) == inverted_changes(string_views(chs@).subrange(0, i as int)),
            decreases chs.len() - i,
        {
            let x = RollbackGraph::invert_change_string(chs[i].as_str());
            proof {
                lemma_string_views_push(out@, x);
            }
            out.push(x);
            assert(string_views(out@) =~= inverted_changes(string_views(chs@).subrange(0, i + 1)));
            i = i + 1;
        }
        assert(string_views(chs@).subrange(0, chs.len() as int) =~= string_views(chs@));
        out
    }

    /// Undoes each column difference.
    pub fn invert_columns(cols: &Vec<ColumnDiff>) -> (r: Vec<ColumnDiff>)
        ensures
            views_of(r@) == views_of(cols@).map_values(|c: ItemDiff<ColumnInfo>| inverted_column(c)),
    {
        let mut out: Vec<ColumnDiff> = Vec::new();
        let mut i: usize = 0;
        while i < cols.len()
            invariant
                i <= cols.len(),
                views_of(out@) == views_of(cols@).subrange(0, i as int).map_values(
                    |c: ItemDiff<ColumnInfo>| inverted_column(c),
                ),
            decreases cols.len() - i,
        {
            let c = &cols[i];
            assert(views_of(cols@)[i as int] == c@);
            let name = if str_eq(c.diff_type.as_str(), "renamed") {
                match &c.target {
                    Some(t) => t.name.clone(),
                    None => c.name.clone(),
                }
            } else {
                c.name.clone()
            };
            let source = match &c.target {
                Some(x) => Some(x.clone()),
                None => None,
            };
            let target = match &c.source {
                Some(x) => Some(x.clone()),
                None => None,
            };
            let d = ColumnDiff {
                diff_type: String::from_str(RollbackGraph::invert_diff_type(c.diff_type.as_str())),
                name,
                source,
                target,
                changes: RollbackGraph::invert_changes(&c.changes),
            };
            proof {
                lemma_views_push(out@, d);
            }
            out.push(d);
            assert(views_of(out@) =~= views_of(cols@).subrange(0, i + 1).map_values(
                |c: ItemDiff<ColumnInfo>| inverted_column(c),
            ));
            i = i + 1;
        }
        assert(views_of(cols@).subrange(0, cols.len() as int) =~= views_of(cols@));
        out
    }

    /// Undoes each index difference.
    pub fn invert_indexes(idxs: &Vec<IndexDiff>) -> (r: Vec<IndexDiff>)
        ensures
            views_of(r@) == views_of(idxs@).map_values(
                |i: ItemDiff<crate::schema_types::IndexView>| inverted_item(i),
            ),
    {
        let mut out: Vec<IndexDiff> = Vec::new();
        let mut k: usize = 0;
        while k < idxs.len()
            invariant
                k <= idxs.len(),
                views_of(out@) == views_of(idxs@).subrange(0, k as int).map_values(
                    |i: ItemDiff<crate::schema_types::IndexView>| inverted_item(i),
                ),
            decreases idxs.len() - k,
        {
            let c = &idxs[k];
            assert(views_of(idxs@)[k as int] == c@);
            let source = match &c.target {
                Some(x) => Some(x.clone()),
                None => None,
            };
            let target = match &c.source {
                Some(x) => Some(x.clone()),
                None => None,
            };
            let d = IndexDiff {
                diff_type: String::from_str(RollbackGraph::invert_diff_type(c.diff_type.as_str())),
                name: c.name.clone(),
                source,
                target,
                changes: clone_strings(&c.changes),
            };
            proof {
                lemma_views_push(out@, d);
            }
            out.push(d);
            assert(views_of(out@) =~= views_of(idxs@).subrange(0, k + 1).map_values(
                |i: ItemDiff<crate::schema_types::IndexView>| inverted_item(i),
            ));
            k = k + 1;
        }
        assert(views_of(idxs@).subrange(0, idxs.len() as int) =~= views_of(idxs@));
        out
    }

    /// Undoes each foreign-key difference.
    pub fn invert_fks(fks: &Vec<ForeignKeyDiff>) -> (r: Vec<ForeignKeyDiff>)
        ensures
            views_of(r@) == views_of(fks@).map_values(
                |f: ItemDiff<crate::schema_types::ForeignKeyInfo>| inverted_item(f),
            ),
    {
        let mut out: Vec<ForeignKeyDiff> = Vec::new();
        let mut k: usize = 0;
        while k < fks.len()
            invariant
                k <= fks.len(),
                views_of(out@) == views_of(fks@).subrange(0, k as int).map_values(
                    |f: ItemDiff<crate::schema_types::ForeignKeyInfo>| inverted_item(f),
                ),
            decreases fks.len() - k,
        {
            let c = &fks[k];
            assert(views_of(fks@)[k as int] == c@);
            let source = match &c.target {
                Some(x) => Some(x.clone()),
                None => None,
            };
            let target = match &c.source {
                Some(x) => Some(x.clone()),
                None => None,
            };
            let d = ForeignKeyDiff {
                diff_type: String::from_str(RollbackGraph::invert_diff_type(c.diff_type.as_str())),
                name: c.name.clone(),
                source,
                target,
                changes: clone_strings(&c.changes),
            };
            proof {
                lemma_views_push(out@, d);
            }
            out.push(d);
            assert(views_of(out@) =~= views_of(fks@).subrange(0, k + 1).map_values(
                |f: ItemDiff<crate::schema_types::ForeignKeyInfo>| inverted_item(f),
            ));
            k = k + 1;
        }
        assert(views_of(fks@).subrange(0, fks.len() as int) =~= views_of(fks@));
        out
    }

    /// Undoes each trigger difference.
    pub fn invert_triggers(trgs: &Vec<TriggerDiff>) -> (r: Vec<TriggerDiff>)
        ensures
            views_of(r@) == views_of(trgs@).map_values(
                |g: ItemDiff<crate::schema_types::TriggerInfo>| inverted_item(g),
            ),
    {
        let mut out: Vec<TriggerDiff> = Vec::new();
        let mut k: usize = 0;
        while k < trgs.len()
            invariant
                k <= trgs.len(),
                views_of(out@) == views_of(trgs@).subrange(0, k as int).map_values(
                    |g: ItemDiff<crate::schema_types::TriggerInfo>| inverted_item(g),
                ),
            decreases trgs.len() - k,
        {
            let c = &trgs[k];
            assert(views_of(trgs@)[k as int] == c@);
            let source = match &c.target {
                Some(x) => Some(x.clone()),
                None => None,
            };
            let target = match &c.source {
                Some(x) => Some(x.clone()),
                None => None,
            };
            let d = TriggerDiff {
                diff_type: String::from_str(RollbackGraph::invert_diff_type(c.diff_type.as_str())),
                name: c.name.clone(),
                source,
                target,
                changes: clone_strings(&c.changes),
            };
            proof {
                lemma_views_push(out@, d);
            }
            out.push(d);
            assert(views_of(out@) =~= views_of(trgs@).subrange(0, k + 1).map_values(
                |g: ItemDiff<crate::schema_types::TriggerInfo>| inverted_item(g),
            ));
            k = k + 1;
        }
        assert(views_of(trgs@).subrange(0, trgs.len() as int) =~= views_of(trgs@));
        out
    }

    /// The change undoing `diff`.
    pub fn invert_diff(diff: &TableDiff) -> (r: TableDiff)
        ensures
            r@ == inverted_table(diff@),
    {
        let inverted_type = RollbackGraph::invert_diff_type(diff.diff_type.as_str());
        let columns = match &diff.columns {
            Some(v) => Some(RollbackGraph::invert_columns(v)),
            None => None,
        };
        let indexes = match &diff.indexes {
            Some(v) => Some(RollbackGraph::invert_indexes(v)),
            None => None,
        };
        let foreign_keys = match &diff.foreign_keys {
            Some(v) => Some(RollbackGraph::invert_fks(v)),
            None => None,
        };
        let triggers = match &diff.triggers {
            Some(v) => Some(RollbackGraph::invert_triggers(v)),
            None => None,
        };
        let keep = str_eq(inverted_type, "removed");
        let (source_comment, target_comment) = if keep {
            (clone_opt_opt(&diff.source_table_comment), clone_opt_opt(&diff.target_table_comment))
        } else {
            (clone_opt_opt(&diff.target_table_comment), clone_opt_opt(&diff.source_table_comment))
        };
        TableDiff {
            diff_type: String::from_str(inverted_type),
            object_type: clone_opt(&diff.object_type),
            name: diff.name.clone(),
            columns,
            indexes,
            foreign_keys,
            triggers,
            ddl: clone_opt(&diff.target_ddl),
            target_ddl: clone_opt(&diff.ddl),
            source_table_comment: source_comment,
            target_table_comment: target_comment,
            sync_sql: None,
        }
    }
}


/// The forward node planned for a table change.
pub open spec fn forward_node(d: TableDiffView, removed: Seq<Seq<char>>, added: Seq<Seq<char>>, order: Seq<Seq<char>>) -> DiffNodeView {
    DiffNodeView {
        table_diff: d,
        direction: DiffDirection::Forward,
        dependency_order: order_of(order, d.name),
        rename_source: rename_of(d, removed, added).0,
        rename_target: rename_of(d, removed, added).1,
    }
}

/// The rollback node planned for a table change.
pub open spec fn rollback_node(d: TableDiffView, order: Seq<Seq<char>>) -> DiffNodeView {
    DiffNodeView {
        table_diff: inverted_table(d),
        direction: DiffDirection::Rollback,
        dependency_order: order_of(order, d.name),
        rename_source: None,
        rename_target: None,
    }
}

proof fn lemma_mismatch_none(f: TableDiffView, rollback: Seq<TableDiffView>)
    requires
        forall|k: int| 0 <= k < rollback.len() && rollback[k].name == f.name ==> inverted_type(rollback[k].diff_type)
            == f.diff_type,
    ensures
        mismatch_lines(f, rollback) == Seq::<Seq<char>>::empty(),
    decreases rollback.len(),
{
    if rollback.len() > 0 {
        lemma_mismatch_none(f, rollback.drop_last());
    }
}

/// A plan built from forward changes that are each an addition, a removal or
/// a modification, of tables with distinct names, is consistent: every
/// forward change has a rollback undoing it, and undoing the rollback gives
/// back the forward change.
pub proof fn law_plan_from_forward_changes_is_consistent(forward: Seq<TableDiffView>)
    requires
        forall|i: int|
            0 <= i < forward.len() ==> (#[trigger] forward[i]).diff_type == "added"@ || forward[i].diff_type
                == "removed"@ || forward[i].diff_type == "modified"@,
        forall|i: int, j: int| 0 <= i < j < forward.len() ==> forward[i].name != forward[j].name,
    ensures
        consistency_issues(forward, forward.map_values(|d: TableDiffView| inverted_table(d))) == Seq::<
            Seq<char>,
        >::empty(),
    decreases forward.len(),
{
    reveal_strlit("added");
    reveal_strlit("removed");
    reveal_strlit("modified");
    reveal_strlit("renamed");
    let rb = forward.map_values(|d: TableDiffView| inverted_table(d));
    assert("added"@.len() != "modified"@.len());
    assert("added"@.len() != "removed"@.len());
    assert("removed"@.len() != "modified"@.len());
    assert("renamed"@.len() != "modified"@.len());
    assert("renamed"@.len() != "added"@.len());
    assert("renamed"@[2] != "removed"@[2]);
    lemma_issues_prefix(forward, rb, forward.len() as int);
    assert(forward.subrange(0, forward.len() as int) =~= forward);
}

proof fn lemma_issues_prefix(forward: Seq<TableDiffView>, rb: Seq<TableDiffView>, m: int)
    requires
        0 <= m <= forward.len(),
        rb == forward.map_values(|d: TableDiffView| inverted_table(d)),
        forall|i: int|
            0 <= i < forward.len() ==> (#[trigger] forward[i]).diff_type == "added"@ || forward[i].diff_type
                == "removed"@ || forward[i].diff_type == "modified"@,
        forall|i: int, j: int| 0 <= i < j < forward.len() ==> forward[i].name != forward[j].name,
        "added"@ != "removed"@,
        "added"@ != "modified"@,
        "removed"@ != "modified"@,
        "renamed"@ != "added"@,
        "renamed"@ != "removed"@,
        "renamed"@ != "modified"@,
    ensures
        consistency_issues(forward.subrange(0, m), rb) == Seq::<Seq<char>>::empty(),
    decreases m,
{
    if m > 0 {
        lemma_issues_prefix(forward, rb, m - 1);
        let pre = forward.subrange(0, m);
        assert(pre.drop_last() =~= forward.subrange(0, m - 1));
        let f = pre.last();
        assert(f == forward[m - 1]);
        assert(rb[m - 1].name == f.name);
        assert(undoes(f.diff_type, rb[m - 1].diff_type));
        assert(has_rollback(f, rb));
        assert forall|k: int| 0 <= k < rb.len() && rb[k].name == f.name implies inverted_type(rb[k].diff_type)
            == f.diff_type by {
            if k != m - 1 {
                if k < m - 1 {
                    assert(forward[k].name != forward[m - 1].name);
                } else {
                    assert(forward[m - 1].name != forward[k].name);
                }
            }
        }
        lemma_mismatch_none(f, rb);
        assert(consistency_issues(pre, rb) =~= Seq::<Seq<char>>::empty());
    }
}

fn undoes_exec(f: &str, r: &str) -> (b: bool)
    ensures
        b == undoes(f@, r@),
{
    (str_eq(f, "added") && str_eq(r, "removed")) || (str_eq(f, "removed") && str_eq(r, "added")) || (str_eq(
        f,
        "modified",
    ) && str_eq(r, "modified")) || (str_eq(f, "none") && str_eq(r, "none"))
}

impl RollbackGraph {
    /// Pairs each forward change with the change undoing it, both placed by
    /// the dependency order, the forward one marked with its rename if any.
    /// The plan is not yet checked: it starts inconsistent with no issues.
    pub fn from_forward_diffs(
        forward_diffs: &Vec<TableDiff>,
        renames: &Vec<RenamePair>,
        dep_graph: &DependencyGraph,
    ) -> (g: RollbackGraph)
        ensures
            g.forward_nodes.len() == forward_diffs.len(),
            g.rollback_nodes.len() == forward_diffs.len(),
            forall|i: int|
                0 <= i < forward_diffs.len() ==> (#[trigger] g.forward_nodes@[i])@ == forward_node(
                    forward_diffs@[i]@,
                    renames@.map_values(|r: RenamePair| r.removed_name@),
                    renames@.map_values(|r: RenamePair| r.added_name@),
                    string_views(dep_graph.topological_order@),
                ),
            forall|i: int|
                0 <= i < forward_diffs.len() ==> (#[trigger] g.rollback_nodes@[i])@ == rollback_node(
                    forward_diffs@[i]@,
                    string_views(dep_graph.topological_order@),
                ),
            !g.is_consistent,
            g.consistency_issues@.len() == 0,
    {
        let ghost removed = renames@.map_values(|r: RenamePair| r.removed_name@);
        let ghost added = renames@.map_values(|r: RenamePair| r.added_name@);
        let ghost order = string_views(dep_graph.topological_order@);
        let mut removed_names: Vec<String> = Vec::new();
        let mut added_names: Vec<String> = Vec::new();
        let mut i: usize = 0;
        while i < renames.len()
            invariant
                i <= renames.len(),
                removed_names.len() == i,
                added_names.len() == i,
                forall|k: int| 0 <= k < i ==> (#[trigger] removed_names@[k])@ == renames@[k].removed_name@,
                forall|k: int| 0 <= k < i ==> (#[trigger] added_names@[k])@ == renames@[k].added_name@,
            decreases renames.len() - i,
        {
            let ghost r0 = removed_names@;
            let ghost a0 = added_names@;
            removed_names.push(renames[i].removed_name.clone());
            added_names.push(renames[i].added_name.clone());
            assert forall|k: int| 0 <= k < i + 1 implies (#[trigger] removed_names@[k])@ == renames@[k].removed_name@ by {
                if k < i {
                    assert(removed_names@[k] == r0[k]);
                }
            }
            assert forall|k: int| 0 <= k < i + 1 implies (#[trigger] added_names@[k])@ == renames@[k].added_name@ by {
                if k < i {
                    assert(added_names@[k] == a0[k]);
                }
            }
            i = i + 1;
        }
        assert(string_views(removed_names@) =~= removed);
        assert(string_views(added_names@) =~= added);
        let mut forward_nodes: Vec<DiffNode> = Vec::new();
        let mut rollback_nodes: Vec<DiffNode> = Vec::new();
        let mut k: usize = 0;
        while k < forward_diffs.len()
            invariant
                k <= forward_diffs.len(),
                string_views(removed_names@) == removed,
                string_views(added_names@) == added,
                removed.len() == added.len(),
                order == string_views(dep_graph.topological_order@),
                forward_nodes.len() == k,
                rollback_nodes.len() == k,
                forall|j: int|
                    0 <= j < k ==> (#[trigger] forward_nodes@[j])@ == forward_node(forward_diffs@[j]@, removed, added, order),
                forall|j: int| 0 <= j < k ==> (#[trigger] rollback_nodes@[j])@ == rollback_node(forward_diffs@[j]@, order),
            decreases forward_diffs.len() - k,
        {
            let diff = &forward_diffs[k];
            let pos = crate::schema_diff::last_position(&dep_graph.topological_order, diff.name.as_str());
            proof {
                crate::schema_diff::lemma_last_index_bound_pub(order, diff.name@);
            }
            let dep_order = match pos {
                Some(p) => p,
                None => usize::MAX,
            };
            let (rename_source, rename_target) = if str_eq(diff.diff_type.as_str(), "added") {
                let found = crate::schema_diff::last_position(&added_names, diff.name.as_str());
                proof {
                    crate::schema_diff::lemma_last_index_bound_pub(added, diff.name@);
                }
                match found {
                    Some(j) => (Some(removed_names[j].clone()), Some(diff.name.clone())),
                    None => (None, None),
                }
            } else if str_eq(diff.diff_type.as_str(), "removed") {
                let found = crate::schema_diff::last_position(&removed_names, diff.name.as_str());
                proof {
                    crate::schema_diff::lemma_last_index_bound_pub(removed, diff.name@);
                }
                match found {
                    Some(j) => (Some(diff.name.clone()), Some(added_names[j].clone())),
                    None => (None, None),
                }
            } else {
                (None, None)
            };
            let fnode = DiffNode {
                table_diff: diff.clone(),
                direction: DiffDirection::Forward,
                dependency_order: dep_order,
                rename_source,
                rename_target,
            };
            let rnode = DiffNode {
                table_diff: RollbackGraph::invert_diff(diff),
                direction: DiffDirection::Rollback,
                dependency_order: dep_order,
                rename_source: None,
                rename_target: None,
            };
            let ghost f0 = forward_nodes@;
            let ghost b0 = rollback_nodes@;
            forward_nodes.push(fnode);
            rollback_nodes.push(rnode);
            assert forall|j: int| 0 <= j < k + 1 implies (#[trigger] forward_nodes@[j])@ == forward_node(
                forward_diffs@[j]@,
                removed,
                added,
                order,
            ) by {
                if j < k {
                    assert(forward_nodes@[j] == f0[j]);
                }
            }
            assert forall|j: int| 0 <= j < k + 1 implies (#[trigger] rollback_nodes@[j])@ == rollback_node(
                forward_diffs@[j]@,
                order,
            ) by {
                if j < k {
                    assert(rollback_nodes@[j] == b0[j]);
                }
            }
            k = k + 1;
        }
        RollbackGraph { forward_nodes, rollback_nodes, is_consistent: false, consistency_issues: Vec::new() }
    }

    /// Checks the plan: records one issue per forward change without a
    /// rollback undoing it, and one per rollback of the same table whose undo
    /// is not of the forward change's kind. The plan is consistent when there
    /// is no issue.
    pub fn validate_consistency(&mut self) -> (r: bool)
        ensures
            final(self).forward_nodes == old(self).forward_nodes,
            final(self).rollback_nodes == old(self).rollback_nodes,
            string_views(final(self).consistency_issues@) == consistency_issues(
                node_tables(views_of(old(self).forward_nodes@)),
                node_tables(views_of(old(self).rollback_nodes@)),
            ),
            r == final(self).is_consistent,
            r == (final(self).consistency_issues@.len() == 0),
    {
        let ghost fw = node_tables(views_of(self.forward_nodes@));
        let ghost rb = node_tables(views_of(self.rollback_nodes@));
        let mut issues: Vec<String> = Vec::new();
        let mut i: usize = 0;
        while i < self.forward_nodes.len()
            invariant
                i <= self.forward_nodes.len(),
                fw == node_tables(views_of(self.forward_nodes@)),
                rb == node_tables(views_of(self.rollback_nodes@)),
                string_views(issues@) == consistency_issues(fw.subrange(0, i as int), rb),
            decreases self.forward_nodes.len() - i,
        {
            proof {
                lemma_prefix_step(fw, i as int);
            }
            let f = &self.forward_nodes[i].table_diff;
            assert(fw[i as int] == f@);
            let mut matched = false;
            let mut j: usize = 0;
            while j < self.rollback_nodes.len()
                invariant
                    j <= self.rollback_nodes.len(),
                    rb == node_tables(views_of(self.rollback_nodes@)),
                    matched == exists|k: int| 0 <= k < j && rb[k].name == f@.name && undoes(f@.diff_type, rb[k].diff_type),
                decreases self.rollback_nodes.len() - j,
            {
                let r = &self.rollback_nodes[j].table_diff;
                assert(rb[j as int] == r@);
                if str_eq(r.name.as_str(), f.name.as_str()) && undoes_exec(f.diff_type.as_str(), r.diff_type.as_str()) {
                    matched = true;
                }
                j = j + 1;
            }
            let ghost before = string_views(issues@);
            if !matched {
                let mut line = concat3("No rollback entry for forward ", f.diff_type.as_str(), ": ");
                line.append(f.name.as_str());
                proof {
                    lemma_string_views_push(issues@, line);
                }
                issues.push(line);
            }
            assert(string_views(issues@) == before + if has_rollback(f@, rb) {
                Seq::<Seq<char>>::empty()
            } else {
                seq![missing_rollback_text(f@)]
            });
            let ghost mid = string_views(issues@);
            let mut t: usize = 0;
            while t < self.rollback_nodes.len()
                invariant
                    t <= self.rollback_nodes.len(),
                    rb == node_tables(views_of(self.rollback_nodes@)),
                    string_views(issues@) == mid + mismatch_lines(f@, rb.subrange(0, t as int)),
                decreases self.rollback_nodes.len() - t,
            {
                proof {
                    lemma_prefix_step(rb, t as int);
                }
                let r = &self.rollback_nodes[t].table_diff;
                assert(rb[t as int] == r@);
                if str_eq(r.name.as_str(), f.name.as_str()) {
                    let ror = RollbackGraph::invert_diff_type(r.diff_type.as_str());
                    if !str_eq(ror, f.diff_type.as_str()) {
                        let mut line = concat3("Forward∘Rollback mismatch for ", f.name.as_str(), ": forward=");
                        line.append(f.diff_type.as_str());
                        line.append(", rollback∘rollback=");
                        line.append(ror);
                        proof {
                            lemma_string_views_push(issues@, line);
                        }
                        issues.push(line);
                    }
                }
                t = t + 1;
            }
            assert(rb.subrange(0, self.rollback_nodes.len() as int) =~= rb);
            i = i + 1;
        }
        assert(fw.subrange(0, self.forward_nodes.len() as int) =~= fw);
        let ok = issues.len() == 0;
        self.consistency_issues = issues;
        self.is_consistent = ok;
        ok
    }
}

} // verus!
