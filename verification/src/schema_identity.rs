//! Comparing anything with itself finds no difference.

use vstd::prelude::*;

use crate::schema_compare::{
    common_entries, common_entry, detail_for, names_of_kind, one_sided_entries, schema_diffs,
};
use crate::schema_diff::{
    column_changes, column_diffs, column_name, column_source_side, fk_changes, fk_changes_fn, fk_name, index_changes,
    index_changes_fn, index_is_primary, index_name, keyed_diff, last_index, lemma_last_index_bound_pub,
    lemma_prefix_step, names_where, never, order_comparable, source_side, target_side, trigger_changes,
    trigger_changes_fn, trigger_name, views_of, function_changes, function_changes_fn, function_key, function_name,
    no_changes, owner_changes, owner_diffs, owner_object, permission_entries, permission_key, permission_object,
    rule_changes, rule_changes_fn, rule_name, sequence_changes, sequence_changes_fn, sequence_name, ItemDiff,
    PermissionDiffView, TableDiffView, TableSchemaDetail,
};
use crate::schema_prepare::{added_names, column_renames_of, kept_diffs, planned_diffs, removed_names, renamed_entry, SchemaDiffPreparationOptions};
use crate::schema_rollback::RenamePair;
use crate::schema_shard::{concat_results, dedup_diffs, shard_inputs, shard_names, sorted_by_name, used_shard_count};
use crate::schema_sync::{lines_of, sync_lines, table_lines_fn, trimmed};
use crate::schema_types::{
    opt_text, ColumnInfo, ForeignKeyInfo, FunctionInfo, IndexView, OwnerInfo, PermissionInfo, RuleInfo, SequenceInfo,
    TableInfo, TriggerInfo,
};
use crate::text::join_seq;

use crate::column_renames::RenameThreshold;

verus! {

/// Whether no two items of `s` share a key.
pub open spec fn distinct_keys<T, K>(s: Seq<T>, key: spec_fn(T) -> K) -> bool {
    forall|i: int, j: int| 0 <= i < j < s.len() ==> key(s[i]) != key(s[j])
}

/// Whether the columns, indexes, foreign keys and triggers of a table each
/// have distinct names.
pub open spec fn well_named(d: TableSchemaDetail) -> bool {
    &&& distinct_keys(d.columns@, column_name())
    &&& distinct_keys(views_of(d.indexes@), index_name())
    &&& distinct_keys(d.foreign_keys@, fk_name())
    &&& distinct_keys(d.triggers@, trigger_name())
}

proof fn lemma_last_index_of_distinct<K>(keys: Seq<K>, i: int)
    requires
        0 <= i < keys.len(),
        forall|a: int, b: int| 0 <= a < b < keys.len() ==> keys[a] != keys[b],
    ensures
        last_index(keys, keys[i]) == Some(i),
    decreases keys.len(),
{
    if i < keys.len() - 1 {
        assert(keys[i] != keys[keys.len() - 1]);
        let rest = keys.drop_last();
        assert forall|a: int, b: int| 0 <= a < b < rest.len() implies rest[a] != rest[b] by {
            assert(rest[a] == keys[a] && rest[b] == keys[b]);
        }
        lemma_last_index_of_distinct(rest, i);
        assert(rest[i] == keys[i]);
    }
}

proof fn lemma_target_side_empty<T, K>(
    source: Seq<T>,
    target: Seq<T>,
    key: spec_fn(T) -> K,
    name: spec_fn(T) -> Seq<char>,
    skip: spec_fn(T) -> bool,
)
    requires
        forall|k: int| 0 <= k < target.len() ==> source.map_values(key).contains(key(#[trigger] target[k])),
    ensures
        target_side(source, target, key, name, skip) == Seq::<ItemDiff<T>>::empty(),
    decreases target.len(),
{
    if target.len() > 0 {
        let rest = target.drop_last();
        assert forall|k: int| 0 <= k < rest.len() implies source.map_values(key).contains(
            key(#[trigger] rest[k]),
        ) by {
            assert(rest[k] == target[k]);
        }
        lemma_target_side_empty(source, rest, key, name, skip);
        assert(source.map_values(key).contains(key(target[target.len() - 1])));
        lemma_last_index_bound_pub(source.map_values(key), key(target.last()));
    }
}

proof fn lemma_source_side_of_itself<T, K>(
    x: Seq<T>,
    n: int,
    key: spec_fn(T) -> K,
    name: spec_fn(T) -> Seq<char>,
    skip: spec_fn(T) -> bool,
    changes: spec_fn(T, T) -> Seq<Seq<char>>,
)
    requires
        0 <= n <= x.len(),
        distinct_keys(x, key),
        forall|a: T| #[trigger] changes(a, a).len() == 0,
    ensures
        source_side(x.subrange(0, n), x, key, name, skip, changes) == Seq::<ItemDiff<T>>::empty(),
    decreases n,
{
    if n > 0 {
        lemma_prefix_step(x, n - 1);
        lemma_source_side_of_itself(x, n - 1, key, name, skip, changes);
        let keys = x.map_values(key);
        assert forall|a: int, b: int| 0 <= a < b < keys.len() implies keys[a] != keys[b] by {
            assert(keys[a] == key(x[a]) && keys[b] == key(x[b]));
        }
        lemma_last_index_of_distinct(keys, n - 1);
        assert(keys[n - 1] == key(x[n - 1]));
        assert(changes(x[n - 1], x[n - 1]).len() == 0);
    }
}

/// Any list of differently named items compared with itself gives no
/// difference, when no item differs from itself.
pub proof fn law_list_compared_with_itself_has_no_differences<T, K>(
    x: Seq<T>,
    key: spec_fn(T) -> K,
    name: spec_fn(T) -> Seq<char>,
    skip: spec_fn(T) -> bool,
    changes: spec_fn(T, T) -> Seq<Seq<char>>,
)
    requires
        distinct_keys(x, key),
        forall|a: T| #[trigger] changes(a, a).len() == 0,
    ensures
        keyed_diff(x, x, key, name, skip, changes) == Seq::<ItemDiff<T>>::empty(),
{
    lemma_source_side_of_itself(x, x.len() as int, key, name, skip, changes);
    assert(x.subrange(0, x.len() as int) =~= x);
    assert forall|k: int| 0 <= k < x.len() implies x.map_values(key).contains(key(#[trigger] x[k])) by {
        assert(x.map_values(key)[k] == key(x[k]));
    }
    lemma_target_side_empty(x, x, key, name, skip);
    assert(keyed_diff(x, x, key, name, skip, changes) =~= Seq::<ItemDiff<T>>::empty());
}

proof fn lemma_no_self_changes()
    ensures
        forall|a: ForeignKeyInfo| #[trigger] (fk_changes_fn())(a, a).len() == 0,
        forall|a: TriggerInfo| #[trigger] (trigger_changes_fn())(a, a).len() == 0,
        forall|a: IndexView| #[trigger] (index_changes_fn())(a, a).len() == 0,
{
    assert forall|a: ForeignKeyInfo| #[trigger] (fk_changes_fn())(a, a).len() == 0 by {
        assert(fk_changes(a, a) =~= Seq::<Seq<char>>::empty());
    }
    assert forall|a: TriggerInfo| #[trigger] (trigger_changes_fn())(a, a).len() == 0 by {
        assert(trigger_changes(a, a) =~= Seq::<Seq<char>>::empty());
    }
    assert forall|a: IndexView| #[trigger] (index_changes_fn())(a, a).len() == 0 by {
        assert(index_changes(a, a) =~= Seq::<Seq<char>>::empty());
    }
}

proof fn lemma_column_source_side_of_itself(x: Seq<ColumnInfo>, n: int, ignore_comments: bool, can_order: bool)
    requires
        0 <= n <= x.len(),
        distinct_keys(x, column_name()),
    ensures
        column_source_side(x.subrange(0, n), x, ignore_comments, can_order) == Seq::<ItemDiff<ColumnInfo>>::empty(),
    decreases n,
{
    if n > 0 {
        lemma_prefix_step(x, n - 1);
        lemma_column_source_side_of_itself(x, n - 1, ignore_comments, can_order);
        let keys = x.map_values(column_name());
        assert forall|a: int, b: int| 0 <= a < b < keys.len() implies keys[a] != keys[b] by {
            assert(keys[a] == (column_name())(x[a]) && keys[b] == (column_name())(x[b]));
        }
        lemma_last_index_of_distinct(keys, n - 1);
        assert(keys[n - 1] == x[n - 1].name@);
        let s = x[n - 1];
        let order = if can_order {
            Some((n - 1, n - 1))
        } else {
            None::<(int, int)>
        };
        assert(column_changes(s, s, ignore_comments, order) =~= Seq::<Seq<char>>::empty());
    }
}

/// A list of differently named columns compared with itself gives no
/// difference, whatever the options.
pub proof fn law_columns_compared_with_themselves_have_no_differences(x: Seq<ColumnInfo>, ignore_comments: bool, compare_column_order: bool)
    requires
        distinct_keys(x, column_name()),
    ensures
        column_diffs(x, x, ignore_comments, compare_column_order) == Seq::<ItemDiff<ColumnInfo>>::empty(),
{
    let can_order = order_comparable(x, x, compare_column_order);
    lemma_column_source_side_of_itself(x, x.len() as int, ignore_comments, can_order);
    assert(x.subrange(0, x.len() as int) =~= x);
    assert forall|k: int| 0 <= k < x.len() implies x.map_values(column_name()).contains(
        (column_name())(#[trigger] x[k]),
    ) by {
        assert(x.map_values(column_name())[k] == (column_name())(x[k]));
    }
    lemma_target_side_empty(x, x, column_name(), column_name(), never());
    assert(column_diffs(x, x, ignore_comments, compare_column_order) =~= Seq::<ItemDiff<ColumnInfo>>::empty());
}

proof fn lemma_common_entry_of_itself(
    name: Seq<char>,
    d: TableSchemaDetail,
    c: Option<Seq<char>>,
    ignore_comments: bool,
    compare_column_order: bool,
    column_renames: Option<RenameThreshold>,
)
    requires
        well_named(d),
    ensures
        common_entry(name, d, d, c, c, ignore_comments, compare_column_order, column_renames) is None,
{
    lemma_no_self_changes();
    law_columns_compared_with_themselves_have_no_differences(d.columns@, ignore_comments, compare_column_order);
    law_list_compared_with_itself_has_no_differences(views_of(d.indexes@), index_name(), index_name(), index_is_primary(), index_changes_fn());
    law_list_compared_with_itself_has_no_differences(d.foreign_keys@, fk_name(), fk_name(), never(), fk_changes_fn());
    law_list_compared_with_itself_has_no_differences(d.triggers@, trigger_name(), trigger_name(), never(), trigger_changes_fn());
}

proof fn lemma_names_where_all_inside(s: Seq<Seq<char>>, other: Seq<Seq<char>>)
    requires
        forall|k: int| 0 <= k < s.len() ==> other.contains(#[trigger] s[k]),
    ensures
        names_where(s, other, false) == Seq::<Seq<char>>::empty(),
        names_where(s, other, true) == s,
    decreases s.len(),
{
    if s.len() > 0 {
        let rest = s.drop_last();
        assert forall|k: int| 0 <= k < rest.len() implies other.contains(#[trigger] rest[k]) by {
            assert(rest[k] == s[k]);
        }
        lemma_names_where_all_inside(rest, other);
        assert(other.contains(s[s.len() - 1]));
        assert(rest.push(s.last()) =~= s);
    }
}

proof fn lemma_common_entries_of_itself(
    names: Seq<Seq<char>>,
    tables: Seq<TableInfo>,
    details: Seq<TableSchemaDetail>,
    ignore_comments: bool,
    compare_column_order: bool,
    column_renames: Option<RenameThreshold>,
)
    requires
        forall|k: int| 0 <= k < details.len() ==> well_named(#[trigger] details[k]),
    ensures
        common_entries(names, tables, tables, details, details, ignore_comments, compare_column_order, column_renames) == Seq::<
            TableDiffView,
        >::empty(),
    decreases names.len(),
{
    if names.len() > 0 {
        lemma_common_entries_of_itself(names.drop_last(), tables, details, ignore_comments, compare_column_order, column_renames);
        let n = names.last();
        let dnames = details.map_values(|d: TableSchemaDetail| d.name@);
        lemma_last_index_bound_pub(dnames, n);
        match detail_for(details, n) {
            Some(d) => {
                let i = last_index(dnames, n)->0;
                assert(d == details[i]);
                assert(well_named(details[i]));
                lemma_common_entry_of_itself(
                    n,
                    d,
                    crate::schema_compare::comment_for(tables, n),
                    ignore_comments,
                    compare_column_order,
                    column_renames,
                );
            },
            None => {},
        }
    }
}

/// Comparing a schema with itself finds no difference, where each table's
/// columns, indexes, foreign keys and triggers have distinct names.
pub proof fn law_schema_compared_with_itself_has_no_differences(
    tables: Seq<TableInfo>,
    details: Seq<TableSchemaDetail>,
    ignore_comments: bool,
    compare_column_order: bool,
    column_renames: Option<RenameThreshold>,
)
    requires
        forall|k: int| 0 <= k < details.len() ==> well_named(#[trigger] details[k]),
    ensures
        schema_diffs(tables, tables, details, details, ignore_comments, compare_column_order, column_renames) == Seq::<
            TableDiffView,
        >::empty(),
{
    let st = names_of_kind(tables, false);
    let sv = names_of_kind(tables, true);
    assert forall|k: int| 0 <= k < st.len() implies st.contains(#[trigger] st[k]) by {}
    assert forall|k: int| 0 <= k < sv.len() implies sv.contains(#[trigger] sv[k]) by {}
    lemma_names_where_all_inside(st, st);
    lemma_names_where_all_inside(sv, sv);
    lemma_common_entries_of_itself(st, tables, details, ignore_comments, compare_column_order, column_renames);
    assert(schema_diffs(tables, tables, details, details, ignore_comments, compare_column_order, column_renames) =~= Seq::<
        TableDiffView,
    >::empty());
}


proof fn lemma_owner_diffs_of_itself(x: Seq<OwnerInfo>, n: int)
    requires
        0 <= n <= x.len(),
        distinct_keys(x, owner_object()),
    ensures
        owner_diffs(x.subrange(0, n), x) == Seq::<ItemDiff<OwnerInfo>>::empty(),
    decreases n,
{
    if n > 0 {
        lemma_prefix_step(x, n - 1);
        lemma_owner_diffs_of_itself(x, n - 1);
        let keys = x.map_values(owner_object());
        assert forall|a: int, b: int| 0 <= a < b < keys.len() implies keys[a] != keys[b] by {
            assert(keys[a] == (owner_object())(x[a]) && keys[b] == (owner_object())(x[b]));
        }
        lemma_last_index_of_distinct(keys, n - 1);
        assert(keys[n - 1] == x[n - 1].object_name@);
        assert(owner_changes(x[n - 1], x[n - 1]) =~= Seq::<Seq<char>>::empty());
    }
}

proof fn lemma_shard_inputs_pair_equal(x: Seq<TableInfo>, shards: Seq<Seq<Seq<char>>>)
    ensures
        forall|i: int|
            0 <= i < shard_inputs(x, x, shards).len() ==> (#[trigger] shard_inputs(x, x, shards)[i]).0
                == shard_inputs(x, x, shards)[i].1,
    decreases shards.len(),
{
    if shards.len() > 0 {
        lemma_shard_inputs_pair_equal(x, shards.drop_last());
        let r = shard_inputs(x, x, shards.drop_last());
        let all = shard_inputs(x, x, shards);
        assert forall|i: int| 0 <= i < all.len() implies (#[trigger] all[i]).0 == all[i].1 by {
            if i < r.len() {
                assert(all[i] == r[i]);
            }
        }
    }
}

proof fn lemma_concat_results_of_equal_pairs(
    inputs: Seq<(Seq<TableInfo>, Seq<TableInfo>)>,
    details: Seq<TableSchemaDetail>,
    ignore_comments: bool,
    compare_column_order: bool,
)
    requires
        forall|i: int| 0 <= i < inputs.len() ==> (#[trigger] inputs[i]).0 == inputs[i].1,
        forall|k: int| 0 <= k < details.len() ==> well_named(#[trigger] details[k]),
    ensures
        concat_results(inputs, details, details, ignore_comments, compare_column_order) == Seq::<
            TableDiffView,
        >::empty(),
    decreases inputs.len(),
{
    if inputs.len() > 0 {
        let rest = inputs.drop_last();
        assert forall|i: int| 0 <= i < rest.len() implies (#[trigger] rest[i]).0 == rest[i].1 by {
            assert(rest[i] == inputs[i]);
        }
        lemma_concat_results_of_equal_pairs(rest, details, ignore_comments, compare_column_order);
        let last = inputs.last();
        assert(inputs[inputs.len() - 1].0 == inputs[inputs.len() - 1].1);
        law_schema_compared_with_itself_has_no_differences(last.0, details, ignore_comments, compare_column_order, None);
        assert(concat_results(inputs, details, details, ignore_comments, compare_column_order) =~= Seq::<
            TableDiffView,
        >::empty());
    }
}

/// Comparing a schema with itself leaves nothing to synchronise: no table,
/// routine, sequence, rule, owner or grant difference, and an empty script.
/// This holds where the names within each list are distinct and no rename is
/// applied.
pub proof fn law_equal_schemas_need_no_synchronisation(o: SchemaDiffPreparationOptions, renames: Seq<RenamePair>)
    requires
        o.target_tables@ == o.source_tables@,
        o.target_details@ == o.source_details@,
        o.target_functions@ == o.source_functions@,
        o.target_sequences@ == o.source_sequences@,
        o.target_rules@ == o.source_rules@,
        o.target_owners@ == o.source_owners@,
        o.target_permissions@ == o.source_permissions@,
        forall|k: int| 0 <= k < o.source_details@.len() ==> well_named(#[trigger] o.source_details@[k]),
        distinct_keys(o.source_functions@, function_key()),
        distinct_keys(o.source_sequences@, sequence_name()),
        distinct_keys(o.source_rules@, rule_name()),
        distinct_keys(o.source_owners@, owner_object()),
        distinct_keys(o.source_permissions@, permission_key()),
        !o.detect_renames || renames.len() == 0,
    ensures
        planned_diffs(o, renames) == Seq::<TableDiffView>::empty(),
        keyed_diff(
            o.source_functions@,
            o.target_functions@,
            function_key(),
            function_name(),
            never(),
            function_changes_fn(),
        ) == Seq::<ItemDiff<FunctionInfo>>::empty(),
        keyed_diff(
            o.source_sequences@,
            o.target_sequences@,
            sequence_name(),
            sequence_name(),
            never(),
            sequence_changes_fn(),
        ) == Seq::<ItemDiff<SequenceInfo>>::empty(),
        keyed_diff(o.source_rules@, o.target_rules@, rule_name(), rule_name(), never(), rule_changes_fn())
            == Seq::<ItemDiff<RuleInfo>>::empty(),
        owner_diffs(o.source_owners@, o.target_owners@) == Seq::<ItemDiff<OwnerInfo>>::empty(),
        permission_entries(
            keyed_diff(
                o.source_permissions@,
                o.target_permissions@,
                permission_key(),
                permission_object(),
                never(),
                no_changes(),
            ),
        ) == Seq::<PermissionDiffView>::empty(),
        trimmed(
            join_seq(
                sync_lines(
                    Seq::empty(),
                    Seq::empty(),
                    Seq::empty(),
                    Seq::empty(),
                    Seq::empty(),
                    o.database_type,
                    opt_text(o.target_schema),
                    o.cascade_delete,
                ),
                "\n"@,
            ),
        ) == Seq::<char>::empty(),
{
    let x = o.source_tables@;
    let d = o.source_details@;
    law_schema_compared_with_itself_has_no_differences(x, d, o.ignore_comments, o.compare_column_order, column_renames_of(o));
    match o.shard_strategy {
        Some(st) => {
            let count = used_shard_count(st.shard_count as nat, x.len(), x.len());
            if count > 1 {
                let shards = Seq::new(count, |s: int| shard_names(x, st.shard_by, count, s as nat));
                lemma_shard_inputs_pair_equal(x, shards);
                lemma_concat_results_of_equal_pairs(shard_inputs(x, x, shards), d, o.ignore_comments, o.compare_column_order);
                assert(sorted_by_name(Seq::<TableDiffView>::empty()) == Seq::<TableDiffView>::empty());
                assert(dedup_diffs(Seq::<TableDiffView>::empty()) == Seq::<TableDiffView>::empty());
            }
        },
        None => {},
    }
    if o.detect_renames {
        let base = planned_diffs(o, Seq::empty());
        assert(renames =~= Seq::<RenamePair>::empty());
        assert(kept_diffs(Seq::<TableDiffView>::empty(), removed_names(renames), added_names(renames)) =~= Seq::<TableDiffView>::empty());
        assert(renames.map_values(|r: RenamePair| renamed_entry(r, d, o.target_details@)) =~= Seq::<TableDiffView>::empty());
    }
    assert(planned_diffs(o, renames) =~= Seq::<TableDiffView>::empty());
    lemma_no_self_changes();
    assert forall|a: FunctionInfo| #[trigger] (function_changes_fn())(a, a).len() == 0 by {
        assert(function_changes(a, a) =~= Seq::<Seq<char>>::empty());
    }
    assert forall|a: SequenceInfo| #[trigger] (sequence_changes_fn())(a, a).len() == 0 by {
        assert(sequence_changes(a, a) =~= Seq::<Seq<char>>::empty());
    }
    assert forall|a: RuleInfo| #[trigger] (rule_changes_fn())(a, a).len() == 0 by {
        assert(rule_changes(a, a) =~= Seq::<Seq<char>>::empty());
    }
    assert forall|a: PermissionInfo| #[trigger] (no_changes::<PermissionInfo>())(a, a).len() == 0 by {}
    law_list_compared_with_itself_has_no_differences(o.source_functions@, function_key(), function_name(), never(), function_changes_fn());
    law_list_compared_with_itself_has_no_differences(o.source_sequences@, sequence_name(), sequence_name(), never(), sequence_changes_fn());
    law_list_compared_with_itself_has_no_differences(o.source_rules@, rule_name(), rule_name(), never(), rule_changes_fn());
    law_list_compared_with_itself_has_no_differences(o.source_permissions@, permission_key(), permission_object(), never(), no_changes());
    lemma_owner_diffs_of_itself(o.source_owners@, o.source_owners@.len() as int);
    assert(o.source_owners@.subrange(0, o.source_owners@.len() as int) =~= o.source_owners@);
    assert(permission_entries(Seq::<ItemDiff<PermissionInfo>>::empty()) =~= Seq::<PermissionDiffView>::empty());
    let f = table_lines_fn(o.database_type, opt_text(o.target_schema), o.cascade_delete);
    assert(lines_of(Seq::<TableDiffView>::empty(), f) == Seq::<Seq<char>>::empty());
    assert(sync_lines(
        Seq::empty(),
        Seq::empty(),
        Seq::empty(),
        Seq::empty(),
        Seq::empty(),
        o.database_type,
        opt_text(o.target_schema),
        o.cascade_delete,
    ) =~= Seq::<Seq<char>>::empty());
}
} // verus!
