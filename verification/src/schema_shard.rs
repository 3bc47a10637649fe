//! Comparing a schema in shards: the source tables are split into groups,
//! each group is compared on its own (in parallel), and the differences are
//! merged, ordered by table name.

use vstd::prelude::*;

use rayon::iter::{IndexedParallelIterator, IntoParallelRefIterator, ParallelIterator};

use crate::schema_compare::{
    comment_for, common_entries, common_entry, detail_for, diff_schema, names_of_kind, names_of_kind_exec, one_sided,
    one_sided_entries, schema_diffs,
};
use crate::schema_diff::{
    last_index, lemma_last_index_bound_pub, lemma_prefix_step, lemma_views_push, names_where, or_text, views_of, TableDiff,
    TableDiffView, TableSchemaDetail,
};
use crate::schema_graph::unique_names;
use crate::schema_prepare::{column_renames_of, SchemaDiffPreparationOptions};
use crate::schema_types::{opt_text, TableInfo};
use crate::text::{chars_of, lemma_string_views_push, str_eq, string_views};

use crate::column_renames::RenameThreshold;

verus! {

/// How tables are assigned to shards.
#[derive(Debug, Clone, Copy, PartialEq, Eq, Structural)]
pub enum ShardBy {
    Table,
    Schema,
    RoundRobin,
}

/// How many shards to compare in, and how to fill them.
#[derive(Debug, Clone, Copy)]
pub struct ShardStrategy {
    pub shard_count: usize,
    pub shard_by: ShardBy,
}

/// The number of shards used: as many as asked for, but no more than the
/// larger side has tables (and at least one).
pub open spec fn used_shard_count(requested: nat, source_len: nat, target_len: nat) -> nat {
    let tables = if source_len >= target_len {
        source_len
    } else {
        target_len
    };
    let cap = if tables >= 1 {
        tables
    } else {
        1
    };
    if requested <= cap {
        requested
    } else {
        cap
    }
}

/// The source names that get sharded: tables first, then views.
pub open spec fn shardable_names(tables: Seq<TableInfo>) -> Seq<Seq<char>> {
    names_of_kind(tables, false) + names_of_kind(tables, true)
}

/// The names at the positions that leave remainder `s` when divided by
/// `count`, in order.
pub open spec fn strided(names: Seq<Seq<char>>, count: nat, s: nat) -> Seq<Seq<char>>
    decreases names.len(),
{
    if names.len() == 0 {
        Seq::empty()
    } else {
        let r = strided(names.drop_last(), count, s);
        if (names.len() - 1) % (count as int) == s {
            r.push(names.last())
        } else {
            r
        }
    }
}

/// The schema a table is grouped under: its parent schema, else `default`.
pub open spec fn schema_key(t: TableInfo) -> Seq<char> {
    or_text(opt_text(t.parent_schema), "default"@)
}

/// The schemas of the tables, each once, in order of first appearance.
pub open spec fn schema_keys(tables: Seq<TableInfo>) -> Seq<Seq<char>> {
    unique_names(tables.map_values(|t: TableInfo| schema_key(t)))
}

/// The names of the tables (views included) grouped under `key`, in order.
pub open spec fn schema_group(tables: Seq<TableInfo>, key: Seq<char>) -> Seq<Seq<char>>
    decreases tables.len(),
{
    if tables.len() == 0 {
        Seq::empty()
    } else {
        let r = schema_group(tables.drop_last(), key);
        if schema_key(tables.last()) == key {
            r.push(tables.last().name@)
        } else {
            r
        }
    }
}

/// The groups whose position among the schemas leaves remainder `s` when
/// divided by `count`, one after another.
pub open spec fn grouped(tables: Seq<TableInfo>, keys: Seq<Seq<char>>, count: nat, s: nat) -> Seq<Seq<char>>
    decreases keys.len(),
{
    if keys.len() == 0 {
        Seq::empty()
    } else {
        grouped(tables, keys.drop_last(), count, s) + if (keys.len() - 1) % (count as int) == s {
            schema_group(tables, keys.last())
        } else {
            Seq::empty()
        }
    }
}

/// The names in shard `s` of `count`. By table (or round robin) the
/// shardable names go to the shards in turn; by schema the schema groups
/// do, the schemas taken in order of first appearance.
pub open spec fn shard_names(tables: Seq<TableInfo>, by: ShardBy, count: nat, s: nat) -> Seq<Seq<char>> {
    match by {
        ShardBy::Schema => grouped(tables, schema_keys(tables), count, s),
        _ => strided(shardable_names(tables), count, s),
    }
}

fn strided_exec(names: &Vec<String>, count: usize, s: usize) -> (r: Vec<String>)
    requires
        count > 0,
    ensures
        string_views(r@) == strided(string_views(names@), count as nat, s as nat),
{
    let ghost nv = string_views(names@);
    let mut r: Vec<String> = Vec::new();
    let mut i: usize = 0;
    while i < names.len()
        invariant
            i <= names.len(),
            count > 0,
            nv == string_views(names@),
            string_views(r@) == strided(nv.subrange(0, i as int), count as nat, s as nat),
        decreases names.len() - i,
    {
        proof {
            lemma_prefix_step(nv, i as int);
        }
        if i % count == s {
            let n = names[i].clone();
            proof {
                lemma_string_views_push(r@, n);
            }
            r.push(n);
        }
        i = i + 1;
    }
    assert(nv.subrange(0, names.len() as int) =~= nv);
    r
}

fn schema_key_exec(t: &TableInfo) -> (r: &str)
    ensures
        r@ == schema_key(*t),
{
    match &t.parent_schema {
        Some(s) => s.as_str(),
        None => "default",
    }
}

fn contains_exec(v: &Vec<String>, x: &str) -> (r: bool)
    ensures
        r == string_views(v@).contains(x@),
{
    let ghost vv = string_views(v@);
    let mut i: usize = 0;
    while i < v.len()
        invariant
            i <= v.len(),
            vv == string_views(v@),
            forall|k: int| 0 <= k < i ==> vv[k] != x@,
        decreases v.len() - i,
    {
        assert(vv[i as int] == v@[i as int]@);
        if str_eq(v[i].as_str(), x) {
            return true;
        }
        i = i + 1;
    }
    false
}

fn schema_keys_exec(tables: &Vec<TableInfo>) -> (r: Vec<String>)
    ensures
        string_views(r@) == schema_keys(tables@),
{
    let ghost kv = tables@.map_values(|t: TableInfo| schema_key(t));
    let mut r: Vec<String> = Vec::new();
    let mut i: usize = 0;
    while i < tables.len()
        invariant
            i <= tables.len(),
            kv == tables@.map_values(|t: TableInfo| schema_key(t)),
            string_views(r@) == unique_names(kv.subrange(0, i as int)),
        decreases tables.len() - i,
    {
        proof {
            lemma_prefix_step(kv, i as int);
        }
        let k = schema_key_exec(&tables[i]);
        if !contains_exec(&r, k) {
            let s = String::from_str(k);
            proof {
                lemma_string_views_push(r@, s);
            }
            r.push(s);
        }
        i = i + 1;
    }
    assert(kv.subrange(0, tables.len() as int) =~= kv);
    r
}

fn push_schema_group(out: &mut Vec<String>, tables: &Vec<TableInfo>, key: &str)
    ensures
        string_views(final(out)@) == string_views(old(out)@) + schema_group(tables@, key@),
{
    let ghost before = string_views(out@);
    let mut i: usize = 0;
    while i < tables.len()
        invariant
            i <= tables.len(),
            string_views(out@) == before + schema_group(tables@.subrange(0, i as int), key@),
        decreases tables.len() - i,
    {
        proof {
            lemma_prefix_step(tables@, i as int);
        }
        if str_eq(schema_key_exec(&tables[i]), key) {
            let n = tables[i].name.clone();
            proof {
                lemma_string_views_push(out@, n);
            }
            out.push(n);
        }
        assert(string_views(out@) =~= before + schema_group(tables@.subrange(0, i + 1), key@));
        i = i + 1;
    }
    assert(tables@.subrange(0, tables.len() as int) =~= tables@);
}

fn grouped_exec(tables: &Vec<TableInfo>, keys: &Vec<String>, count: usize, s: usize) -> (r: Vec<String>)
    requires
        count > 0,
    ensures
        string_views(r@) == grouped(tables@, string_views(keys@), count as nat, s as nat),
{
    let ghost kv = string_views(keys@);
    let mut r: Vec<String> = Vec::new();
    let mut g: usize = 0;
    while g < keys.len()
        invariant
            g <= keys.len(),
            count > 0,
            kv == string_views(keys@),
            string_views(r@) == grouped(tables@, kv.subrange(0, g as int), count as nat, s as nat),
        decreases keys.len() - g,
    {
        proof {
            lemma_prefix_step(kv, g as int);
        }
        let ghost before = string_views(r@);
        if g % count == s {
            push_schema_group(&mut r, tables, keys[g].as_str());
        }
        assert(string_views(r@) =~= grouped(tables@, kv.subrange(0, g + 1), count as nat, s as nat));
        g = g + 1;
    }
    assert(kv.subrange(0, keys.len() as int) =~= kv);
    r
}

/// The names of each of `count` shards, in shard order.
pub fn plan_shards(tables: &Vec<TableInfo>, by: ShardBy, count: usize) -> (r: Vec<Vec<String>>)
    requires
        count > 0,
    ensures
        r@.len() == count,
        forall|s: int| 0 <= s < count ==> string_views(#[trigger] r@[s]@) == shard_names(tables@, by, count as nat, s as nat),
{
    let names = if by == ShardBy::Schema {
        Vec::new()
    } else {
        let mut all = names_of_kind_exec(tables, false);
        let mut views = names_of_kind_exec(tables, true);
        let ghost t = string_views(all@);
        let ghost v = string_views(views@);
        all.append(&mut views);
        assert(string_views(all@) =~= t + v);
        all
    };
    let keys = if by == ShardBy::Schema {
        schema_keys_exec(tables)
    } else {
        Vec::new()
    };
    let mut r: Vec<Vec<String>> = Vec::new();
    let mut s: usize = 0;
    while s < count
        invariant
            s <= count,
            count > 0,
            r@.len() == s,
            by != ShardBy::Schema ==> string_views(names@) == shardable_names(tables@),
            by == ShardBy::Schema ==> string_views(keys@) == schema_keys(tables@),
            forall|k: int| 0 <= k < s ==> string_views(#[trigger] r@[k]@) == shard_names(tables@, by, count as nat, k as nat),
        decreases count - s,
    {
        let shard = if by == ShardBy::Schema {
            grouped_exec(tables, &keys, count, s)
        } else {
            strided_exec(&names, count, s)
        };
        r.push(shard);
        s = s + 1;
    }
    r
}


/// The tables whose names are among `names`, in order.
pub open spec fn tables_in(tables: Seq<TableInfo>, names: Seq<Seq<char>>) -> Seq<TableInfo>
    decreases tables.len(),
{
    if tables.len() == 0 {
        Seq::empty()
    } else {
        let r = tables_in(tables.drop_last(), names);
        if names.contains(tables.last().name@) {
            r.push(tables.last())
        } else {
            r
        }
    }
}

fn tables_in_exec(tables: &Vec<TableInfo>, names: &Vec<String>) -> (r: Vec<TableInfo>)
    ensures
        r@ == tables_in(tables@, string_views(names@)),
{
    let mut r: Vec<TableInfo> = Vec::new();
    let mut i: usize = 0;
    while i < tables.len()
        invariant
            i <= tables.len(),
            r@ == tables_in(tables@.subrange(0, i as int), string_views(names@)),
        decreases tables.len() - i,
    {
        proof {
            lemma_prefix_step(tables@, i as int);
        }
        if contains_exec(names, tables[i].name.as_str()) {
            r.push(tables[i].clone());
        }
        i = i + 1;
    }
    assert(tables@.subrange(0, tables.len() as int) =~= tables@);
    r
}

/// The tables of both sides that one non-empty shard compares.
pub struct ShardInput {
    pub source_tables: Vec<TableInfo>,
    pub target_tables: Vec<TableInfo>,
}

/// A shard input as plain values: its source and its target tables.
pub open spec fn input_view(x: ShardInput) -> (Seq<TableInfo>, Seq<TableInfo>) {
    (x.source_tables@, x.target_tables@)
}

/// For each non-empty shard, in order, the source and target tables named
/// in it.
pub open spec fn shard_inputs(source: Seq<TableInfo>, target: Seq<TableInfo>, shards: Seq<Seq<Seq<char>>>) -> Seq<
    (Seq<TableInfo>, Seq<TableInfo>),
>
    decreases shards.len(),
{
    if shards.len() == 0 {
        Seq::empty()
    } else {
        let r = shard_inputs(source, target, shards.drop_last());
        if shards.last().len() > 0 {
            r.push((tables_in(source, shards.last()), tables_in(target, shards.last())))
        } else {
            r
        }
    }
}

/// The differences of each shard input, one shard after another.
pub open spec fn concat_results(
    inputs: Seq<(Seq<TableInfo>, Seq<TableInfo>)>,
    source_details: Seq<TableSchemaDetail>,
    target_details: Seq<TableSchemaDetail>,
    ignore_comments: bool,
    compare_column_order: bool,
) -> Seq<TableDiffView>
    decreases inputs.len(),
{
    if inputs.len() == 0 {
        Seq::empty()
    } else {
        concat_results(inputs.drop_last(), source_details, target_details, ignore_comments, compare_column_order)
            + schema_diffs(
            inputs.last().0,
            inputs.last().1,
            source_details,
            target_details,
            ignore_comments,
            compare_column_order,
            None,
        )
    }
}

/// Whether `a` comes before `b` in character order (the order of their
/// UTF-8 bytes, as `String` compares).
pub open spec fn name_before(a: Seq<char>, b: Seq<char>) -> bool
    decreases a.len(),
{
    if b.len() == 0 {
        false
    } else if a.len() == 0 {
        true
    } else if a[0] != b[0] {
        a[0] < b[0]
    } else {
        name_before(a.drop_first(), b.drop_first())
    }
}

fn name_before_exec(a: &str, b: &str) -> (r: bool)
    ensures
        r == name_before(a@, b@),
{
    let ac = chars_of(a);
    let bc = chars_of(b);
    let mut i: usize = 0;
    assert(a@.subrange(0, a@.len() as int) =~= a@);
    assert(b@.subrange(0, b@.len() as int) =~= b@);
    while i < ac.len() && i < bc.len() && ac[i] == bc[i]
        invariant
            i <= ac.len(),
            i <= bc.len(),
            ac@ == a@,
            bc@ == b@,
            name_before(a@, b@) == name_before(
                a@.subrange(i as int, a@.len() as int),
                b@.subrange(i as int, b@.len() as int),
            ),
        decreases ac.len() - i,
    {
        let ghost x = a@.subrange(i as int, a@.len() as int);
        let ghost y = b@.subrange(i as int, b@.len() as int);
        assert(x[0] == ac@[i as int]);
        assert(y[0] == bc@[i as int]);
        assert(x.drop_first() =~= a@.subrange(i + 1, a@.len() as int));
        assert(y.drop_first() =~= b@.subrange(i + 1, b@.len() as int));
        i = i + 1;
    }
    let ghost x = a@.subrange(i as int, a@.len() as int);
    let ghost y = b@.subrange(i as int, b@.len() as int);
    if i == bc.len() {
        assert(y.len() == 0);
        false
    } else if i == ac.len() {
        assert(x.len() == 0);
        true
    } else {
        assert(x[0] == ac@[i as int]);
        assert(y[0] == bc@[i as int]);
        ac[i] < bc[i]
    }
}

/// `s` (ordered by name) with `x` placed after every difference whose name
/// does not come after its own.
pub open spec fn insert_by_name(s: Seq<TableDiffView>, x: TableDiffView) -> Seq<TableDiffView>
    decreases s.len(),
{
    if s.len() == 0 {
        seq![x]
    } else if name_before(x.name, s.last().name) {
        insert_by_name(s.drop_last(), x).push(s.last())
    } else {
        s.push(x)
    }
}

/// The differences ordered by name, keeping the order of equal names (a
/// stable sort).
pub open spec fn sorted_by_name(s: Seq<TableDiffView>) -> Seq<TableDiffView>
    decreases s.len(),
{
    if s.len() == 0 {
        Seq::empty()
    } else {
        insert_by_name(sorted_by_name(s.drop_last()), s.last())
    }
}

/// The differences with each one dropped that repeats the name and kind of
/// the last one kept.
pub open spec fn dedup_diffs(s: Seq<TableDiffView>) -> Seq<TableDiffView>
    decreases s.len(),
{
    if s.len() == 0 {
        Seq::empty()
    } else {
        let r = dedup_diffs(s.drop_last());
        if r.len() > 0 && r.last().name == s.last().name && r.last().diff_type == s.last().diff_type {
            r
        } else {
            r.push(s.last())
        }
    }
}

fn insert_sorted(out: &mut Vec<TableDiff>, x: TableDiff)
    ensures
        views_of(final(out)@) == insert_by_name(views_of(old(out)@), x@),
{
    let ghost orig = out@;
    let ghost v = views_of(out@);
    let mut j: usize = out.len();
    assert(v.subrange(0, v.len() as int) =~= v);
    assert(v.subrange(v.len() as int, v.len() as int) =~= Seq::<TableDiffView>::empty());
    assert(insert_by_name(v, x@) =~= insert_by_name(v.subrange(0, j as int), x@) + v.subrange(j as int, v.len() as int));
    while j > 0 && name_before_exec(x.name.as_str(), out[j - 1].name.as_str())
        invariant
            j <= out.len(),
            out@ == orig,
            v == views_of(orig),
            insert_by_name(v, x@) == insert_by_name(v.subrange(0, j as int), x@) + v.subrange(j as int, v.len() as int),
        decreases j,
    {
        let ghost pre = v.subrange(0, j as int);
        assert(pre.last() == v[j - 1]);
        assert(pre.drop_last() =~= v.subrange(0, j - 1));
        assert(v[j - 1] == out@[j - 1]@);
        assert(insert_by_name(pre, x@) == insert_by_name(v.subrange(0, j - 1), x@).push(v[j - 1]));
        assert(insert_by_name(v, x@) =~= insert_by_name(v.subrange(0, j - 1), x@) + v.subrange(j - 1, v.len() as int));
        j = j - 1;
    }
    proof {
        let pre = v.subrange(0, j as int);
        if j > 0 {
            assert(pre.last() == v[j - 1]);
            assert(v[j - 1] == out@[j - 1]@);
        }
    }
    let ghost xv = x@;
    out.insert(j, x);
    assert(views_of(out@) =~= insert_by_name(v, xv));
}

/// Sorts the differences by name, keeping the order of equal names, then
/// drops each one that repeats the name and kind of the last one kept.
pub fn sort_and_dedup(diffs: Vec<TableDiff>) -> (r: Vec<TableDiff>)
    ensures
        views_of(r@) == dedup_diffs(sorted_by_name(views_of(diffs@))),
{
    let ghost dv = views_of(diffs@);
    let mut sorted: Vec<TableDiff> = Vec::new();
    let mut i: usize = 0;
    while i < diffs.len()
        invariant
            i <= diffs.len(),
            dv == views_of(diffs@),
            views_of(sorted@) == sorted_by_name(dv.subrange(0, i as int)),
        decreases diffs.len() - i,
    {
        proof {
            lemma_prefix_step(dv, i as int);
        }
        assert(dv[i as int] == diffs@[i as int]@);
        insert_sorted(&mut sorted, diffs[i].clone());
        i = i + 1;
    }
    assert(dv.subrange(0, diffs.len() as int) =~= dv);
    let ghost sv = views_of(sorted@);
    let mut out: Vec<TableDiff> = Vec::new();
    let mut k: usize = 0;
    while k < sorted.len()
        invariant
            k <= sorted.len(),
            sv == views_of(sorted@),
            views_of(out@) == dedup_diffs(sv.subrange(0, k as int)),
        decreases sorted.len() - k,
    {
        proof {
            lemma_prefix_step(sv, k as int);
        }
        let d = &sorted[k];
        assert(sv[k as int] == d@);
        let repeat = out.len() > 0 && str_eq(out[out.len() - 1].name.as_str(), d.name.as_str()) && str_eq(
            out[out.len() - 1].diff_type.as_str(),
            d.diff_type.as_str(),
        );
        proof {
            if out.len() > 0 {
                assert(views_of(out@).last() == out@[out.len() - 1]@);
            }
        }
        if !repeat {
            let c = d.clone();
            proof {
                lemma_views_push(out@, c);
            }
            out.push(c);
        }
        k = k + 1;
    }
    assert(sv.subrange(0, sorted.len() as int) =~= sv);
    out
}

/// `rayon`'s parallel map over the shard inputs, collected in input order
/// (`collect_into_vec` on an indexed iterator): each input compared by
/// [`diff_schema`], whose contract gives the differences.
#[verifier::external_body]
fn diff_shards_in_parallel(
    inputs: &Vec<ShardInput>,
    source_details: &Vec<TableSchemaDetail>,
    target_details: &Vec<TableSchemaDetail>,
    ignore_comments: bool,
    compare_column_order: bool,
) -> (r: Vec<Vec<TableDiff>>)
    ensures
        r@.len() == inputs@.len(),
        forall|i: int|
            0 <= i < r@.len() ==> views_of(#[trigger] r@[i]@) == schema_diffs(
                inputs@[i].source_tables@,
                inputs@[i].target_tables@,
                source_details@,
                target_details@,
                ignore_comments,
                compare_column_order,
                None,
            ),
{
    let mut out: Vec<Vec<TableDiff>> = Vec::new();
    inputs.par_iter().map(
        |x: &ShardInput|
            diff_schema(
                &x.source_tables,
                &x.target_tables,
                source_details,
                target_details,
                ignore_comments,
                compare_column_order,
                None,
            ),
    ).collect_into_vec(&mut out);
    out
}

/// The differences of a sharded comparison: with at most one shard, those
/// of the whole comparison; otherwise those of each non-empty shard (its
/// source and target tables named in it), ordered by name with repeats of
/// name and kind dropped.
pub open spec fn sharded_diffs(
    source_tables: Seq<TableInfo>,
    target_tables: Seq<TableInfo>,
    source_details: Seq<TableSchemaDetail>,
    target_details: Seq<TableSchemaDetail>,
    ignore_comments: bool,
    compare_column_order: bool,
    column_renames: Option<RenameThreshold>,
    strategy: ShardStrategy,
) -> Seq<TableDiffView> {
    let count = used_shard_count(strategy.shard_count as nat, source_tables.len(), target_tables.len());
    if count <= 1 {
        schema_diffs(
            source_tables,
            target_tables,
            source_details,
            target_details,
            ignore_comments,
            compare_column_order,
            column_renames,
        )
    } else {
        let shards = Seq::new(count, |s: int| shard_names(source_tables, strategy.shard_by, count, s as nat));
        dedup_diffs(
            sorted_by_name(
                concat_results(
                    shard_inputs(source_tables, target_tables, shards),
                    source_details,
                    target_details,
                    ignore_comments,
                    compare_column_order,
                ),
            ),
        )
    }
}

/// Compares two schemas shard by shard, the shards in parallel.
fn shard_tables(
    source_tables: &Vec<TableInfo>,
    target_tables: &Vec<TableInfo>,
    source_details: &Vec<TableSchemaDetail>,
    target_details: &Vec<TableSchemaDetail>,
    ignore_comments: bool,
    compare_column_order: bool,
    column_renames: Option<RenameThreshold>,
    strategy: &ShardStrategy,
) -> (r: Vec<TableDiff>)
    ensures
        views_of(r@) == sharded_diffs(
            source_tables@,
            target_tables@,
            source_details@,
            target_details@,
            ignore_comments,
            compare_column_order,
            column_renames,
            *strategy,
        ),
{
    let tables = if source_tables.len() >= target_tables.len() {
        source_tables.len()
    } else {
        target_tables.len()
    };
    let cap = if tables >= 1 {
        tables
    } else {
        1
    };
    let count = if strategy.shard_count <= cap {
        strategy.shard_count
    } else {
        cap
    };
    if count <= 1 {
        return diff_schema(
            source_tables,
            target_tables,
            source_details,
            target_details,
            ignore_comments,
            compare_column_order,
            column_renames,
        );
    }
    let plan = plan_shards(source_tables, strategy.shard_by, count);
    let ghost shards = Seq::new(count as nat, |s: int| shard_names(source_tables@, strategy.shard_by, count as nat, s as nat));
    let ghost pv = plan@.map_values(|v: Vec<String>| string_views(v@));
    assert(pv =~= shards);
    let mut inputs: Vec<ShardInput> = Vec::new();
    let mut s: usize = 0;
    while s < count
        invariant
            s <= count,
            plan@.len() == count,
            pv == plan@.map_values(|v: Vec<String>| string_views(v@)),
            inputs@.map_values(|x: ShardInput| input_view(x)) == shard_inputs(
                source_tables@,
                target_tables@,
                pv.subrange(0, s as int),
            ),
        decreases count - s,
    {
        proof {
            lemma_prefix_step(pv, s as int);
        }
        assert(pv[s as int] == string_views(plan@[s as int]@));
        if plan[s].len() > 0 {
            let x = ShardInput {
                source_tables: tables_in_exec(source_tables, &plan[s]),
                target_tables: tables_in_exec(target_tables, &plan[s]),
            };
            let ghost before = inputs@;
            inputs.push(x);
            assert(inputs@.map_values(|x: ShardInput| input_view(x)) =~= before.map_values(|x: ShardInput| input_view(x)).push(input_view(x)));
        }
        s = s + 1;
    }
    assert(pv.subrange(0, count as int) =~= pv);
    let ghost iv = inputs@.map_values(|x: ShardInput| input_view(x));
    let results = diff_shards_in_parallel(
        &inputs,
        source_details,
        target_details,
        ignore_comments,
        compare_column_order,
    );
    let mut all: Vec<TableDiff> = Vec::new();
    let mut i: usize = 0;
    while i < results.len()
        invariant
            i <= results.len(),
            results@.len() == inputs@.len(),
            iv == inputs@.map_values(|x: ShardInput| input_view(x)),
            forall|k: int|
                0 <= k < results@.len() ==> views_of(#[trigger] results@[k]@) == schema_diffs(
                    inputs@[k].source_tables@,
                    inputs@[k].target_tables@,
                    source_details@,
                    target_details@,
                    ignore_comments,
                    compare_column_order,
                    None,
                ),
            views_of(all@) == concat_results(
                iv.subrange(0, i as int),
                source_details@,
                target_details@,
                ignore_comments,
                compare_column_order,
            ),
        decreases results.len() - i,
    {
        proof {
            lemma_prefix_step(iv, i as int);
        }
        let part = &results[i];
        let ghost before = views_of(all@);
        let mut e: usize = 0;
        while e < part.len()
            invariant
                e <= part.len(),
                views_of(all@) == before + views_of(part@).subrange(0, e as int),
            decreases part.len() - e,
        {
            let c = part[e].clone();
            proof {
                lemma_views_push(all@, c);
            }
            all.push(c);
            assert(views_of(part@).subrange(0, e + 1) =~= views_of(part@).subrange(0, e as int).push(part@[e as int]@));
            e = e + 1;
        }
        assert(views_of(part@).subrange(0, part.len() as int) =~= views_of(part@));
        assert(iv[i as int] == input_view(inputs@[i as int]));
        i = i + 1;
    }
    assert(iv.subrange(0, results.len() as int) =~= iv);
    sort_and_dedup(all)
}

/// Compares the tables of `options` shard by shard as `shard_strategy` asks,
/// the shards in parallel.
pub fn shard_diff(options: &SchemaDiffPreparationOptions, shard_strategy: &ShardStrategy) -> (r: Vec<TableDiff>)
    ensures
        views_of(r@) == sharded_diffs(
            options.source_tables@,
            options.target_tables@,
            options.source_details@,
            options.target_details@,
            options.ignore_comments,
            options.compare_column_order,
            column_renames_of(*options),
            *shard_strategy,
        ),
{
    let column_renames = if options.detect_renames {
        Some(options.rename_threshold)
    } else {
        None
    };
    shard_tables(
        &options.source_tables,
        &options.target_tables,
        &options.source_details,
        &options.target_details,
        options.ignore_comments,
        options.compare_column_order,
        column_renames,
        shard_strategy,
    )
}

/// Whether the differences come in name order.
pub open spec fn ordered_by_name(s: Seq<TableDiffView>) -> bool {
    forall|i: int, j: int| 0 <= i < j < s.len() ==> !name_before(#[trigger] s[j].name, #[trigger] s[i].name)
}

/// Whether no difference repeats the name and kind of the one before it.
pub open spec fn no_adjacent_repeats(s: Seq<TableDiffView>) -> bool {
    forall|i: int|
        0 <= i < s.len() - 1 ==> !(#[trigger] s[i].name == s[i + 1].name && s[i].diff_type == s[i + 1].diff_type)
}

proof fn lemma_name_order(a: Seq<char>, b: Seq<char>, c: Seq<char>)
    ensures
        !name_before(a, a),
        name_before(a, b) ==> !name_before(b, a),
        name_before(a, b) && name_before(b, c) ==> name_before(a, c),
        a != b ==> name_before(a, b) || name_before(b, a),
    decreases a.len(),
{
    if a.len() > 0 {
        lemma_name_order(a.drop_first(), a.drop_first(), a.drop_first());
        if b.len() > 0 {
            lemma_name_order(a.drop_first(), b.drop_first(), b.drop_first());
            if c.len() > 0 {
                lemma_name_order(a.drop_first(), b.drop_first(), c.drop_first());
            }
            if a[0] == b[0] && a.drop_first() == b.drop_first() {
                assert(a =~= b) by {
                    assert forall|k: int| 0 <= k < a.len() implies a[k] == b[k] by {
                        if k > 0 {
                            assert(a[k] == a.drop_first()[k - 1]);
                            assert(b[k] == b.drop_first()[k - 1]);
                        }
                    }
                }
            }
            let x = a[0];
            let y = b[0];
            assert(x != y ==> (x < y || y < x));
        }
    } else if b.len() == 0 {
        assert(a =~= b);
    }
}

proof fn lemma_insert_contains(s: Seq<TableDiffView>, x: TableDiffView, e: TableDiffView)
    ensures
        insert_by_name(s, x).contains(e) ==> s.contains(e) || e == x,
    decreases s.len(),
{
    if s.len() > 0 && name_before(x.name, s.last().name) {
        lemma_insert_contains(s.drop_last(), x, e);
        if insert_by_name(s, x).contains(e) {
            let k = choose|k: int| 0 <= k < insert_by_name(s, x).len() && insert_by_name(s, x)[k] == e;
            if k < insert_by_name(s.drop_last(), x).len() {
                assert(insert_by_name(s.drop_last(), x)[k] == e);
                if s.drop_last().contains(e) {
                    let m = choose|m: int| 0 <= m < s.drop_last().len() && s.drop_last()[m] == e;
                    assert(s[m] == e);
                }
            } else {
                assert(s[s.len() - 1] == e);
            }
        }
    } else if s.len() > 0 {
        if s.push(x).contains(e) {
            let k = choose|k: int| 0 <= k < s.push(x).len() && s.push(x)[k] == e;
            if k < s.len() {
                assert(s[k] == e);
            }
        }
    }
}

proof fn lemma_insert_ordered(s: Seq<TableDiffView>, x: TableDiffView)
    requires
        ordered_by_name(s),
    ensures
        ordered_by_name(insert_by_name(s, x)),
        insert_by_name(s, x).len() == s.len() + 1,
    decreases s.len(),
{
    if s.len() == 0 {
    } else if name_before(x.name, s.last().name) {
        let last = s.last();
        let rest = s.drop_last();
        assert(ordered_by_name(rest)) by {
            assert forall|i: int, j: int| 0 <= i < j < rest.len() implies !name_before(
                #[trigger] rest[j].name,
                #[trigger] rest[i].name,
            ) by {
                assert(rest[i] == s[i] && rest[j] == s[j]);
            }
        }
        lemma_insert_ordered(rest, x);
        let r = insert_by_name(rest, x);
        assert forall|i: int, j: int| 0 <= i < j < r.push(last).len() implies !name_before(
            #[trigger] r.push(last)[j].name,
            #[trigger] r.push(last)[i].name,
        ) by {
            if j == r.len() {
                let e = r[i];
                assert(r.contains(e));
                lemma_insert_contains(rest, x, e);
                if rest.contains(e) {
                    let m = choose|m: int| 0 <= m < rest.len() && rest[m] == e;
                    assert(s[m] == e);
                    assert(!name_before(s[s.len() - 1].name, s[m].name));
                } else {
                    lemma_name_order(x.name, last.name, last.name);
                }
            } else {
                assert(r.push(last)[j] == r[j] && r.push(last)[i] == r[i]);
            }
        }
    } else {
        let last = s.last();
        assert forall|i: int, j: int| 0 <= i < j < s.push(x).len() implies !name_before(
            #[trigger] s.push(x)[j].name,
            #[trigger] s.push(x)[i].name,
        ) by {
            if j == s.len() {
                if i < s.len() - 1 {
                    assert(!name_before(s[s.len() - 1].name, s[i].name));
                }
                lemma_name_order(x.name, s[i].name, s[i].name);
                lemma_name_order(last.name, x.name, s[i].name);
                lemma_name_order(x.name, last.name, s[i].name);
            } else {
                assert(s.push(x)[j] == s[j] && s.push(x)[i] == s[i]);
            }
        }
    }
}

proof fn lemma_sorted_ordered(s: Seq<TableDiffView>)
    ensures
        ordered_by_name(sorted_by_name(s)),
    decreases s.len(),
{
    if s.len() > 0 {
        lemma_sorted_ordered(s.drop_last());
        lemma_insert_ordered(sorted_by_name(s.drop_last()), s.last());
    }
}

proof fn lemma_dedup_subset(s: Seq<TableDiffView>)
    ensures
        forall|e: TableDiffView| #[trigger] dedup_diffs(s).contains(e) ==> s.contains(e),
    decreases s.len(),
{
    if s.len() > 0 {
        let rest = s.drop_last();
        lemma_dedup_subset(rest);
        assert forall|e: TableDiffView| #[trigger] dedup_diffs(s).contains(e) implies s.contains(e) by {
            let out = dedup_diffs(s);
            let k = choose|k: int| 0 <= k < out.len() && out[k] == e;
            let r = dedup_diffs(rest);
            if k < r.len() {
                assert(r[k] == e);
                assert(r.contains(e));
                assert(rest.contains(e));
                let m = choose|m: int| 0 <= m < rest.len() && rest[m] == e;
                assert(s[m] == e);
            } else {
                assert(s[s.len() - 1] == e);
            }
        }
    }
}

proof fn lemma_dedup_keeps_order(s: Seq<TableDiffView>)
    requires
        ordered_by_name(s),
    ensures
        ordered_by_name(dedup_diffs(s)),
        no_adjacent_repeats(dedup_diffs(s)),
    decreases s.len(),
{
    if s.len() > 0 {
        let rest = s.drop_last();
        assert(ordered_by_name(rest)) by {
            assert forall|i: int, j: int| 0 <= i < j < rest.len() implies !name_before(
                #[trigger] rest[j].name,
                #[trigger] rest[i].name,
            ) by {
                assert(rest[i] == s[i] && rest[j] == s[j]);
            }
        }
        lemma_dedup_keeps_order(rest);
        lemma_dedup_subset(rest);
        let r = dedup_diffs(rest);
        let last = s.last();
        if !(r.len() > 0 && r.last().name == last.name && r.last().diff_type == last.diff_type) {
            let out = r.push(last);
            assert forall|i: int, j: int| 0 <= i < j < out.len() implies !name_before(
                #[trigger] out[j].name,
                #[trigger] out[i].name,
            ) by {
                if j == r.len() {
                    let e = r[i];
                    assert(r.contains(e));
                    assert(rest.contains(e));
                    let m = choose|m: int| 0 <= m < rest.len() && rest[m] == e;
                    assert(s[m] == e);
                    assert(!name_before(s[s.len() - 1].name, s[m].name));
                } else {
                    assert(out[j] == r[j] && out[i] == r[i]);
                }
            }
            assert forall|i: int| 0 <= i < out.len() - 1 implies !(#[trigger] out[i].name == out[i + 1].name
                && out[i].diff_type == out[i + 1].diff_type) by {
                if i + 1 < r.len() {
                    assert(out[i] == r[i] && out[i + 1] == r[i + 1]);
                } else {
                    assert(out[i] == r.last());
                }
            }
        }
    }
}

/// Merged shard results come out in name order, and none repeats the name
/// and kind of the one before it.
pub proof fn law_merged_diffs_are_ordered(s: Seq<TableDiffView>)
    ensures
        ordered_by_name(dedup_diffs(sorted_by_name(s))),
        no_adjacent_repeats(dedup_diffs(sorted_by_name(s))),
{
    lemma_sorted_ordered(s);
    lemma_dedup_keeps_order(sorted_by_name(s));
}

/// A comparison made in more than one shard lists its differences in name
/// order, with no repeat of name and kind in a row.
pub proof fn law_sharded_comparison_is_ordered(
    source_tables: Seq<TableInfo>,
    target_tables: Seq<TableInfo>,
    source_details: Seq<TableSchemaDetail>,
    target_details: Seq<TableSchemaDetail>,
    ignore_comments: bool,
    compare_column_order: bool,
    column_renames: Option<RenameThreshold>,
    strategy: ShardStrategy,
)
    requires
        used_shard_count(strategy.shard_count as nat, source_tables.len(), target_tables.len()) > 1,
    ensures
        ordered_by_name(
            sharded_diffs(
                source_tables,
                target_tables,
                source_details,
                target_details,
                ignore_comments,
                compare_column_order,
                column_renames,
                strategy,
            ),
        ),
        no_adjacent_repeats(
            sharded_diffs(
                source_tables,
                target_tables,
                source_details,
                target_details,
                ignore_comments,
                compare_column_order,
                column_renames,
                strategy,
            ),
        ),
{
    let count = used_shard_count(strategy.shard_count as nat, source_tables.len(), target_tables.len());
    let shards = Seq::new(count, |s: int| shard_names(source_tables, strategy.shard_by, count, s as nat));
    law_merged_diffs_are_ordered(
        concat_results(
            shard_inputs(source_tables, target_tables, shards),
            source_details,
            target_details,
            ignore_comments,
            compare_column_order,
        ),
    );
}

// What a sharded comparison reports is what the whole comparison reports.


proof fn lemma_push_contains<A>(s: Seq<A>, a: A, x: A)
    ensures
        s.push(a).contains(x) == (s.contains(x) || x == a),
{
    if s.contains(x) {
        let i = choose|i: int| 0 <= i < s.len() && s[i] == x;
        assert(s.push(a)[i] == x);
    }
    if x == a {
        assert(s.push(a)[s.len() as int] == a);
    }
    if s.push(a).contains(x) {
        let i = choose|i: int| 0 <= i < s.len() + 1 && s.push(a)[i] == x;
        if i < s.len() {
            assert(s[i] == x);
        }
    }
}

proof fn lemma_concat_contains<A>(s: Seq<A>, t: Seq<A>, x: A)
    ensures
        (s + t).contains(x) == (s.contains(x) || t.contains(x)),
{
    if s.contains(x) {
        let i = choose|i: int| 0 <= i < s.len() && s[i] == x;
        assert((s + t)[i] == x);
    }
    if t.contains(x) {
        let i = choose|i: int| 0 <= i < t.len() && t[i] == x;
        assert((s + t)[s.len() + i] == x);
    }
    if (s + t).contains(x) {
        let i = choose|i: int| 0 <= i < s.len() + t.len() && (s + t)[i] == x;
        if i < s.len() {
            assert(s[i] == x);
        } else {
            assert(t[i - s.len()] == x);
        }
    }
}

proof fn lemma_kind_names_in_shard(tables: Seq<TableInfo>, names: Seq<Seq<char>>, views: bool, x: Seq<char>)
    ensures
        names_of_kind(tables_in(tables, names), views).contains(x) == (names_of_kind(tables, views).contains(x)
            && names.contains(x)),
    decreases tables.len(),
{
    if tables.len() > 0 {
        let rest = tables.drop_last();
        let t = tables.last();
        lemma_kind_names_in_shard(rest, names, views, x);
        let fr = tables_in(rest, names);
        if names.contains(t.name@) {
            assert(fr.push(t).drop_last() =~= fr);
            assert(fr.push(t).last() == t);
        }
        lemma_push_contains(names_of_kind(rest, views), t.name@, x);
        lemma_push_contains(names_of_kind(fr, views), t.name@, x);
    }
}

proof fn lemma_names_where_contains(s: Seq<Seq<char>>, other: Seq<Seq<char>>, inside: bool, x: Seq<char>)
    ensures
        names_where(s, other, inside).contains(x) == (s.contains(x) && other.contains(x) == inside),
    decreases s.len(),
{
    if s.len() > 0 {
        lemma_names_where_contains(s.drop_last(), other, inside, x);
        lemma_push_contains(names_where(s.drop_last(), other, inside), s.last(), x);
        lemma_push_contains(s.drop_last(), s.last(), x);
        assert(s.drop_last().push(s.last()) =~= s);
    }
}

proof fn lemma_comment_in_shard(tables: Seq<TableInfo>, names: Seq<Seq<char>>, n: Seq<char>)
    requires
        names.contains(n),
    ensures
        comment_for(tables_in(tables, names), n) == comment_for(tables, n),
    decreases tables.len(),
{
    if tables.len() > 0 {
        let rest = tables.drop_last();
        let t = tables.last();
        lemma_comment_in_shard(rest, names, n);
        let fr = tables_in(rest, names);
        let keys = tables.map_values(|x: TableInfo| x.name@);
        assert(keys.drop_last() =~= rest.map_values(|x: TableInfo| x.name@));
        if names.contains(t.name@) {
            let f = fr.push(t);
            let fkeys = f.map_values(|x: TableInfo| x.name@);
            assert(fkeys.drop_last() =~= fr.map_values(|x: TableInfo| x.name@));
            assert(fkeys.last() == t.name@);
            assert(keys.last() == t.name@);
            if t.name@ != n {
                lemma_last_index_bound_pub(fr.map_values(|x: TableInfo| x.name@), n);
                lemma_last_index_bound_pub(rest.map_values(|x: TableInfo| x.name@), n);
                match last_index(fr.map_values(|x: TableInfo| x.name@), n) {
                    Some(i) => {
                        assert(f[i] == fr[i]);
                    },
                    None => {},
                }
                match last_index(rest.map_values(|x: TableInfo| x.name@), n) {
                    Some(i) => {
                        assert(tables[i] == rest[i]);
                    },
                    None => {},
                }
            }
        } else {
            assert(t.name@ != n);
            assert(keys.last() == t.name@);
            lemma_last_index_bound_pub(rest.map_values(|x: TableInfo| x.name@), n);
            match last_index(rest.map_values(|x: TableInfo| x.name@), n) {
                Some(i) => {
                    assert(tables[i] == rest[i]);
                },
                None => {},
            }
        }
    }
}

/// The entry one name gives in `one_sided_entries`.
pub open spec fn one_sided_for(
    added: bool,
    object_type: Seq<char>,
    source_details: Seq<TableSchemaDetail>,
    target_details: Seq<TableSchemaDetail>,
    n: Seq<char>,
) -> TableDiffView {
    if added {
        one_sided("added"@, object_type, n, crate::schema_compare::ddl_for(source_details, n), None)
    } else {
        one_sided("removed"@, object_type, n, None, crate::schema_compare::ddl_for(target_details, n))
    }
}

proof fn lemma_one_sided_contains(
    names: Seq<Seq<char>>,
    added: bool,
    object_type: Seq<char>,
    source_details: Seq<TableSchemaDetail>,
    target_details: Seq<TableSchemaDetail>,
    e: TableDiffView,
)
    ensures
        one_sided_entries(names, added, object_type, source_details, target_details).contains(e) == exists|n: Seq<
            char,
        >| names.contains(n) && e == one_sided_for(added, object_type, source_details, target_details, n),
    decreases names.len(),
{
    if names.len() > 0 {
        let rest = names.drop_last();
        let n0 = names.last();
        lemma_one_sided_contains(rest, added, object_type, source_details, target_details, e);
        lemma_push_contains(
            one_sided_entries(rest, added, object_type, source_details, target_details),
            one_sided_for(added, object_type, source_details, target_details, n0),
            e,
        );
        assert(rest.push(n0) =~= names);
        assert forall|n: Seq<char>| #[trigger] names.contains(n) implies rest.contains(n) || n == n0 by {
            lemma_push_contains(rest, n0, n);
        }
        assert forall|n: Seq<char>| #[trigger] rest.contains(n) implies names.contains(n) by {
            lemma_push_contains(rest, n0, n);
        }
        if e == one_sided_for(added, object_type, source_details, target_details, n0) {
            lemma_push_contains(rest, n0, n0);
        }
    }
}

/// The entry one name gives in `common_entries`, if any.
pub open spec fn common_for(
    source_tables: Seq<TableInfo>,
    target_tables: Seq<TableInfo>,
    source_details: Seq<TableSchemaDetail>,
    target_details: Seq<TableSchemaDetail>,
    ignore_comments: bool,
    compare_column_order: bool,
    column_renames: Option<RenameThreshold>,
    n: Seq<char>,
) -> Option<TableDiffView> {
    match (detail_for(source_details, n), detail_for(target_details, n)) {
        (Some(sd), Some(td)) => common_entry(
            n,
            sd,
            td,
            comment_for(source_tables, n),
            comment_for(target_tables, n),
            ignore_comments,
            compare_column_order,
            column_renames,
        ),
        _ => None,
    }
}

proof fn lemma_common_contains(
    names: Seq<Seq<char>>,
    source_tables: Seq<TableInfo>,
    target_tables: Seq<TableInfo>,
    source_details: Seq<TableSchemaDetail>,
    target_details: Seq<TableSchemaDetail>,
    ignore_comments: bool,
    compare_column_order: bool,
    column_renames: Option<RenameThreshold>,
    e: TableDiffView,
)
    ensures
        common_entries(
            names,
            source_tables,
            target_tables,
            source_details,
            target_details,
            ignore_comments,
            compare_column_order,
            column_renames,
        ).contains(e) == exists|n: Seq<char>|
            names.contains(n) && common_for(
                source_tables,
                target_tables,
                source_details,
                target_details,
                ignore_comments,
                compare_column_order,
                column_renames,
                n,
            ) == Some(e),
    decreases names.len(),
{
    if names.len() > 0 {
        let rest = names.drop_last();
        let n0 = names.last();
        lemma_common_contains(
            rest,
            source_tables,
            target_tables,
            source_details,
            target_details,
            ignore_comments,
            compare_column_order,
            column_renames,
            e,
        );
        let r = common_entries(
            rest,
            source_tables,
            target_tables,
            source_details,
            target_details,
            ignore_comments,
            compare_column_order,
            column_renames,
        );
        let c0 = common_for(
            source_tables,
            target_tables,
            source_details,
            target_details,
            ignore_comments,
            compare_column_order,
            column_renames,
            n0,
        );
        if let Some(x) = c0 {
            lemma_push_contains(r, x, e);
        }
        assert(rest.push(n0) =~= names);
        assert forall|n: Seq<char>| #[trigger] names.contains(n) implies rest.contains(n) || n == n0 by {
            lemma_push_contains(rest, n0, n);
        }
        assert forall|n: Seq<char>| #[trigger] rest.contains(n) implies names.contains(n) by {
            lemma_push_contains(rest, n0, n);
        }
        if c0 == Some(e) {
            lemma_push_contains(rest, n0, n0);
        }
    }
}

/// Each entry of the comparison of the tables named in one shard is an entry
/// of the comparison of all tables.
proof fn lemma_shard_entry_in_whole(
    source_tables: Seq<TableInfo>,
    target_tables: Seq<TableInfo>,
    source_details: Seq<TableSchemaDetail>,
    target_details: Seq<TableSchemaDetail>,
    ignore_comments: bool,
    compare_column_order: bool,
    names: Seq<Seq<char>>,
    e: TableDiffView,
)
    requires
        schema_diffs(
            tables_in(source_tables, names),
            tables_in(target_tables, names),
            source_details,
            target_details,
            ignore_comments,
            compare_column_order,
            None,
        ).contains(e),
    ensures
        schema_diffs(
            source_tables,
            target_tables,
            source_details,
            target_details,
            ignore_comments,
            compare_column_order,
            None,
        ).contains(e),
        names.contains(e.name),
{
    let s2 = tables_in(source_tables, names);
    let t2 = tables_in(target_tables, names);
    let st = names_of_kind(source_tables, false);
    let tt = names_of_kind(target_tables, false);
    let sv = names_of_kind(source_tables, true);
    let tv = names_of_kind(target_tables, true);
    let st2 = names_of_kind(s2, false);
    let tt2 = names_of_kind(t2, false);
    let sv2 = names_of_kind(s2, true);
    let tv2 = names_of_kind(t2, true);
    let sd = source_details;
    let td = target_details;
    let a1 = one_sided_entries(names_where(st, tt, false), true, "table"@, sd, td);
    let a2 = one_sided_entries(names_where(tt, st, false), false, "table"@, sd, td);
    let a3 = one_sided_entries(names_where(sv, tv, false), true, "view"@, sd, td);
    let a4 = one_sided_entries(names_where(tv, sv, false), false, "view"@, sd, td);
    let a5 = common_entries(names_where(st, tt, true), source_tables, target_tables, sd, td, ignore_comments, compare_column_order, None);
    let b1 = one_sided_entries(names_where(st2, tt2, false), true, "table"@, sd, td);
    let b2 = one_sided_entries(names_where(tt2, st2, false), false, "table"@, sd, td);
    let b3 = one_sided_entries(names_where(sv2, tv2, false), true, "view"@, sd, td);
    let b4 = one_sided_entries(names_where(tv2, sv2, false), false, "view"@, sd, td);
    let b5 = common_entries(names_where(st2, tt2, true), s2, t2, sd, td, ignore_comments, compare_column_order, None);
    assert(schema_diffs(s2, t2, sd, td, ignore_comments, compare_column_order, None) == b1 + b2 + b3 + b4 + b5);
    assert(schema_diffs(source_tables, target_tables, sd, td, ignore_comments, compare_column_order, None) == a1 + a2
        + a3 + a4 + a5);
    lemma_concat_contains(b1 + b2 + b3 + b4, b5, e);
    lemma_concat_contains(b1 + b2 + b3, b4, e);
    lemma_concat_contains(b1 + b2, b3, e);
    lemma_concat_contains(b1, b2, e);
    lemma_concat_contains(a1 + a2 + a3 + a4, a5, e);
    lemma_concat_contains(a1 + a2 + a3, a4, e);
    lemma_concat_contains(a1 + a2, a3, e);
    lemma_concat_contains(a1, a2, e);
    // one name's membership, shard side against whole side
    assert forall|x: Seq<char>, views: bool, inside: bool|
        #![trigger names_where(names_of_kind(s2, views), names_of_kind(t2, views), inside).contains(x)]
        names_where(names_of_kind(s2, views), names_of_kind(t2, views), inside).contains(x) implies names_where(
            names_of_kind(source_tables, views),
            names_of_kind(target_tables, views),
            inside,
        ).contains(x) && names.contains(x) by {
        lemma_names_where_contains(names_of_kind(s2, views), names_of_kind(t2, views), inside, x);
        lemma_names_where_contains(names_of_kind(source_tables, views), names_of_kind(target_tables, views), inside, x);
        lemma_kind_names_in_shard(source_tables, names, views, x);
        lemma_kind_names_in_shard(target_tables, names, views, x);
    }
    assert forall|x: Seq<char>, views: bool, inside: bool|
        #![trigger names_where(names_of_kind(t2, views), names_of_kind(s2, views), inside).contains(x)]
        names_where(names_of_kind(t2, views), names_of_kind(s2, views), inside).contains(x) implies names_where(
            names_of_kind(target_tables, views),
            names_of_kind(source_tables, views),
            inside,
        ).contains(x) && names.contains(x) by {
        lemma_names_where_contains(names_of_kind(t2, views), names_of_kind(s2, views), inside, x);
        lemma_names_where_contains(names_of_kind(target_tables, views), names_of_kind(source_tables, views), inside, x);
        lemma_kind_names_in_shard(source_tables, names, views, x);
        lemma_kind_names_in_shard(target_tables, names, views, x);
    }
    if b1.contains(e) {
        lemma_one_sided_contains(names_where(st2, tt2, false), true, "table"@, sd, td, e);
        let n = choose|n: Seq<char>| names_where(st2, tt2, false).contains(n) && e == one_sided_for(true, "table"@, sd, td, n);
        assert(names_where(st2, tt2, false).contains(n));
        assert(names.contains(n));
        assert(e.name == n);
        lemma_one_sided_contains(names_where(st, tt, false), true, "table"@, sd, td, e);
    } else if b2.contains(e) {
        lemma_one_sided_contains(names_where(tt2, st2, false), false, "table"@, sd, td, e);
        let n = choose|n: Seq<char>| names_where(tt2, st2, false).contains(n) && e == one_sided_for(false, "table"@, sd, td, n);
        assert(names_where(tt2, st2, false).contains(n));
        assert(names.contains(n));
        assert(e.name == n);
        lemma_one_sided_contains(names_where(tt, st, false), false, "table"@, sd, td, e);
    } else if b3.contains(e) {
        lemma_one_sided_contains(names_where(sv2, tv2, false), true, "view"@, sd, td, e);
        let n = choose|n: Seq<char>| names_where(sv2, tv2, false).contains(n) && e == one_sided_for(true, "view"@, sd, td, n);
        assert(names_where(sv2, tv2, false).contains(n));
        assert(names.contains(n));
        assert(e.name == n);
        lemma_one_sided_contains(names_where(sv, tv, false), true, "view"@, sd, td, e);
    } else if b4.contains(e) {
        lemma_one_sided_contains(names_where(tv2, sv2, false), false, "view"@, sd, td, e);
        let n = choose|n: Seq<char>| names_where(tv2, sv2, false).contains(n) && e == one_sided_for(false, "view"@, sd, td, n);
        assert(names_where(tv2, sv2, false).contains(n));
        assert(names.contains(n));
        assert(e.name == n);
        lemma_one_sided_contains(names_where(tv, sv, false), false, "view"@, sd, td, e);
    } else {
        assert(b5.contains(e));
        lemma_common_contains(names_where(st2, tt2, true), s2, t2, sd, td, ignore_comments, compare_column_order, None, e);
        let n = choose|n: Seq<char>|
            names_where(st2, tt2, true).contains(n) && common_for(s2, t2, sd, td, ignore_comments, compare_column_order, None, n)
                == Some(e);
        assert(names_where(st2, tt2, true).contains(n));
        assert(names.contains(n));
        assert(e.name == n);
        lemma_comment_in_shard(source_tables, names, n);
        lemma_comment_in_shard(target_tables, names, n);
        assert(common_for(source_tables, target_tables, sd, td, ignore_comments, compare_column_order, None, n) == Some(e));
        lemma_common_contains(
            names_where(st, tt, true),
            source_tables,
            target_tables,
            sd,
            td,
            ignore_comments,
            compare_column_order,
            None,
            e,
        );
    }
}

proof fn lemma_concat_results_contains(
    inputs: Seq<(Seq<TableInfo>, Seq<TableInfo>)>,
    source_details: Seq<TableSchemaDetail>,
    target_details: Seq<TableSchemaDetail>,
    ignore_comments: bool,
    compare_column_order: bool,
    e: TableDiffView,
)
    requires
        concat_results(inputs, source_details, target_details, ignore_comments, compare_column_order).contains(e),
    ensures
        exists|k: int|
            0 <= k < inputs.len() && #[trigger] schema_diffs(
                inputs[k].0,
                inputs[k].1,
                source_details,
                target_details,
                ignore_comments,
                compare_column_order,
                None,
            ).contains(e),
    decreases inputs.len(),
{
    if inputs.len() > 0 {
        let rest = inputs.drop_last();
        let last = schema_diffs(
            inputs.last().0,
            inputs.last().1,
            source_details,
            target_details,
            ignore_comments,
            compare_column_order,
            None,
        );
        lemma_concat_contains(
            concat_results(rest, source_details, target_details, ignore_comments, compare_column_order),
            last,
            e,
        );
        if last.contains(e) {
            assert(inputs[inputs.len() - 1] == inputs.last());
        } else {
            lemma_concat_results_contains(rest, source_details, target_details, ignore_comments, compare_column_order, e);
            let k = choose|k: int|
                0 <= k < rest.len() && #[trigger] schema_diffs(
                    rest[k].0,
                    rest[k].1,
                    source_details,
                    target_details,
                    ignore_comments,
                    compare_column_order,
                    None,
                ).contains(e);
            assert(inputs[k] == rest[k]);
        }
    }
}

proof fn lemma_shard_inputs_are_shards(
    source: Seq<TableInfo>,
    target: Seq<TableInfo>,
    shards: Seq<Seq<Seq<char>>>,
    k: int,
)
    requires
        0 <= k < shard_inputs(source, target, shards).len(),
    ensures
        exists|j: int|
            0 <= j < shards.len() && #[trigger] shard_inputs(source, target, shards)[k] == (
                tables_in(source, shards[j]),
                tables_in(target, shards[j]),
            ),
    decreases shards.len(),
{
    let rest = shard_inputs(source, target, shards.drop_last());
    if k < rest.len() {
        lemma_shard_inputs_are_shards(source, target, shards.drop_last(), k);
        let j = choose|j: int|
            0 <= j < shards.drop_last().len() && #[trigger] rest[k] == (
                tables_in(source, shards.drop_last()[j]),
                tables_in(target, shards.drop_last()[j]),
            );
        assert(shards[j] == shards.drop_last()[j]);
        assert(shard_inputs(source, target, shards)[k] == rest[k]);
    } else {
        let j = shards.len() - 1;
        assert(shards[j] == shards.last());
        assert(shard_inputs(source, target, shards)[k] == (tables_in(source, shards[j]), tables_in(target, shards[j])));
    }
}

/// The names of the tables.
pub open spec fn table_names(tables: Seq<TableInfo>) -> Seq<Seq<char>> {
    tables.map_values(|t: TableInfo| t.name@)
}

proof fn lemma_table_names_push(tables: Seq<TableInfo>, x: Seq<char>)
    requires
        tables.len() > 0,
    ensures
        table_names(tables).contains(x) == (table_names(tables.drop_last()).contains(x) || x == tables.last().name@),
{
    assert(table_names(tables) =~= table_names(tables.drop_last()).push(tables.last().name@));
    lemma_push_contains(table_names(tables.drop_last()), tables.last().name@, x);
}

proof fn lemma_kind_names_are_table_names(tables: Seq<TableInfo>, views: bool, x: Seq<char>)
    ensures
        names_of_kind(tables, views).contains(x) ==> table_names(tables).contains(x),
    decreases tables.len(),
{
    if tables.len() > 0 {
        lemma_kind_names_are_table_names(tables.drop_last(), views, x);
        lemma_table_names_push(tables, x);
        lemma_push_contains(names_of_kind(tables.drop_last(), views), tables.last().name@, x);
    }
}

proof fn lemma_strided_within(names: Seq<Seq<char>>, count: nat, s: nat, x: Seq<char>)
    ensures
        strided(names, count, s).contains(x) ==> names.contains(x),
    decreases names.len(),
{
    if names.len() > 0 {
        lemma_strided_within(names.drop_last(), count, s, x);
        lemma_push_contains(strided(names.drop_last(), count, s), names.last(), x);
        lemma_push_contains(names.drop_last(), names.last(), x);
        assert(names.drop_last().push(names.last()) =~= names);
    }
}

proof fn lemma_group_within(tables: Seq<TableInfo>, key: Seq<char>, x: Seq<char>)
    ensures
        schema_group(tables, key).contains(x) ==> table_names(tables).contains(x),
    decreases tables.len(),
{
    if tables.len() > 0 {
        lemma_group_within(tables.drop_last(), key, x);
        lemma_table_names_push(tables, x);
        lemma_push_contains(schema_group(tables.drop_last(), key), tables.last().name@, x);
    }
}

proof fn lemma_grouped_within(tables: Seq<TableInfo>, keys: Seq<Seq<char>>, count: nat, s: nat, x: Seq<char>)
    ensures
        grouped(tables, keys, count, s).contains(x) ==> table_names(tables).contains(x),
    decreases keys.len(),
{
    if keys.len() > 0 {
        lemma_grouped_within(tables, keys.drop_last(), count, s, x);
        lemma_group_within(tables, keys.last(), x);
        let tail = if (keys.len() - 1) % (count as int) == s {
            schema_group(tables, keys.last())
        } else {
            Seq::<Seq<char>>::empty()
        };
        lemma_concat_contains(grouped(tables, keys.drop_last(), count, s), tail, x);
    }
}

/// Every name in a shard is the name of a source table.
proof fn lemma_shard_names_within(tables: Seq<TableInfo>, by: ShardBy, count: nat, s: nat, x: Seq<char>)
    ensures
        shard_names(tables, by, count, s).contains(x) ==> table_names(tables).contains(x),
{
    match by {
        ShardBy::Schema => lemma_grouped_within(tables, schema_keys(tables), count, s, x),
        _ => {
            lemma_strided_within(shardable_names(tables), count, s, x);
            lemma_concat_contains(names_of_kind(tables, false), names_of_kind(tables, true), x);
            lemma_kind_names_are_table_names(tables, false, x);
            lemma_kind_names_are_table_names(tables, true, x);
        },
    }
}

proof fn lemma_sorted_contains(s: Seq<TableDiffView>, e: TableDiffView)
    ensures
        sorted_by_name(s).contains(e) ==> s.contains(e),
    decreases s.len(),
{
    if s.len() > 0 {
        let rest = s.drop_last();
        assert(rest.push(s.last()) =~= s);
        lemma_sorted_contains(rest, e);
        lemma_insert_contains(sorted_by_name(rest), s.last(), e);
        lemma_push_contains(rest, s.last(), e);
    }
}

proof fn lemma_dedup_contains(s: Seq<TableDiffView>, e: TableDiffView)
    ensures
        dedup_diffs(s).contains(e) ==> s.contains(e),
    decreases s.len(),
{
    if s.len() > 0 {
        let rest = s.drop_last();
        assert(rest.push(s.last()) =~= s);
        lemma_dedup_contains(rest, e);
        lemma_push_contains(dedup_diffs(rest), s.last(), e);
        lemma_push_contains(rest, s.last(), e);
    }
}

/// Every difference a sharded comparison reports is one that the comparison
/// of all tables at once reports: with one shard it is that comparison;
/// with more, each shard is compared without column renames, and each of
/// its differences is a difference of the whole comparison without them,
/// about a table named among the source tables.
pub proof fn law_sharded_entries_are_whole_entries(
    source_tables: Seq<TableInfo>,
    target_tables: Seq<TableInfo>,
    source_details: Seq<TableSchemaDetail>,
    target_details: Seq<TableSchemaDetail>,
    ignore_comments: bool,
    compare_column_order: bool,
    column_renames: Option<RenameThreshold>,
    strategy: ShardStrategy,
    e: TableDiffView,
)
    requires
        sharded_diffs(
            source_tables,
            target_tables,
            source_details,
            target_details,
            ignore_comments,
            compare_column_order,
            column_renames,
            strategy,
        ).contains(e),
    ensures
        used_shard_count(strategy.shard_count as nat, source_tables.len(), target_tables.len()) <= 1 ==> schema_diffs(
            source_tables,
            target_tables,
            source_details,
            target_details,
            ignore_comments,
            compare_column_order,
            column_renames,
        ).contains(e),
        used_shard_count(strategy.shard_count as nat, source_tables.len(), target_tables.len()) > 1 ==> schema_diffs(
            source_tables,
            target_tables,
            source_details,
            target_details,
            ignore_comments,
            compare_column_order,
            None,
        ).contains(e) && table_names(source_tables).contains(e.name),
{
    let count = used_shard_count(strategy.shard_count as nat, source_tables.len(), target_tables.len());
    if count > 1 {
        let shards = Seq::new(count, |s: int| shard_names(source_tables, strategy.shard_by, count, s as nat));
        let inputs = shard_inputs(source_tables, target_tables, shards);
        let all = concat_results(inputs, source_details, target_details, ignore_comments, compare_column_order);
        lemma_dedup_contains(sorted_by_name(all), e);
        lemma_sorted_contains(all, e);
        lemma_concat_results_contains(inputs, source_details, target_details, ignore_comments, compare_column_order, e);
        let k = choose|k: int|
            0 <= k < inputs.len() && #[trigger] schema_diffs(
                inputs[k].0,
                inputs[k].1,
                source_details,
                target_details,
                ignore_comments,
                compare_column_order,
                None,
            ).contains(e);
        lemma_shard_inputs_are_shards(source_tables, target_tables, shards, k);
        let j = choose|j: int|
            0 <= j < shards.len() && #[trigger] inputs[k] == (
                tables_in(source_tables, shards[j]),
                tables_in(target_tables, shards[j]),
            );
        let names = shards[j];
        assert(names == shard_names(source_tables, strategy.shard_by, count, j as nat));
        lemma_shard_names_within(source_tables, strategy.shard_by, count, j as nat, e.name);
        lemma_shard_entry_in_whole(
            source_tables,
            target_tables,
            source_details,
            target_details,
            ignore_comments,
            compare_column_order,
            names,
            e,
        );
    }
}

} // verus!
