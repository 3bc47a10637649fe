//! Comparing schema metadata of a source and a target database.
//!
//! Every comparison of object lists follows one pattern. Objects are matched
//! by a key (usually the name; when a list holds the same key twice, the last
//! one counts). The result lists, in source order, each source object missing
//! from the target (`added`) and each matched pair that differs (`modified`,
//! with one line per difference, written `what: target → source`); then, in
//! target order, each target object missing from the source (`removed`).

use vstd::prelude::*;

use crate::schema_types::{
    clone_opt, clone_strings, opt_text, ColumnInfo, ForeignKeyInfo, FunctionInfo, IndexInfo, IndexView, OwnerInfo,
    PermissionInfo, RuleInfo, SequenceInfo, TriggerInfo,
};
use crate::text::{
    chars_of, concat, concat3, decimal, decimal_text, join_seq, join_strings, lemma_string_views_push, push_char,
    seq_starts_with, str_eq, string_views, to_lowercase, unicode_lowercase,
};

use crate::column_renames::{detect_column_renames, with_renames, RenameThreshold};

verus! {

/// One difference between a source and a target list of objects.
pub struct ItemDiff<T> {
    pub diff_type: Seq<char>,
    pub name: Seq<char>,
    pub source: Option<T>,
    pub target: Option<T>,
    pub changes: Seq<Seq<char>>,
}

/// The position of the last key equal to `k`, if any.
pub open spec fn last_index<K>(keys: Seq<K>, k: K) -> Option<int>
    decreases keys.len(),
{
    if keys.len() == 0 {
        None
    } else if keys.last() == k {
        Some(keys.len() - 1)
    } else {
        last_index(keys.drop_last(), k)
    }
}

pub open spec fn added_item<T>(name: Seq<char>, s: T) -> ItemDiff<T> {
    ItemDiff { diff_type: "added"@, name, source: Some(s), target: None, changes: Seq::empty() }
}

pub open spec fn removed_item<T>(name: Seq<char>, t: T) -> ItemDiff<T> {
    ItemDiff { diff_type: "removed"@, name, source: None, target: Some(t), changes: Seq::empty() }
}

pub open spec fn modified_item<T>(name: Seq<char>, s: T, t: T, changes: Seq<Seq<char>>) -> ItemDiff<T> {
    ItemDiff { diff_type: "modified"@, name, source: Some(s), target: Some(t), changes }
}

/// The differences reported for the source objects, in source order.
pub open spec fn source_side<T, K>(
    source: Seq<T>,
    target: Seq<T>,
    key: spec_fn(T) -> K,
    name: spec_fn(T) -> Seq<char>,
    skip: spec_fn(T) -> bool,
    changes: spec_fn(T, T) -> Seq<Seq<char>>,
) -> Seq<ItemDiff<T>>
    decreases source.len(),
{
    if source.len() == 0 {
        Seq::empty()
    } else {
        let rest = source_side(source.drop_last(), target, key, name, skip, changes);
        let s = source.last();
        if skip(s) {
            rest
        } else {
            match last_index(target.map_values(key), key(s)) {
                None => rest.push(added_item(name(s), s)),
                Some(j) => {
                    let ch = changes(s, target[j]);
                    if ch.len() > 0 {
                        rest.push(modified_item(name(s), s, target[j], ch))
                    } else {
                        rest
                    }
                },
            }
        }
    }
}

/// The target objects with no counterpart in the source, in target order.
pub open spec fn target_side<T, K>(
    source: Seq<T>,
    target: Seq<T>,
    key: spec_fn(T) -> K,
    name: spec_fn(T) -> Seq<char>,
    skip: spec_fn(T) -> bool,
) -> Seq<ItemDiff<T>>
    decreases target.len(),
{
    if target.len() == 0 {
        Seq::empty()
    } else {
        let rest = target_side(source, target.drop_last(), key, name, skip);
        let t = target.last();
        if skip(t) || last_index(source.map_values(key), key(t)) is Some {
            rest
        } else {
            rest.push(removed_item(name(t), t))
        }
    }
}

/// All differences between two object lists.
pub open spec fn keyed_diff<T, K>(
    source: Seq<T>,
    target: Seq<T>,
    key: spec_fn(T) -> K,
    name: spec_fn(T) -> Seq<char>,
    skip: spec_fn(T) -> bool,
    changes: spec_fn(T, T) -> Seq<Seq<char>>,
) -> Seq<ItemDiff<T>> {
    source_side(source, target, key, name, skip, changes) + target_side(source, target, key, name, skip)
}

/// The views of a sequence of values.
pub open spec fn views_of<T: View>(s: Seq<T>) -> Seq<T::V> {
    s.map_values(|x: T| x@)
}

pub proof fn lemma_views_push<T: View>(s: Seq<T>, x: T)
    ensures
        views_of(s.push(x)) == views_of(s).push(x@),
{
    assert(views_of(s.push(x)) =~= views_of(s).push(x@));
}

pub proof fn lemma_map_push<A, B>(s: Seq<A>, x: A, f: spec_fn(A) -> B)
    ensures
        s.push(x).map_values(f) == s.map_values(f).push(f(x)),
{
    assert(s.push(x).map_values(f) =~= s.map_values(f).push(f(x)));
}

pub proof fn lemma_prefix_step<A>(s: Seq<A>, i: int)
    requires
        0 <= i < s.len(),
    ensures
        s.subrange(0, i + 1).drop_last() == s.subrange(0, i),
        s.subrange(0, i + 1).last() == s[i],
        s.subrange(0, i + 1).len() == i + 1,
{
    assert(s.subrange(0, i + 1).drop_last() =~= s.subrange(0, i));
}

proof fn lemma_last_index_bound<K>(keys: Seq<K>, k: K)
    ensures
        match last_index(keys, k) {
            Some(j) => 0 <= j < keys.len() && keys[j] == k,
            None => forall|j: int| 0 <= j < keys.len() ==> keys[j] != k,
        },
    decreases keys.len(),
{
    if keys.len() > 0 && keys.last() != k {
        lemma_last_index_bound(keys.drop_last(), k);
        if last_index(keys.drop_last(), k) is None {
            assert forall|j: int| 0 <= j < keys.len() implies keys[j] != k by {
                if j < keys.len() - 1 {
                    assert(keys.drop_last()[j] == keys[j]);
                }
            }
        }
    }
}

pub proof fn lemma_last_index_bound_pub<K>(keys: Seq<K>, k: K)
    ensures
        match last_index(keys, k) {
            Some(j) => 0 <= j < keys.len() && keys[j] == k,
            None => forall|j: int| 0 <= j < keys.len() ==> keys[j] != k,
        },
        last_index(keys, k) is Some <==> keys.contains(k),
{
    lemma_last_index_bound(keys, k);
    if keys.contains(k) {
        let j = choose|j: int| 0 <= j < keys.len() && keys[j] == k;
    }
}

/// The position of the last of `keys` equal to `k`.
pub fn last_position(keys: &Vec<String>, k: &str) -> (r: Option<usize>)
    ensures
        match r {
            Some(j) => last_index(string_views(keys@), k@) == Some(j as int),
            None => last_index(string_views(keys@), k@) is None,
        },
{
    let mut i: usize = keys.len();
    assert(string_views(keys@).subrange(0, keys.len() as int) =~= string_views(keys@));
    while i > 0
        invariant
            i <= keys.len(),
            last_index(string_views(keys@), k@) == last_index(string_views(keys@).subrange(0, i as int), k@),
        decreases i,
    {
        let ghost pre = string_views(keys@).subrange(0, i as int);
        assert(pre.drop_last() =~= string_views(keys@).subrange(0, i - 1));
        if str_eq(keys[i - 1].as_str(), k) {
            return Some(i - 1);
        }
        i = i - 1;
    }
    proof {
        assert(string_views(keys@).subrange(0, 0) =~= Seq::<Seq<char>>::empty());
    }
    None
}

/// The position of the last pair `(a[j], b[j])` equal to `(x, y)`.
pub fn last_position2(a: &Vec<String>, b: &Vec<String>, x: &str, y: &str) -> (r: Option<usize>)
    requires
        a.len() == b.len(),
    ensures
        match r {
            Some(j) => last_index(pairs(a@, b@), (x@, y@)) == Some(j as int),
            None => last_index(pairs(a@, b@), (x@, y@)) is None,
        },
{
    let ghost keys = pairs(a@, b@);
    let mut i: usize = a.len();
    assert(keys.subrange(0, a.len() as int) =~= keys);
    while i > 0
        invariant
            i <= a.len(),
            a.len() == b.len(),
            keys == pairs(a@, b@),
            last_index(keys, (x@, y@)) == last_index(keys.subrange(0, i as int), (x@, y@)),
        decreases i,
    {
        let ghost pre = keys.subrange(0, i as int);
        assert(pre.drop_last() =~= keys.subrange(0, i - 1));
        if str_eq(a[i - 1].as_str(), x) && str_eq(b[i - 1].as_str(), y) {
            return Some(i - 1);
        }
        i = i - 1;
    }
    proof {
        assert(keys.subrange(0, 0) =~= Seq::<(Seq<char>, Seq<char>)>::empty());
    }
    None
}

/// The position of the last triple `(a[j], b[j], c[j])` equal to `(x, y, z)`.
pub fn last_position3(a: &Vec<String>, b: &Vec<String>, c: &Vec<String>, x: &str, y: &str, z: &str) -> (r: Option<
    usize,
>)
    requires
        a.len() == b.len(),
        a.len() == c.len(),
    ensures
        match r {
            Some(j) => last_index(triples(a@, b@, c@), (x@, y@, z@)) == Some(j as int),
            None => last_index(triples(a@, b@, c@), (x@, y@, z@)) is None,
        },
{
    let ghost keys = triples(a@, b@, c@);
    let mut i: usize = a.len();
    assert(keys.subrange(0, a.len() as int) =~= keys);
    while i > 0
        invariant
            i <= a.len(),
            a.len() == b.len(),
            a.len() == c.len(),
            keys == triples(a@, b@, c@),
            last_index(keys, (x@, y@, z@)) == last_index(keys.subrange(0, i as int), (x@, y@, z@)),
        decreases i,
    {
        let ghost pre = keys.subrange(0, i as int);
        assert(pre.drop_last() =~= keys.subrange(0, i - 1));
        if str_eq(a[i - 1].as_str(), x) && str_eq(b[i - 1].as_str(), y) && str_eq(c[i - 1].as_str(), z) {
            return Some(i - 1);
        }
        i = i - 1;
    }
    proof {
        assert(keys.subrange(0, 0) =~= Seq::<(Seq<char>, Seq<char>, Seq<char>)>::empty());
    }
    None
}

/// The views of two equally long string lists, position by position.
pub open spec fn pairs(a: Seq<String>, b: Seq<String>) -> Seq<(Seq<char>, Seq<char>)> {
    Seq::new(a.len(), |i: int| (a[i]@, b[i]@))
}

/// The views of three equally long string lists, position by position.
pub open spec fn triples(a: Seq<String>, b: Seq<String>, c: Seq<String>) -> Seq<(Seq<char>, Seq<char>, Seq<char>)> {
    Seq::new(a.len(), |i: int| (a[i]@, b[i]@, c[i]@))
}

/// `{what}{from} → {to}`, the line recording one changed property.
pub open spec fn change_text(what: Seq<char>, from: Seq<char>, to: Seq<char>) -> Seq<char> {
    what + from + " → "@ + to
}

/// Builds the line recording that `what` changed from `from` to `to`.
pub fn change_line(what: &str, from: &str, to: &str) -> (r: String)
    ensures
        r@ == change_text(what@, from@, to@),
{
    let mut r = concat3(what, from, " → ");
    r.append(to);
    r
}

/// `[line]` if `cond`, else nothing.
pub open spec fn line_if(cond: bool, line: Seq<char>) -> Seq<Seq<char>> {
    if cond {
        seq![line]
    } else {
        Seq::empty()
    }
}

fn push_if(v: &mut Vec<String>, cond: bool, line: String)
    ensures
        string_views(final(v)@) == string_views(old(v)@) + line_if(cond, line@),
{
    if cond {
        proof {
            lemma_string_views_push(v@, line);
        }
        v.push(line);
        assert(string_views(v@) =~= string_views(old(v)@) + line_if(cond, line@));
    } else {
        assert(string_views(v@) =~= string_views(old(v)@) + line_if(cond, line@));
    }
}

pub open spec fn or_text(o: Option<Seq<char>>, default: Seq<char>) -> Seq<char> {
    match o {
        Some(s) => s,
        None => default,
    }
}

fn or_str<'a>(o: &'a Option<String>, default: &'a str) -> (r: &'a str)
    ensures
        r@ == or_text(opt_text(*o), default@),
{
    match o {
        Some(s) => s.as_str(),
        None => default,
    }
}

fn opt_eq(a: &Option<String>, b: &Option<String>) -> (r: bool)
    ensures
        r == (opt_text(*a) == opt_text(*b)),
{
    match (a, b) {
        (Some(x), Some(y)) => str_eq(x.as_str(), y.as_str()),
        (None, None) => true,
        _ => false,
    }
}

// ---------------------------------------------------------------------------
// Foreign keys
// ---------------------------------------------------------------------------

/// A difference in foreign keys.
#[derive(Debug)]
pub struct ForeignKeyDiff {
    pub diff_type: String,
    pub name: String,
    pub source: Option<ForeignKeyInfo>,
    pub target: Option<ForeignKeyInfo>,
    pub changes: Vec<String>,
}

impl Clone for ForeignKeyDiff {
    fn clone(&self) -> (r: Self)
        ensures
            r@ == self@,
    {
        let source = match &self.source {
            Some(x) => Some(x.clone()),
            None => None,
        };
        let target = match &self.target {
            Some(x) => Some(x.clone()),
            None => None,
        };
        ForeignKeyDiff {
            diff_type: self.diff_type.clone(),
            name: self.name.clone(),
            source,
            target,
            changes: clone_strings(&self.changes),
        }
    }
}

impl View for ForeignKeyDiff {
    type V = ItemDiff<ForeignKeyInfo>;

    open spec fn view(&self) -> ItemDiff<ForeignKeyInfo> {
        ItemDiff {
            diff_type: self.diff_type@,
            name: self.name@,
            source: self.source,
            target: self.target,
            changes: string_views(self.changes@),
        }
    }
}

pub open spec fn fk_name() -> spec_fn(ForeignKeyInfo) -> Seq<char> {
    |f: ForeignKeyInfo| f.name@
}

pub open spec fn never<T>() -> spec_fn(T) -> bool {
    |x: T| false
}

/// What differs between a source and a target foreign key.
pub open spec fn fk_changes(s: ForeignKeyInfo, t: ForeignKeyInfo) -> Seq<Seq<char>> {
    line_if(s.column@ != t.column@, change_text("column: "@, t.column@, s.column@)) + line_if(
        s.ref_table@ != t.ref_table@,
        change_text("ref table: "@, t.ref_table@, s.ref_table@),
    ) + line_if(
        opt_text(s.ref_schema) != opt_text(t.ref_schema),
        change_text("ref schema: "@, or_text(opt_text(t.ref_schema), ""@), or_text(opt_text(s.ref_schema), ""@)),
    ) + line_if(s.ref_column@ != t.ref_column@, change_text("ref column: "@, t.ref_column@, s.ref_column@))
}

pub open spec fn fk_changes_fn() -> spec_fn(ForeignKeyInfo, ForeignKeyInfo) -> Seq<Seq<char>> {
    |s: ForeignKeyInfo, t: ForeignKeyInfo| fk_changes(s, t)
}

fn fk_changes_exec(s: &ForeignKeyInfo, t: &ForeignKeyInfo) -> (r: Vec<String>)
    ensures
        string_views(r@) == fk_changes(*s, *t),
{
    let mut r: Vec<String> = Vec::new();
    assert(string_views(r@) =~= Seq::<Seq<char>>::empty());
    push_if(
        &mut r,
        !str_eq(s.column.as_str(), t.column.as_str()),
        change_line("column: ", t.column.as_str(), s.column.as_str()),
    );
    push_if(
        &mut r,
        !str_eq(s.ref_table.as_str(), t.ref_table.as_str()),
        change_line("ref table: ", t.ref_table.as_str(), s.ref_table.as_str()),
    );
    push_if(
        &mut r,
        !opt_eq(&s.ref_schema, &t.ref_schema),
        change_line("ref schema: ", or_str(&t.ref_schema, ""), or_str(&s.ref_schema, "")),
    );
    push_if(
        &mut r,
        !str_eq(s.ref_column.as_str(), t.ref_column.as_str()),
        change_line("ref column: ", t.ref_column.as_str(), s.ref_column.as_str()),
    );
    r
}

fn fk_names(v: &Vec<ForeignKeyInfo>) -> (r: Vec<String>)
    ensures
        string_views(r@) == v@.map_values(fk_name()),
{
    let mut r: Vec<String> = Vec::new();
    let mut i: usize = 0;
    while i < v.len()
        invariant
            i <= v.len(),
            string_views(r@) == v@.subrange(0, i as int).map_values(fk_name()),
        decreases v.len() - i,
    {
        let n = v[i].name.clone();
        proof {
            lemma_string_views_push(r@, n);
            lemma_prefix_step(v@, i as int);
            lemma_map_push(v@.subrange(0, i as int), v@[i as int], fk_name());
        }
        r.push(n);
        i = i + 1;
    }
    assert(v@.subrange(0, v.len() as int) =~= v@);
    r
}

/// The differences between source and target foreign keys, matched by name.
pub fn diff_foreign_keys(source: &Vec<ForeignKeyInfo>, target: &Vec<ForeignKeyInfo>) -> (r: Vec<ForeignKeyDiff>)
    ensures
        views_of(r@) == keyed_diff(
            source@,
            target@,
            fk_name(),
            fk_name(),
            never(),
            fk_changes_fn(),
        ),
{
    let target_names = fk_names(target);
    let source_names = fk_names(source);
    let mut diffs: Vec<ForeignKeyDiff> = Vec::new();
    let mut i: usize = 0;
    while i < source.len()
        invariant
            i <= source.len(),
            string_views(target_names@) == target@.map_values(fk_name()),
            views_of(diffs@) == source_side(
                source@.subrange(0, i as int),
                target@,
                fk_name(),
                fk_name(),
                never(),
                fk_changes_fn(),
            ),
        decreases source.len() - i,
    {
        proof {
            lemma_prefix_step(source@, i as int);
        }
        let s = &source[i];
        let ghost rest = source_side(source@.subrange(0, i as int), target@, fk_name(), fk_name(), never(), fk_changes_fn());
        let ghost next = source_side(source@.subrange(0, i + 1), target@, fk_name(), fk_name(), never(), fk_changes_fn());
        assert(fk_name()(*s) == s.name@);
        assert(!never::<ForeignKeyInfo>()(*s));
        match last_position(&target_names, s.name.as_str()) {
            None => {
                assert(next == rest.push(added_item(s.name@, *s)));
                let d = ForeignKeyDiff {
                    diff_type: String::from_str("added"),
                    name: s.name.clone(),
                    source: Some(s.clone()),
                    target: None,
                    changes: Vec::new(),
                };
                proof {
                    lemma_views_push(diffs@, d);
                    assert(string_views(d.changes@) =~= Seq::<Seq<char>>::empty());
                }
                diffs.push(d);
            },
            Some(j) => {
                proof {
                    lemma_last_index_bound(string_views(target_names@), s.name@);
                }
                let t = &target[j];
                let ch = fk_changes_exec(s, t);
                if ch.len() > 0 {
                    let d = ForeignKeyDiff {
                        diff_type: String::from_str("modified"),
                        name: s.name.clone(),
                        source: Some(s.clone()),
                        target: Some(t.clone()),
                        changes: ch,
                    };
                    proof {
                        lemma_views_push(diffs@, d);
                    }
                    diffs.push(d);
                }
            },
        }
        i = i + 1;
    }
    assert(source@.subrange(0, source.len() as int) =~= source@);
    let ghost src_part = views_of(diffs@);
    let mut k: usize = 0;
    while k < target.len()
        invariant
            k <= target.len(),
            string_views(source_names@) == source@.map_values(fk_name()),
            views_of(diffs@) == src_part + target_side(
                source@,
                target@.subrange(0, k as int),
                fk_name(),
                fk_name(),
                never(),
            ),
        decreases target.len() - k,
    {
        proof {
            lemma_prefix_step(target@, k as int);
        }
        let t = &target[k];
        if last_position(&source_names, t.name.as_str()).is_none() {
            let d = ForeignKeyDiff {
                diff_type: String::from_str("removed"),
                name: t.name.clone(),
                source: None,
                target: Some(t.clone()),
                changes: Vec::new(),
            };
            proof {
                lemma_views_push(diffs@, d);
                assert(string_views(d.changes@) =~= Seq::<Seq<char>>::empty());
            }
            diffs.push(d);
        }
        k = k + 1;
    }
    assert(target@.subrange(0, target.len() as int) =~= target@);
    diffs
}

/// A difference in triggers.
#[derive(Debug)]
pub struct TriggerDiff {
    pub diff_type: String,
    pub name: String,
    pub source: Option<TriggerInfo>,
    pub target: Option<TriggerInfo>,
    pub changes: Vec<String>,
}

impl Clone for TriggerDiff {
    fn clone(&self) -> (r: Self)
        ensures
            r@ == self@,
    {
        let source = match &self.source {
            Some(x) => Some(x.clone()),
            None => None,
        };
        let target = match &self.target {
            Some(x) => Some(x.clone()),
            None => None,
        };
        TriggerDiff {
            diff_type: self.diff_type.clone(),
            name: self.name.clone(),
            source,
            target,
            changes: clone_strings(&self.changes),
        }
    }
}

impl View for TriggerDiff {
    type V = ItemDiff<TriggerInfo>;

    open spec fn view(&self) -> ItemDiff<TriggerInfo> {
        ItemDiff {
            diff_type: self.diff_type@,
            name: self.name@,
            source: self.source,
            target: self.target,
            changes: string_views(self.changes@),
        }
    }
}

pub open spec fn trigger_name() -> spec_fn(TriggerInfo) -> Seq<char> {
    |f: TriggerInfo| f.name@
}

/// What differs between a source and a target trigger.
pub open spec fn trigger_changes(s: TriggerInfo, t: TriggerInfo) -> Seq<Seq<char>> {
    line_if(s.event@ != t.event@, change_text("event: "@, t.event@, s.event@)) + line_if(
        s.timing@ != t.timing@,
        change_text("timing: "@, t.timing@, s.timing@),
    )
}

pub open spec fn trigger_changes_fn() -> spec_fn(TriggerInfo, TriggerInfo) -> Seq<Seq<char>> {
    |s: TriggerInfo, t: TriggerInfo| trigger_changes(s, t)
}

fn trigger_changes_exec(s: &TriggerInfo, t: &TriggerInfo) -> (r: Vec<String>)
    ensures
        string_views(r@) == trigger_changes(*s, *t),
{
    let mut r: Vec<String> = Vec::new();
    assert(string_views(r@) =~= Seq::<Seq<char>>::empty());
    push_if(
        &mut r,
        !str_eq(s.event.as_str(), t.event.as_str()),
        change_line("event: ", t.event.as_str(), s.event.as_str()),
    );
    push_if(
        &mut r,
        !str_eq(s.timing.as_str(), t.timing.as_str()),
        change_line("timing: ", t.timing.as_str(), s.timing.as_str()),
    );
    r
}

fn trigger_names(v: &Vec<TriggerInfo>) -> (r: Vec<String>)
    ensures
        string_views(r@) == v@.map_values(trigger_name()),
{
    let mut r: Vec<String> = Vec::new();
    let mut i: usize = 0;
    while i < v.len()
        invariant
            i <= v.len(),
            string_views(r@) == v@.subrange(0, i as int).map_values(trigger_name()),
        decreases v.len() - i,
    {
        let n = v[i].name.clone();
        proof {
            lemma_string_views_push(r@, n);
            lemma_prefix_step(v@, i as int);
            lemma_map_push(v@.subrange(0, i as int), v@[i as int], trigger_name());
        }
        r.push(n);
        i = i + 1;
    }
    assert(v@.subrange(0, v.len() as int) =~= v@);
    r
}

/// The differences between source and target triggers, matched by name.
pub fn diff_triggers(source: &Vec<TriggerInfo>, target: &Vec<TriggerInfo>) -> (r: Vec<TriggerDiff>)
    ensures
        views_of(r@) == keyed_diff(
            source@,
            target@,
            trigger_name(),
            trigger_name(),
            never(),
            trigger_changes_fn(),
        ),
{
    let target_names = trigger_names(target);
    let source_names = trigger_names(source);
    let mut diffs: Vec<TriggerDiff> = Vec::new();
    let mut i: usize = 0;
    while i < source.len()
        invariant
            i <= source.len(),
            string_views(target_names@) == target@.map_values(trigger_name()),
            views_of(diffs@) == source_side(
                source@.subrange(0, i as int),
                target@,
                trigger_name(),
                trigger_name(),
                never(),
                trigger_changes_fn(),
            ),
        decreases source.len() - i,
    {
        proof {
            lemma_prefix_step(source@, i as int);
        }
        let s = &source[i];
        let ghost rest = source_side(source@.subrange(0, i as int), target@, trigger_name(), trigger_name(), never(), trigger_changes_fn());
        let ghost next = source_side(source@.subrange(0, i + 1), target@, trigger_name(), trigger_name(), never(), trigger_changes_fn());
        assert(trigger_name()(*s) == s.name@);
        assert(!never::<TriggerInfo>()(*s));
        match last_position(&target_names, s.name.as_str()) {
            None => {
                assert(next == rest.push(added_item(s.name@, *s)));
                let d = TriggerDiff {
                    diff_type: String::from_str("added"),
                    name: s.name.clone(),
                    source: Some(s.clone()),
                    target: None,
                    changes: Vec::new(),
                };
                proof {
                    lemma_views_push(diffs@, d);
                    assert(string_views(d.changes@) =~= Seq::<Seq<char>>::empty());
                }
                diffs.push(d);
            },
            Some(j) => {
                proof {
                    lemma_last_index_bound(string_views(target_names@), s.name@);
                }
                let t = &target[j];
                let ch = trigger_changes_exec(s, t);
                if ch.len() > 0 {
                    let d = TriggerDiff {
                        diff_type: String::from_str("modified"),
                        name: s.name.clone(),
                        source: Some(s.clone()),
                        target: Some(t.clone()),
                        changes: ch,
                    };
                    proof {
                        lemma_views_push(diffs@, d);
                    }
                    diffs.push(d);
                }
            },
        }
        i = i + 1;
    }
    assert(source@.subrange(0, source.len() as int) =~= source@);
    let ghost src_part = views_of(diffs@);
    let mut k: usize = 0;
    while k < target.len()
        invariant
            k <= target.len(),
            string_views(source_names@) == source@.map_values(trigger_name()),
            views_of(diffs@) == src_part + target_side(
                source@,
                target@.subrange(0, k as int),
                trigger_name(),
                trigger_name(),
                never(),
            ),
        decreases target.len() - k,
    {
        proof {
            lemma_prefix_step(target@, k as int);
        }
        let t = &target[k];
        if last_position(&source_names, t.name.as_str()).is_none() {
            let d = TriggerDiff {
                diff_type: String::from_str("removed"),
                name: t.name.clone(),
                source: None,
                target: Some(t.clone()),
                changes: Vec::new(),
            };
            proof {
                lemma_views_push(diffs@, d);
                assert(string_views(d.changes@) =~= Seq::<Seq<char>>::empty());
            }
            diffs.push(d);
        }
        k = k + 1;
    }
    assert(target@.subrange(0, target.len() as int) =~= target@);
    diffs
}

/// A difference in rules.
#[derive(Debug)]
pub struct RuleDiff {
    pub diff_type: String,
    pub name: String,
    pub source: Option<RuleInfo>,
    pub target: Option<RuleInfo>,
    pub changes: Vec<String>,
}

impl Clone for RuleDiff {
    fn clone(&self) -> (r: Self)
        ensures
            r@ == self@,
    {
        let source = match &self.source {
            Some(x) => Some(x.clone()),
            None => None,
        };
        let target = match &self.target {
            Some(x) => Some(x.clone()),
            None => None,
        };
        RuleDiff {
            diff_type: self.diff_type.clone(),
            name: self.name.clone(),
            source,
            target,
            changes: clone_strings(&self.changes),
        }
    }
}

impl View for RuleDiff {
    type V = ItemDiff<RuleInfo>;

    open spec fn view(&self) -> ItemDiff<RuleInfo> {
        ItemDiff {
            diff_type: self.diff_type@,
            name: self.name@,
            source: self.source,
            target: self.target,
            changes: string_views(self.changes@),
        }
    }
}

pub open spec fn rule_name() -> spec_fn(RuleInfo) -> Seq<char> {
    |f: RuleInfo| f.name@
}

/// What differs between a source and a target rule.
pub open spec fn rule_changes(s: RuleInfo, t: RuleInfo) -> Seq<Seq<char>> {
    line_if(s.definition@ != t.definition@, "definition changed"@)
}

pub open spec fn rule_changes_fn() -> spec_fn(RuleInfo, RuleInfo) -> Seq<Seq<char>> {
    |s: RuleInfo, t: RuleInfo| rule_changes(s, t)
}

fn rule_changes_exec(s: &RuleInfo, t: &RuleInfo) -> (r: Vec<String>)
    ensures
        string_views(r@) == rule_changes(*s, *t),
{
    let mut r: Vec<String> = Vec::new();
    assert(string_views(r@) =~= Seq::<Seq<char>>::empty());
    push_if(
        &mut r,
        !str_eq(s.definition.as_str(), t.definition.as_str()),
        String::from_str("definition changed"),
    );
    r
}

fn rule_names(v: &Vec<RuleInfo>) -> (r: Vec<String>)
    ensures
        string_views(r@) == v@.map_values(rule_name()),
{
    let mut r: Vec<String> = Vec::new();
    let mut i: usize = 0;
    while i < v.len()
        invariant
            i <= v.len(),
            string_views(r@) == v@.subrange(0, i as int).map_values(rule_name()),
        decreases v.len() - i,
    {
        let n = v[i].name.clone();
        proof {
            lemma_string_views_push(r@, n);
            lemma_prefix_step(v@, i as int);
            lemma_map_push(v@.subrange(0, i as int), v@[i as int], rule_name());
        }
        r.push(n);
        i = i + 1;
    }
    assert(v@.subrange(0, v.len() as int) =~= v@);
    r
}

/// The differences between source and target rules, matched by name.
pub fn diff_rules(source: &Vec<RuleInfo>, target: &Vec<RuleInfo>) -> (r: Vec<RuleDiff>)
    ensures
        views_of(r@) == keyed_diff(
            source@,
            target@,
            rule_name(),
            rule_name(),
            never(),
            rule_changes_fn(),
        ),
{
    let target_names = rule_names(target);
    let source_names = rule_names(source);
    let mut diffs: Vec<RuleDiff> = Vec::new();
    let mut i: usize = 0;
    while i < source.len()
        invariant
            i <= source.len(),
            string_views(target_names@) == target@.map_values(rule_name()),
            views_of(diffs@) == source_side(
                source@.subrange(0, i as int),
                target@,
                rule_name(),
                rule_name(),
                never(),
                rule_changes_fn(),
            ),
        decreases source.len() - i,
    {
        proof {
            lemma_prefix_step(source@, i as int);
        }
        let s = &source[i];
        let ghost rest = source_side(source@.subrange(0, i as int), target@, rule_name(), rule_name(), never(), rule_changes_fn());
        let ghost next = source_side(source@.subrange(0, i + 1), target@, rule_name(), rule_name(), never(), rule_changes_fn());
        assert(rule_name()(*s) == s.name@);
        assert(!never::<RuleInfo>()(*s));
        match last_position(&target_names, s.name.as_str()) {
            None => {
                assert(next == rest.push(added_item(s.name@, *s)));
                let d = RuleDiff {
                    diff_type: String::from_str("added"),
                    name: s.name.clone(),
                    source: Some(s.clone()),
                    target: None,
                    changes: Vec::new(),
                };
                proof {
                    lemma_views_push(diffs@, d);
                    assert(string_views(d.changes@) =~= Seq::<Seq<char>>::empty());
                }
                diffs.push(d);
            },
            Some(j) => {
                proof {
                    lemma_last_index_bound(string_views(target_names@), s.name@);
                }
                let t = &target[j];
                let ch = rule_changes_exec(s, t);
                if ch.len() > 0 {
                    let d = RuleDiff {
                        diff_type: String::from_str("modified"),
                        name: s.name.clone(),
                        source: Some(s.clone()),
                        target: Some(t.clone()),
                        changes: ch,
                    };
                    proof {
                        lemma_views_push(diffs@, d);
                    }
                    diffs.push(d);
                }
            },
        }
        i = i + 1;
    }
    assert(source@.subrange(0, source.len() as int) =~= source@);
    let ghost src_part = views_of(diffs@);
    let mut k: usize = 0;
    while k < target.len()
        invariant
            k <= target.len(),
            string_views(source_names@) == source@.map_values(rule_name()),
            views_of(diffs@) == src_part + target_side(
                source@,
                target@.subrange(0, k as int),
                rule_name(),
                rule_name(),
                never(),
            ),
        decreases target.len() - k,
    {
        proof {
            lemma_prefix_step(target@, k as int);
        }
        let t = &target[k];
        if last_position(&source_names, t.name.as_str()).is_none() {
            let d = RuleDiff {
                diff_type: String::from_str("removed"),
                name: t.name.clone(),
                source: None,
                target: Some(t.clone()),
                changes: Vec::new(),
            };
            proof {
                lemma_views_push(diffs@, d);
                assert(string_views(d.changes@) =~= Seq::<Seq<char>>::empty());
            }
            diffs.push(d);
        }
        k = k + 1;
    }
    assert(target@.subrange(0, target.len() as int) =~= target@);
    diffs
}

/// A difference in sequences.
#[derive(Debug)]
pub struct SequenceDiff {
    pub diff_type: String,
    pub name: String,
    pub source: Option<SequenceInfo>,
    pub target: Option<SequenceInfo>,
    pub changes: Vec<String>,
}

impl Clone for SequenceDiff {
    fn clone(&self) -> (r: Self)
        ensures
            r@ == self@,
    {
        let source = match &self.source {
            Some(x) => Some(x.clone()),
            None => None,
        };
        let target = match &self.target {
            Some(x) => Some(x.clone()),
            None => None,
        };
        SequenceDiff {
            diff_type: self.diff_type.clone(),
            name: self.name.clone(),
            source,
            target,
            changes: clone_strings(&self.changes),
        }
    }
}

impl View for SequenceDiff {
    type V = ItemDiff<SequenceInfo>;

    open spec fn view(&self) -> ItemDiff<SequenceInfo> {
        ItemDiff {
            diff_type: self.diff_type@,
            name: self.name@,
            source: self.source,
            target: self.target,
            changes: string_views(self.changes@),
        }
    }
}

pub open spec fn sequence_name() -> spec_fn(SequenceInfo) -> Seq<char> {
    |f: SequenceInfo| f.name@
}

/// `true` or `false`, as a flag is printed.
pub open spec fn bool_text(b: bool) -> Seq<char> {
    if b {
        "true"@
    } else {
        "false"@
    }
}

fn bool_str(b: bool) -> (r: &'static str)
    ensures
        r@ == bool_text(b),
{
    if b {
        "true"
    } else {
        "false"
    }
}

/// What differs between a source and a target sequence. The last values are
/// compared only when both are known.
pub open spec fn sequence_changes(s: SequenceInfo, t: SequenceInfo) -> Seq<Seq<char>> {
    line_if(s.data_type@ != t.data_type@, change_text("data_type: "@, t.data_type@, s.data_type@)) + line_if(
        s.start_value@ != t.start_value@,
        change_text("start: "@, t.start_value@, s.start_value@),
    ) + line_if(s.min_value@ != t.min_value@, change_text("min: "@, t.min_value@, s.min_value@)) + line_if(
        s.max_value@ != t.max_value@,
        change_text("max: "@, t.max_value@, s.max_value@),
    ) + line_if(s.increment@ != t.increment@, change_text("increment: "@, t.increment@, s.increment@)) + line_if(
        s.cycle != t.cycle,
        change_text("cycle: "@, bool_text(t.cycle), bool_text(s.cycle)),
    ) + match (s.last_value, t.last_value) {
        (Some(a), Some(b)) => line_if(a@ != b@, change_text("last_value: "@, b@, a@)),
        _ => Seq::empty(),
    }
}

pub open spec fn sequence_changes_fn() -> spec_fn(SequenceInfo, SequenceInfo) -> Seq<Seq<char>> {
    |s: SequenceInfo, t: SequenceInfo| sequence_changes(s, t)
}

fn sequence_changes_exec(s: &SequenceInfo, t: &SequenceInfo) -> (r: Vec<String>)
    ensures
        string_views(r@) == sequence_changes(*s, *t),
{
    let mut r: Vec<String> = Vec::new();
    assert(string_views(r@) =~= Seq::<Seq<char>>::empty());
    push_if(
        &mut r,
        !str_eq(s.data_type.as_str(), t.data_type.as_str()),
        change_line("data_type: ", t.data_type.as_str(), s.data_type.as_str()),
    );
    push_if(
        &mut r,
        !str_eq(s.start_value.as_str(), t.start_value.as_str()),
        change_line("start: ", t.start_value.as_str(), s.start_value.as_str()),
    );
    push_if(
        &mut r,
        !str_eq(s.min_value.as_str(), t.min_value.as_str()),
        change_line("min: ", t.min_value.as_str(), s.min_value.as_str()),
    );
    push_if(
        &mut r,
        !str_eq(s.max_value.as_str(), t.max_value.as_str()),
        change_line("max: ", t.max_value.as_str(), s.max_value.as_str()),
    );
    push_if(
        &mut r,
        !str_eq(s.increment.as_str(), t.increment.as_str()),
        change_line("increment: ", t.increment.as_str(), s.increment.as_str()),
    );
    push_if(&mut r, s.cycle != t.cycle, change_line("cycle: ", bool_str(t.cycle), bool_str(s.cycle)));
    match (&s.last_value, &t.last_value) {
        (Some(a), Some(b)) => {
            push_if(&mut r, !str_eq(a.as_str(), b.as_str()), change_line("last_value: ", b.as_str(), a.as_str()));
        },
        _ => {
            assert(string_views(r@) =~= string_views(r@) + Seq::<Seq<char>>::empty());
        },
    }
    r
}

fn sequence_names(v: &Vec<SequenceInfo>) -> (r: Vec<String>)
    ensures
        string_views(r@) == v@.map_values(sequence_name()),
{
    let mut r: Vec<String> = Vec::new();
    let mut i: usize = 0;
    while i < v.len()
        invariant
            i <= v.len(),
            string_views(r@) == v@.subrange(0, i as int).map_values(sequence_name()),
        decreases v.len() - i,
    {
        let n = v[i].name.clone();
        proof {
            lemma_string_views_push(r@, n);
            lemma_prefix_step(v@, i as int);
            lemma_map_push(v@.subrange(0, i as int), v@[i as int], sequence_name());
        }
        r.push(n);
        i = i + 1;
    }
    assert(v@.subrange(0, v.len() as int) =~= v@);
    r
}

/// The differences between source and target sequences, matched by name.
pub fn diff_sequences(source: &Vec<SequenceInfo>, target: &Vec<SequenceInfo>) -> (r: Vec<SequenceDiff>)
    ensures
        views_of(r@) == keyed_diff(
            source@,
            target@,
            sequence_name(),
            sequence_name(),
            never(),
            sequence_changes_fn(),
        ),
{
    let target_names = sequence_names(target);
    let source_names = sequence_names(source);
    let mut diffs: Vec<SequenceDiff> = Vec::new();
    let mut i: usize = 0;
    while i < source.len()
        invariant
            i <= source.len(),
            string_views(target_names@) == target@.map_values(sequence_name()),
            views_of(diffs@) == source_side(
                source@.subrange(0, i as int),
                target@,
                sequence_name(),
                sequence_name(),
                never(),
                sequence_changes_fn(),
            ),
        decreases source.len() - i,
    {
        proof {
            lemma_prefix_step(source@, i as int);
        }
        let s = &source[i];
        let ghost rest = source_side(source@.subrange(0, i as int), target@, sequence_name(), sequence_name(), never(), sequence_changes_fn());
        let ghost next = source_side(source@.subrange(0, i + 1), target@, sequence_name(), sequence_name(), never(), sequence_changes_fn());
        assert(sequence_name()(*s) == s.name@);
        assert(!never::<SequenceInfo>()(*s));
        match last_position(&target_names, s.name.as_str()) {
            None => {
                assert(next == rest.push(added_item(s.name@, *s)));
                let d = SequenceDiff {
                    diff_type: String::from_str("added"),
                    name: s.name.clone(),
                    source: Some(s.clone()),
                    target: None,
                    changes: Vec::new(),
                };
                proof {
                    lemma_views_push(diffs@, d);
                    assert(string_views(d.changes@) =~= Seq::<Seq<char>>::empty());
                }
                diffs.push(d);
            },
            Some(j) => {
                proof {
                    lemma_last_index_bound(string_views(target_names@), s.name@);
                }
                let t = &target[j];
                let ch = sequence_changes_exec(s, t);
                if ch.len() > 0 {
                    let d = SequenceDiff {
                        diff_type: String::from_str("modified"),
                        name: s.name.clone(),
                        source: Some(s.clone()),
                        target: Some(t.clone()),
                        changes: ch,
                    };
                    proof {
                        lemma_views_push(diffs@, d);
                    }
                    diffs.push(d);
                }
            },
        }
        i = i + 1;
    }
    assert(source@.subrange(0, source.len() as int) =~= source@);
    let ghost src_part = views_of(diffs@);
    let mut k: usize = 0;
    while k < target.len()
        invariant
            k <= target.len(),
            string_views(source_names@) == source@.map_values(sequence_name()),
            views_of(diffs@) == src_part + target_side(
                source@,
                target@.subrange(0, k as int),
                sequence_name(),
                sequence_name(),
                never(),
            ),
        decreases target.len() - k,
    {
        proof {
            lemma_prefix_step(target@, k as int);
        }
        let t = &target[k];
        if last_position(&source_names, t.name.as_str()).is_none() {
            let d = SequenceDiff {
                diff_type: String::from_str("removed"),
                name: t.name.clone(),
                source: None,
                target: Some(t.clone()),
                changes: Vec::new(),
            };
            proof {
                lemma_views_push(diffs@, d);
                assert(string_views(d.changes@) =~= Seq::<Seq<char>>::empty());
            }
            diffs.push(d);
        }
        k = k + 1;
    }
    assert(target@.subrange(0, target.len() as int) =~= target@);
    diffs
}


// ---------------------------------------------------------------------------
// Indexes
// ---------------------------------------------------------------------------

/// A difference in indexes.
#[derive(Debug)]
pub struct IndexDiff {
    pub diff_type: String,
    pub name: String,
    pub source: Option<IndexInfo>,
    pub target: Option<IndexInfo>,
    pub changes: Vec<String>,
}

pub open spec fn opt_index(o: Option<IndexInfo>) -> Option<IndexView> {
    match o {
        Some(i) => Some(i@),
        None => None,
    }
}

impl Clone for IndexDiff {
    fn clone(&self) -> (r: Self)
        ensures
            r@ == self@,
    {
        let source = match &self.source {
            Some(x) => Some(x.clone()),
            None => None,
        };
        let target = match &self.target {
            Some(x) => Some(x.clone()),
            None => None,
        };
        IndexDiff {
            diff_type: self.diff_type.clone(),
            name: self.name.clone(),
            source,
            target,
            changes: clone_strings(&self.changes),
        }
    }
}

impl View for IndexDiff {
    type V = ItemDiff<IndexView>;

    open spec fn view(&self) -> ItemDiff<IndexView> {
        ItemDiff {
            diff_type: self.diff_type@,
            name: self.name@,
            source: opt_index(self.source),
            target: opt_index(self.target),
            changes: string_views(self.changes@),
        }
    }
}

pub open spec fn index_name() -> spec_fn(IndexView) -> Seq<char> {
    |i: IndexView| i.name
}

pub open spec fn index_is_primary() -> spec_fn(IndexView) -> bool {
    |i: IndexView| i.is_primary
}

/// `YES` or `NO`.
pub open spec fn yes_no(b: bool) -> Seq<char> {
    if b {
        "YES"@
    } else {
        "NO"@
    }
}

fn yes_no_str(b: bool) -> (r: &'static str)
    ensures
        r@ == yes_no(b),
{
    if b {
        "YES"
    } else {
        "NO"
    }
}

pub open spec fn or_list(o: Option<Seq<Seq<char>>>) -> Seq<Seq<char>> {
    match o {
        Some(v) => v,
        None => Seq::empty(),
    }
}

/// A column list as shown in a change line: the names, or `none`.
pub open spec fn list_or_none(v: Seq<Seq<char>>) -> Seq<char> {
    if v.len() == 0 {
        "none"@
    } else {
        join_seq(v, ", "@)
    }
}

/// What differs between a source and a target index.
pub open spec fn index_changes(s: IndexView, t: IndexView) -> Seq<Seq<char>> {
    let si = or_list(s.included_columns);
    let ti = or_list(t.included_columns);
    line_if(s.is_unique != t.is_unique, change_text("unique: "@, yes_no(t.is_unique), yes_no(s.is_unique)))
        + line_if(
        join_seq(s.columns, ","@) != join_seq(t.columns, ","@),
        change_text("columns: "@, join_seq(t.columns, ", "@), join_seq(s.columns, ", "@)),
    ) + line_if(
        or_text(s.index_type, ""@) != or_text(t.index_type, ""@),
        change_text("type: "@, or_text(t.index_type, "default"@), or_text(s.index_type, "default"@)),
    ) + line_if(
        or_text(s.filter, ""@) != or_text(t.filter, ""@),
        change_text("filter: "@, or_text(t.filter, "none"@), or_text(s.filter, "none"@)),
    ) + line_if(
        join_seq(si, ","@) != join_seq(ti, ","@),
        change_text("include: "@, list_or_none(ti), list_or_none(si)),
    )
}

pub open spec fn index_changes_fn() -> spec_fn(IndexView, IndexView) -> Seq<Seq<char>> {
    |s: IndexView, t: IndexView| index_changes(s, t)
}

fn included_of(i: &IndexInfo) -> (r: Vec<String>)
    ensures
        string_views(r@) == or_list(i@.included_columns),
{
    match &i.included_columns {
        Some(v) => clone_strings(v),
        None => {
            let r: Vec<String> = Vec::new();
            assert(string_views(r@) =~= Seq::<Seq<char>>::empty());
            r
        },
    }
}

fn list_or_none_exec(v: &Vec<String>) -> (r: String)
    ensures
        r@ == list_or_none(string_views(v@)),
{
    if v.len() == 0 {
        String::from_str("none")
    } else {
        join_strings(v.as_slice(), ", ")
    }
}

fn index_changes_exec(s: &IndexInfo, t: &IndexInfo) -> (r: Vec<String>)
    ensures
        string_views(r@) == index_changes(s@, t@),
{
    let mut r: Vec<String> = Vec::new();
    assert(string_views(r@) =~= Seq::<Seq<char>>::empty());
    push_if(
        &mut r,
        s.is_unique != t.is_unique,
        change_line("unique: ", yes_no_str(t.is_unique), yes_no_str(s.is_unique)),
    );
    let sc = join_strings(s.columns.as_slice(), ",");
    let tc = join_strings(t.columns.as_slice(), ",");
    let sc2 = join_strings(s.columns.as_slice(), ", ");
    let tc2 = join_strings(t.columns.as_slice(), ", ");
    push_if(&mut r, !str_eq(sc.as_str(), tc.as_str()), change_line("columns: ", tc2.as_str(), sc2.as_str()));
    push_if(
        &mut r,
        !str_eq(or_str(&s.index_type, ""), or_str(&t.index_type, "")),
        change_line("type: ", or_str(&t.index_type, "default"), or_str(&s.index_type, "default")),
    );
    push_if(
        &mut r,
        !str_eq(or_str(&s.filter, ""), or_str(&t.filter, "")),
        change_line("filter: ", or_str(&t.filter, "none"), or_str(&s.filter, "none")),
    );
    let si = included_of(s);
    let ti = included_of(t);
    let sj = join_strings(si.as_slice(), ",");
    let tj = join_strings(ti.as_slice(), ",");
    let sn = list_or_none_exec(&si);
    let tn = list_or_none_exec(&ti);
    push_if(&mut r, !str_eq(sj.as_str(), tj.as_str()), change_line("include: ", tn.as_str(), sn.as_str()));
    r
}

fn index_names(v: &Vec<IndexInfo>) -> (r: Vec<String>)
    ensures
        string_views(r@) == views_of(v@).map_values(index_name()),
{
    let mut r: Vec<String> = Vec::new();
    let mut i: usize = 0;
    while i < v.len()
        invariant
            i <= v.len(),
            string_views(r@) == views_of(v@).subrange(0, i as int).map_values(index_name()),
        decreases v.len() - i,
    {
        let n = v[i].name.clone();
        proof {
            lemma_string_views_push(r@, n);
            lemma_prefix_step(views_of(v@), i as int);
            lemma_map_push(views_of(v@).subrange(0, i as int), views_of(v@)[i as int], index_name());
        }
        r.push(n);
        i = i + 1;
    }
    assert(views_of(v@).subrange(0, v.len() as int) =~= views_of(v@));
    r
}

/// The differences between source and target indexes, matched by name;
/// primary keys are left out.
pub fn diff_indexes(source: &Vec<IndexInfo>, target: &Vec<IndexInfo>) -> (r: Vec<IndexDiff>)
    ensures
        views_of(r@) == keyed_diff(
            views_of(source@),
            views_of(target@),
            index_name(),
            index_name(),
            index_is_primary(),
            index_changes_fn(),
        ),
{
    let ghost sv = views_of(source@);
    let ghost tv = views_of(target@);
    let target_names = index_names(target);
    let source_names = index_names(source);
    let mut diffs: Vec<IndexDiff> = Vec::new();
    let mut i: usize = 0;
    while i < source.len()
        invariant
            i <= source.len(),
            sv == views_of(source@),
            tv == views_of(target@),
            string_views(target_names@) == tv.map_values(index_name()),
            views_of(diffs@) == source_side(
                sv.subrange(0, i as int),
                tv,
                index_name(),
                index_name(),
                index_is_primary(),
                index_changes_fn(),
            ),
        decreases source.len() - i,
    {
        proof {
            lemma_prefix_step(sv, i as int);
        }
        let s = &source[i];
        assert(sv[i as int] == s@);
        if !s.is_primary {
            match last_position(&target_names, s.name.as_str()) {
                None => {
                    let d = IndexDiff {
                        diff_type: String::from_str("added"),
                        name: s.name.clone(),
                        source: Some(s.clone()),
                        target: None,
                        changes: Vec::new(),
                    };
                    proof {
                        lemma_views_push(diffs@, d);
                        assert(string_views(d.changes@) =~= Seq::<Seq<char>>::empty());
                    }
                    diffs.push(d);
                },
                Some(j) => {
                    proof {
                        lemma_last_index_bound(string_views(target_names@), s.name@);
                    }
                    let t = &target[j];
                    assert(tv[j as int] == t@);
                    let ch = index_changes_exec(s, t);
                    if ch.len() > 0 {
                        let d = IndexDiff {
                            diff_type: String::from_str("modified"),
                            name: s.name.clone(),
                            source: Some(s.clone()),
                            target: Some(t.clone()),
                            changes: ch,
                        };
                        proof {
                            lemma_views_push(diffs@, d);
                        }
                        diffs.push(d);
                    }
                },
            }
        }
        i = i + 1;
    }
    assert(sv.subrange(0, source.len() as int) =~= sv);
    let ghost src_part = views_of(diffs@);
    let mut k: usize = 0;
    while k < target.len()
        invariant
            k <= target.len(),
            sv == views_of(source@),
            tv == views_of(target@),
            string_views(source_names@) == sv.map_values(index_name()),
            views_of(diffs@) == src_part + target_side(
                sv,
                tv.subrange(0, k as int),
                index_name(),
                index_name(),
                index_is_primary(),
            ),
        decreases target.len() - k,
    {
        proof {
            lemma_prefix_step(tv, k as int);
        }
        let t = &target[k];
        assert(tv[k as int] == t@);
        if !t.is_primary && last_position(&source_names, t.name.as_str()).is_none() {
            let d = IndexDiff {
                diff_type: String::from_str("removed"),
                name: t.name.clone(),
                source: None,
                target: Some(t.clone()),
                changes: Vec::new(),
            };
            proof {
                lemma_views_push(diffs@, d);
                assert(string_views(d.changes@) =~= Seq::<Seq<char>>::empty());
            }
            diffs.push(d);
        }
        k = k + 1;
    }
    assert(tv.subrange(0, target.len() as int) =~= tv);
    diffs
}


// ---------------------------------------------------------------------------
// Functions and procedures
// ---------------------------------------------------------------------------

/// The characters Unicode gives the White_Space property, which is what
/// `char::is_whitespace` tests.
pub open spec fn is_white_space(c: char) -> bool {
    ||| ('\u{9}' <= c && c <= '\u{d}')
    ||| c == ' '
    ||| c == '\u{85}'
    ||| c == '\u{a0}'
    ||| c == '\u{1680}'
    ||| ('\u{2000}' <= c && c <= '\u{200a}')
    ||| c == '\u{2028}'
    ||| c == '\u{2029}'
    ||| c == '\u{202f}'
    ||| c == '\u{205f}'
    ||| c == '\u{3000}'
}

pub fn is_white_space_exec(c: char) -> (r: bool)
    ensures
        r == is_white_space(c),
{
    ('\u{9}' <= c && c <= '\u{d}') || c == ' ' || c == '\u{85}' || c == '\u{a0}' || c == '\u{1680}' || ('\u{2000}'
        <= c && c <= '\u{200a}') || c == '\u{2028}' || c == '\u{2029}' || c == '\u{202f}' || c == '\u{205f}' || c
        == '\u{3000}'
}

/// What has been written after reading part of a definition, whether the
/// current line already holds a word, and whether white space followed it.
pub struct NormalizeState {
    pub out: Seq<char>,
    pub word_in_line: bool,
    pub gap: bool,
}

/// Reads `s` line by line (lines end at `\n`): each line becomes its words
/// (maximal runs of non-white-space characters) separated by single spaces,
/// and the line breaks are kept.
pub open spec fn normalize_state(s: Seq<char>) -> NormalizeState
    decreases s.len(),
{
    if s.len() == 0 {
        NormalizeState { out: Seq::empty(), word_in_line: false, gap: false }
    } else {
        let st = normalize_state(s.drop_last());
        let c = s.last();
        if c == '\n' {
            NormalizeState { out: st.out.push('\n'), word_in_line: false, gap: false }
        } else if is_white_space(c) {
            NormalizeState { gap: true, ..st }
        } else if st.word_in_line && st.gap {
            NormalizeState { out: st.out.push(' ').push(c), word_in_line: true, gap: false }
        } else {
            NormalizeState { out: st.out.push(c), word_in_line: true, gap: false }
        }
    }
}

/// A definition with line endings unified and white space inside each line
/// collapsed to single spaces between words.
pub open spec fn normalized_definition(s: Seq<char>) -> Seq<char> {
    normalize_state(s).out
}

/// Normalizes a function definition for comparison: CRLF becomes LF, each
/// line keeps only its words, separated by single spaces.
pub fn normalize_definition(def: &str) -> (r: String)
    ensures
        r@ == normalized_definition(def@),
{
    let cs = chars_of(def);
    let mut out = String::new();
    let mut word_in_line = false;
    let mut gap = false;
    let mut i: usize = 0;
    while i < cs.len()
        invariant
            i <= cs.len(),
            cs@ == def@,
            normalize_state(def@.subrange(0, i as int)) == (NormalizeState { out: out@, word_in_line, gap }),
        decreases cs.len() - i,
    {
        proof {
            lemma_prefix_step(def@, i as int);
        }
        let c = cs[i];
        if c == '\n' {
            push_char(&mut out, '\n');
            word_in_line = false;
            gap = false;
        } else if is_white_space_exec(c) {
            gap = true;
        } else {
            if word_in_line && gap {
                push_char(&mut out, ' ');
            }
            push_char(&mut out, c);
            word_in_line = true;
            gap = false;
        }
        i = i + 1;
    }
    assert(def@.subrange(0, cs.len() as int) =~= def@);
    out
}

/// The number of line breaks in `s`.
pub open spec fn line_breaks(s: Seq<char>) -> nat
    decreases s.len(),
{
    if s.len() == 0 {
        0
    } else {
        line_breaks(s.drop_last()) + if s.last() == '\n' {
            1nat
        } else {
            0nat
        }
    }
}

proof fn lemma_push_last(s: Seq<char>, c: char)
    ensures
        s.push(c).drop_last() == s,
        s.push(c).last() == c,
        s.push(c).len() > 0,
{
    assert(s.push(c).drop_last() =~= s);
}

proof fn lemma_normalize_again(s: Seq<char>)
    ensures
        normalize_state(normalize_state(s).out) == (NormalizeState {
            out: normalize_state(s).out,
            word_in_line: normalize_state(s).word_in_line,
            gap: false,
        }),
    decreases s.len(),
{
    if s.len() > 0 {
        lemma_normalize_again(s.drop_last());
        let st = normalize_state(s.drop_last());
        let o = st.out;
        let c = s.last();
        assert(normalize_state(o) == (NormalizeState { out: o, word_in_line: st.word_in_line, gap: false }));
        if c == '\n' {
            lemma_push_last(o, '\n');
            assert(normalize_state(s).out == o.push('\n'));
            assert(normalize_state(o.push('\n')) == (NormalizeState { out: o.push('\n'), word_in_line: false, gap: false }));
        } else if is_white_space(c) {
            assert(normalize_state(s) == (NormalizeState { gap: true, ..st }));
        } else if st.word_in_line && st.gap {
            lemma_push_last(o, ' ');
            lemma_push_last(o.push(' '), c);
            assert(is_white_space(' '));
            assert(normalize_state(s).out == o.push(' ').push(c));
            assert(normalize_state(o.push(' ')) == (NormalizeState { out: o, word_in_line: true, gap: true }));
            assert(normalize_state(o.push(' ').push(c)) == (NormalizeState {
                out: o.push(' ').push(c),
                word_in_line: true,
                gap: false,
            }));
        } else {
            lemma_push_last(o, c);
            assert(normalize_state(s).out == o.push(c));
            assert(normalize_state(o.push(c)) == (NormalizeState { out: o.push(c), word_in_line: true, gap: false }));
        }
    }
}

/// Normalizing a definition a second time changes nothing.
pub proof fn law_normalize_definition_is_idempotent(s: Seq<char>)
    ensures
        normalized_definition(normalized_definition(s)) == normalized_definition(s),
{
    lemma_normalize_again(s);
}

/// Normalizing a definition keeps its lines: the output has as many line
/// breaks as the input.
pub proof fn law_normalize_definition_keeps_lines(s: Seq<char>)
    ensures
        line_breaks(normalized_definition(s)) == line_breaks(s),
    decreases s.len(),
{
    if s.len() > 0 {
        law_normalize_definition_keeps_lines(s.drop_last());
        let st = normalize_state(s.drop_last());
        let o = st.out;
        let c = s.last();
        assert(line_breaks(s) == line_breaks(s.drop_last()) + if c == '\n' {
            1nat
        } else {
            0nat
        });
        if c == '\n' {
            lemma_push_last(o, '\n');
            assert(normalized_definition(s) == o.push('\n'));
            assert(line_breaks(o.push('\n')) == line_breaks(o) + 1);
        } else if is_white_space(c) {
            assert(normalized_definition(s) == o);
        } else if st.word_in_line && st.gap {
            lemma_push_last(o, ' ');
            lemma_push_last(o.push(' '), c);
            assert(normalized_definition(s) == o.push(' ').push(c));
            assert(line_breaks(o.push(' ')) == line_breaks(o));
            assert(line_breaks(o.push(' ').push(c)) == line_breaks(o.push(' ')));
        } else {
            lemma_push_last(o, c);
            assert(normalized_definition(s) == o.push(c));
            assert(line_breaks(o.push(c)) == line_breaks(o));
        }
    }
}

/// A difference in functions or procedures.
#[derive(Debug)]
pub struct FunctionDiff {
    pub diff_type: String,
    pub name: String,
    pub source: Option<FunctionInfo>,
    pub target: Option<FunctionInfo>,
    pub changes: Vec<String>,
}

impl Clone for FunctionDiff {
    fn clone(&self) -> (r: Self)
        ensures
            r@ == self@,
    {
        let source = match &self.source {
            Some(x) => Some(x.clone()),
            None => None,
        };
        let target = match &self.target {
            Some(x) => Some(x.clone()),
            None => None,
        };
        FunctionDiff {
            diff_type: self.diff_type.clone(),
            name: self.name.clone(),
            source,
            target,
            changes: clone_strings(&self.changes),
        }
    }
}

impl View for FunctionDiff {
    type V = ItemDiff<FunctionInfo>;

    open spec fn view(&self) -> ItemDiff<FunctionInfo> {
        ItemDiff {
            diff_type: self.diff_type@,
            name: self.name@,
            source: self.source,
            target: self.target,
            changes: string_views(self.changes@),
        }
    }
}

/// Functions are matched by name and argument list, so that overloads are
/// told apart.
pub open spec fn function_key() -> spec_fn(FunctionInfo) -> (Seq<char>, Seq<char>) {
    |f: FunctionInfo| (f.name@, f.arguments@)
}

pub open spec fn function_name() -> spec_fn(FunctionInfo) -> Seq<char> {
    |f: FunctionInfo| f.name@
}

/// What differs between a source and a target function.
pub open spec fn function_changes(s: FunctionInfo, t: FunctionInfo) -> Seq<Seq<char>> {
    line_if(s.function_type@ != t.function_type@, change_text("type: "@, t.function_type@, s.function_type@))
        + line_if(s.data_type@ != t.data_type@, change_text("return type: "@, t.data_type@, s.data_type@))
        + line_if(
        normalized_definition(s.definition@) != normalized_definition(t.definition@),
        "definition changed"@,
    )
}

pub open spec fn function_changes_fn() -> spec_fn(FunctionInfo, FunctionInfo) -> Seq<Seq<char>> {
    |s: FunctionInfo, t: FunctionInfo| function_changes(s, t)
}

fn function_changes_exec(s: &FunctionInfo, t: &FunctionInfo) -> (r: Vec<String>)
    ensures
        string_views(r@) == function_changes(*s, *t),
{
    let mut r: Vec<String> = Vec::new();
    assert(string_views(r@) =~= Seq::<Seq<char>>::empty());
    push_if(
        &mut r,
        !str_eq(s.function_type.as_str(), t.function_type.as_str()),
        change_line("type: ", t.function_type.as_str(), s.function_type.as_str()),
    );
    push_if(
        &mut r,
        !str_eq(s.data_type.as_str(), t.data_type.as_str()),
        change_line("return type: ", t.data_type.as_str(), s.data_type.as_str()),
    );
    let sn = normalize_definition(s.definition.as_str());
    let tn = normalize_definition(t.definition.as_str());
    push_if(&mut r, !str_eq(sn.as_str(), tn.as_str()), String::from_str("definition changed"));
    r
}

fn function_keys(v: &Vec<FunctionInfo>) -> (r: (Vec<String>, Vec<String>))
    ensures
        r.0.len() == r.1.len(),
        pairs(r.0@, r.1@) == v@.map_values(function_key()),
{
    let mut names: Vec<String> = Vec::new();
    let mut args: Vec<String> = Vec::new();
    let mut i: usize = 0;
    while i < v.len()
        invariant
            i <= v.len(),
            names.len() == i,
            args.len() == i,
            forall|j: int| 0 <= j < i ==> #[trigger] names@[j]@ == v@[j].name@ && args@[j]@ == v@[j].arguments@,
        decreases v.len() - i,
    {
        let ghost old_names = names@;
        let ghost old_args = args@;
        names.push(v[i].name.clone());
        args.push(v[i].arguments.clone());
        assert forall|j: int| 0 <= j < i + 1 implies #[trigger] names@[j]@ == v@[j].name@ && args@[j]@
            == v@[j].arguments@ by {
            if j < i {
                assert(names@[j] == old_names[j]);
                assert(args@[j] == old_args[j]);
            }
        }
        i = i + 1;
    }
    assert(pairs(names@, args@) =~= v@.map_values(function_key()));
    (names, args)
}

/// The differences between source and target functions, matched by name and
/// argument list; definitions are compared after normalization.
pub fn diff_functions(source: &Vec<FunctionInfo>, target: &Vec<FunctionInfo>) -> (r: Vec<FunctionDiff>)
    ensures
        views_of(r@) == keyed_diff(
            source@,
            target@,
            function_key(),
            function_name(),
            never(),
            function_changes_fn(),
        ),
{
    let (tn, ta) = function_keys(target);
    let (sn, sa) = function_keys(source);
    let mut diffs: Vec<FunctionDiff> = Vec::new();
    let mut i: usize = 0;
    while i < source.len()
        invariant
            i <= source.len(),
            tn.len() == ta.len(),
            pairs(tn@, ta@) == target@.map_values(function_key()),
            views_of(diffs@) == source_side(
                source@.subrange(0, i as int),
                target@,
                function_key(),
                function_name(),
                never(),
                function_changes_fn(),
            ),
        decreases source.len() - i,
    {
        proof {
            lemma_prefix_step(source@, i as int);
        }
        let s = &source[i];
        assert(function_key()(*s) == (s.name@, s.arguments@));
        match last_position2(&tn, &ta, s.name.as_str(), s.arguments.as_str()) {
            None => {
                let d = FunctionDiff {
                    diff_type: String::from_str("added"),
                    name: s.name.clone(),
                    source: Some(s.clone()),
                    target: None,
                    changes: Vec::new(),
                };
                proof {
                    lemma_views_push(diffs@, d);
                    assert(string_views(d.changes@) =~= Seq::<Seq<char>>::empty());
                }
                diffs.push(d);
            },
            Some(j) => {
                proof {
                    lemma_last_index_bound(pairs(tn@, ta@), (s.name@, s.arguments@));
                }
                let t = &target[j];
                let ch = function_changes_exec(s, t);
                if ch.len() > 0 {
                    let d = FunctionDiff {
                        diff_type: String::from_str("modified"),
                        name: s.name.clone(),
                        source: Some(s.clone()),
                        target: Some(t.clone()),
                        changes: ch,
                    };
                    proof {
                        lemma_views_push(diffs@, d);
                    }
                    diffs.push(d);
                }
            },
        }
        i = i + 1;
    }
    assert(source@.subrange(0, source.len() as int) =~= source@);
    let ghost src_part = views_of(diffs@);
    let mut k: usize = 0;
    while k < target.len()
        invariant
            k <= target.len(),
            sn.len() == sa.len(),
            pairs(sn@, sa@) == source@.map_values(function_key()),
            views_of(diffs@) == src_part + target_side(
                source@,
                target@.subrange(0, k as int),
                function_key(),
                function_name(),
                never(),
            ),
        decreases target.len() - k,
    {
        proof {
            lemma_prefix_step(target@, k as int);
        }
        let t = &target[k];
        assert(function_key()(*t) == (t.name@, t.arguments@));
        if last_position2(&sn, &sa, t.name.as_str(), t.arguments.as_str()).is_none() {
            let d = FunctionDiff {
                diff_type: String::from_str("removed"),
                name: t.name.clone(),
                source: None,
                target: Some(t.clone()),
                changes: Vec::new(),
            };
            proof {
                lemma_views_push(diffs@, d);
                assert(string_views(d.changes@) =~= Seq::<Seq<char>>::empty());
            }
            diffs.push(d);
        }
        k = k + 1;
    }
    assert(target@.subrange(0, target.len() as int) =~= target@);
    diffs
}


// ---------------------------------------------------------------------------
// Permissions
// ---------------------------------------------------------------------------

/// A grant present on one side only.
#[derive(Debug)]
pub struct PermissionDiff {
    pub diff_type: String,
    pub grantee: String,
    pub object_name: String,
    pub privilege: String,
    pub source: Option<PermissionInfo>,
    pub target: Option<PermissionInfo>,
}

/// A grant difference as plain values.
pub struct PermissionDiffView {
    pub diff_type: Seq<char>,
    pub grantee: Seq<char>,
    pub object_name: Seq<char>,
    pub privilege: Seq<char>,
    pub source: Option<PermissionInfo>,
    pub target: Option<PermissionInfo>,
}

impl Clone for PermissionDiff {
    fn clone(&self) -> (r: Self)
        ensures
            r@ == self@,
    {
        let source = match &self.source {
            Some(x) => Some(x.clone()),
            None => None,
        };
        let target = match &self.target {
            Some(x) => Some(x.clone()),
            None => None,
        };
        PermissionDiff {
            diff_type: self.diff_type.clone(),
            grantee: self.grantee.clone(),
            object_name: self.object_name.clone(),
            privilege: self.privilege.clone(),
            source,
            target,
        }
    }
}

impl View for PermissionDiff {
    type V = PermissionDiffView;

    open spec fn view(&self) -> PermissionDiffView {
        PermissionDiffView {
            diff_type: self.diff_type@,
            grantee: self.grantee@,
            object_name: self.object_name@,
            privilege: self.privilege@,
            source: self.source,
            target: self.target,
        }
    }
}

/// Grants are matched by grantee, object and privilege.
pub open spec fn permission_key() -> spec_fn(PermissionInfo) -> (Seq<char>, Seq<char>, Seq<char>) {
    |p: PermissionInfo| (p.grantee@, p.object_name@, p.privilege@)
}

pub open spec fn permission_object() -> spec_fn(PermissionInfo) -> Seq<char> {
    |p: PermissionInfo| p.object_name@
}

/// A matched grant never differs.
pub open spec fn no_changes<T>() -> spec_fn(T, T) -> Seq<Seq<char>> {
    |s: T, t: T| Seq::<Seq<char>>::empty()
}

/// The grant difference for a listed difference, named after the grant.
pub open spec fn permission_entry(d: ItemDiff<PermissionInfo>) -> PermissionDiffView {
    let info = match d.source {
        Some(p) => p,
        None => d.target->0,
    };
    PermissionDiffView {
        diff_type: d.diff_type,
        grantee: info.grantee@,
        object_name: info.object_name@,
        privilege: info.privilege@,
        source: d.source,
        target: d.target,
    }
}

pub open spec fn permission_entries(ds: Seq<ItemDiff<PermissionInfo>>) -> Seq<PermissionDiffView> {
    ds.map_values(|d: ItemDiff<PermissionInfo>| permission_entry(d))
}

proof fn lemma_permission_entries_push(ds: Seq<ItemDiff<PermissionInfo>>, d: ItemDiff<PermissionInfo>)
    ensures
        permission_entries(ds.push(d)) == permission_entries(ds).push(permission_entry(d)),
{
    assert(permission_entries(ds.push(d)) =~= permission_entries(ds).push(permission_entry(d)));
}

fn permission_keys(v: &Vec<PermissionInfo>) -> (r: (Vec<String>, Vec<String>, Vec<String>))
    ensures
        r.0.len() == r.1.len(),
        r.0.len() == r.2.len(),
        triples(r.0@, r.1@, r.2@) == v@.map_values(permission_key()),
{
    let mut gs: Vec<String> = Vec::new();
    let mut os: Vec<String> = Vec::new();
    let mut ps: Vec<String> = Vec::new();
    let mut i: usize = 0;
    while i < v.len()
        invariant
            i <= v.len(),
            gs.len() == i,
            os.len() == i,
            ps.len() == i,
            forall|j: int|
                0 <= j < i ==> #[trigger] gs@[j]@ == v@[j].grantee@ && os@[j]@ == v@[j].object_name@ && ps@[j]@
                    == v@[j].privilege@,
        decreases v.len() - i,
    {
        let ghost (g0, o0, p0) = (gs@, os@, ps@);
        gs.push(v[i].grantee.clone());
        os.push(v[i].object_name.clone());
        ps.push(v[i].privilege.clone());
        assert forall|j: int| 0 <= j < i + 1 implies #[trigger] gs@[j]@ == v@[j].grantee@ && os@[j]@
            == v@[j].object_name@ && ps@[j]@ == v@[j].privilege@ by {
            if j < i {
                assert(gs@[j] == g0[j] && os@[j] == o0[j] && ps@[j] == p0[j]);
            }
        }
        i = i + 1;
    }
    assert(triples(gs@, os@, ps@) =~= v@.map_values(permission_key()));
    (gs, os, ps)
}

/// The grants present in the source only (`added`), then those present in
/// the target only (`removed`).
pub fn diff_permissions(source: &Vec<PermissionInfo>, target: &Vec<PermissionInfo>) -> (r: Vec<PermissionDiff>)
    ensures
        views_of(r@) == permission_entries(
            keyed_diff(source@, target@, permission_key(), permission_object(), never(), no_changes()),
        ),
{
    let (tg, to, tp) = permission_keys(target);
    let (sg, so, sp) = permission_keys(source);
    let mut diffs: Vec<PermissionDiff> = Vec::new();
    let mut i: usize = 0;
    while i < source.len()
        invariant
            i <= source.len(),
            tg.len() == to.len(),
            tg.len() == tp.len(),
            triples(tg@, to@, tp@) == target@.map_values(permission_key()),
            views_of(diffs@) == permission_entries(
                source_side(
                    source@.subrange(0, i as int),
                    target@,
                    permission_key(),
                    permission_object(),
                    never(),
                    no_changes(),
                ),
            ),
        decreases source.len() - i,
    {
        proof {
            lemma_prefix_step(source@, i as int);
        }
        let sp_ = &source[i];
        assert(permission_key()(*sp_) == (sp_.grantee@, sp_.object_name@, sp_.privilege@));
        let ghost rest = source_side(
            source@.subrange(0, i as int),
            target@,
            permission_key(),
            permission_object(),
            never(),
            no_changes(),
        );
        let found = last_position3(
            &tg,
            &to,
            &tp,
            sp_.grantee.as_str(),
            sp_.object_name.as_str(),
            sp_.privilege.as_str(),
        );
        if found.is_none() {
            let d = PermissionDiff {
                diff_type: String::from_str("added"),
                grantee: sp_.grantee.clone(),
                object_name: sp_.object_name.clone(),
                privilege: sp_.privilege.clone(),
                source: Some(sp_.clone()),
                target: None,
            };
            proof {
                lemma_views_push(diffs@, d);
                lemma_permission_entries_push(rest, added_item(sp_.object_name@, *sp_));
            }
            diffs.push(d);
        } else {
            proof {
                let j = last_index(target@.map_values(permission_key()), permission_key()(*sp_))->0;
                assert(no_changes::<PermissionInfo>()(*sp_, target@[j]).len() == 0);
            }
        }
        i = i + 1;
    }
    assert(source@.subrange(0, source.len() as int) =~= source@);
    let ghost src_items = source_side(source@, target@, permission_key(), permission_object(), never(), no_changes());
    let mut k: usize = 0;
    while k < target.len()
        invariant
            k <= target.len(),
            sg.len() == so.len(),
            sg.len() == sp.len(),
            triples(sg@, so@, sp@) == source@.map_values(permission_key()),
            views_of(diffs@) == permission_entries(
                src_items + target_side(
                    source@,
                    target@.subrange(0, k as int),
                    permission_key(),
                    permission_object(),
                    never(),
                ),
            ),
        decreases target.len() - k,
    {
        proof {
            lemma_prefix_step(target@, k as int);
        }
        let tp_ = &target[k];
        assert(permission_key()(*tp_) == (tp_.grantee@, tp_.object_name@, tp_.privilege@));
        let ghost rest = target_side(source@, target@.subrange(0, k as int), permission_key(), permission_object(), never());
        let found = last_position3(
            &sg,
            &so,
            &sp,
            tp_.grantee.as_str(),
            tp_.object_name.as_str(),
            tp_.privilege.as_str(),
        );
        if found.is_none() {
            let d = PermissionDiff {
                diff_type: String::from_str("removed"),
                grantee: tp_.grantee.clone(),
                object_name: tp_.object_name.clone(),
                privilege: tp_.privilege.clone(),
                source: None,
                target: Some(tp_.clone()),
            };
            proof {
                lemma_views_push(diffs@, d);
                assert(src_items + rest.push(removed_item(tp_.object_name@, *tp_)) =~= (src_items + rest).push(
                    removed_item(tp_.object_name@, *tp_),
                ));
                lemma_permission_entries_push(src_items + rest, removed_item(tp_.object_name@, *tp_));
            }
            diffs.push(d);
        }
        k = k + 1;
    }
    assert(target@.subrange(0, target.len() as int) =~= target@);
    diffs
}

// ---------------------------------------------------------------------------
// Owners
// ---------------------------------------------------------------------------

/// A change of owner of an object present on both sides.
#[derive(Debug)]
pub struct OwnerDiff {
    pub diff_type: String,
    pub object_name: String,
    pub source: Option<OwnerInfo>,
    pub target: Option<OwnerInfo>,
    pub changes: Vec<String>,
}

impl Clone for OwnerDiff {
    fn clone(&self) -> (r: Self)
        ensures
            r@ == self@,
    {
        let source = match &self.source {
            Some(x) => Some(x.clone()),
            None => None,
        };
        let target = match &self.target {
            Some(x) => Some(x.clone()),
            None => None,
        };
        OwnerDiff {
            diff_type: self.diff_type.clone(),
            object_name: self.object_name.clone(),
            source,
            target,
            changes: clone_strings(&self.changes),
        }
    }
}

impl View for OwnerDiff {
    type V = ItemDiff<OwnerInfo>;

    open spec fn view(&self) -> ItemDiff<OwnerInfo> {
        ItemDiff {
            diff_type: self.diff_type@,
            name: self.object_name@,
            source: self.source,
            target: self.target,
            changes: string_views(self.changes@),
        }
    }
}

pub open spec fn owner_object() -> spec_fn(OwnerInfo) -> Seq<char> {
    |o: OwnerInfo| o.object_name@
}

pub open spec fn owner_changes(s: OwnerInfo, t: OwnerInfo) -> Seq<Seq<char>> {
    line_if(s.owner@ != t.owner@, change_text("owner: "@, t.owner@, s.owner@))
}

/// Owner changes of objects present on both sides, in source order; objects
/// present on one side only are not reported here.
pub open spec fn owner_diffs(source: Seq<OwnerInfo>, target: Seq<OwnerInfo>) -> Seq<ItemDiff<OwnerInfo>>
    decreases source.len(),
{
    if source.len() == 0 {
        Seq::empty()
    } else {
        let rest = owner_diffs(source.drop_last(), target);
        let s = source.last();
        match last_index(target.map_values(owner_object()), s.object_name@) {
            None => rest,
            Some(j) => {
                let ch = owner_changes(s, target[j]);
                if ch.len() > 0 {
                    rest.push(modified_item(s.object_name@, s, target[j], ch))
                } else {
                    rest
                }
            },
        }
    }
}

fn owner_objects(v: &Vec<OwnerInfo>) -> (r: Vec<String>)
    ensures
        string_views(r@) == v@.map_values(owner_object()),
{
    let mut r: Vec<String> = Vec::new();
    let mut i: usize = 0;
    while i < v.len()
        invariant
            i <= v.len(),
            string_views(r@) == v@.subrange(0, i as int).map_values(owner_object()),
        decreases v.len() - i,
    {
        let n = v[i].object_name.clone();
        proof {
            lemma_string_views_push(r@, n);
            lemma_prefix_step(v@, i as int);
            lemma_map_push(v@.subrange(0, i as int), v@[i as int], owner_object());
        }
        r.push(n);
        i = i + 1;
    }
    assert(v@.subrange(0, v.len() as int) =~= v@);
    r
}

/// The owner changes between source and target objects, matched by name.
pub fn diff_owners(source: &Vec<OwnerInfo>, target: &Vec<OwnerInfo>) -> (r: Vec<OwnerDiff>)
    ensures
        views_of(r@) == owner_diffs(source@, target@),
{
    let target_names = owner_objects(target);
    let mut diffs: Vec<OwnerDiff> = Vec::new();
    let mut i: usize = 0;
    while i < source.len()
        invariant
            i <= source.len(),
            string_views(target_names@) == target@.map_values(owner_object()),
            views_of(diffs@) == owner_diffs(source@.subrange(0, i as int), target@),
        decreases source.len() - i,
    {
        proof {
            lemma_prefix_step(source@, i as int);
        }
        let s = &source[i];
        match last_position(&target_names, s.object_name.as_str()) {
            None => {},
            Some(j) => {
                proof {
                    lemma_last_index_bound(string_views(target_names@), s.object_name@);
                }
                let t = &target[j];
                let mut ch: Vec<String> = Vec::new();
                assert(string_views(ch@) =~= Seq::<Seq<char>>::empty());
                push_if(
                    &mut ch,
                    !str_eq(s.owner.as_str(), t.owner.as_str()),
                    change_line("owner: ", t.owner.as_str(), s.owner.as_str()),
                );
                if ch.len() > 0 {
                    let d = OwnerDiff {
                        diff_type: String::from_str("modified"),
                        object_name: s.object_name.clone(),
                        source: Some(s.clone()),
                        target: Some(t.clone()),
                        changes: ch,
                    };
                    proof {
                        lemma_views_push(diffs@, d);
                    }
                    diffs.push(d);
                }
            },
        }
        i = i + 1;
    }
    assert(source@.subrange(0, source.len() as int) =~= source@);
    diffs
}

// ---------------------------------------------------------------------------
// Name lists
// ---------------------------------------------------------------------------

/// The names of `s`, in order, that occur in `other` (`inside`) or do not.
pub open spec fn names_where(s: Seq<Seq<char>>, other: Seq<Seq<char>>, inside: bool) -> Seq<Seq<char>>
    decreases s.len(),
{
    if s.len() == 0 {
        Seq::empty()
    } else {
        let rest = names_where(s.drop_last(), other, inside);
        if other.contains(s.last()) == inside {
            rest.push(s.last())
        } else {
            rest
        }
    }
}

fn names_where_exec(s: &Vec<String>, other: &Vec<String>, inside: bool) -> (r: Vec<String>)
    ensures
        string_views(r@) == names_where(string_views(s@), string_views(other@), inside),
{
    let ghost sv = string_views(s@);
    let mut r: Vec<String> = Vec::new();
    let mut i: usize = 0;
    while i < s.len()
        invariant
            i <= s.len(),
            sv == string_views(s@),
            string_views(r@) == names_where(sv.subrange(0, i as int), string_views(other@), inside),
        decreases s.len() - i,
    {
        proof {
            lemma_prefix_step(sv, i as int);
        }
        let found = last_position(other, s[i].as_str());
        proof {
            lemma_last_index_bound(string_views(other@), s@[i as int]@);
        }
        if found.is_some() == inside {
            let n = s[i].clone();
            proof {
                lemma_string_views_push(r@, n);
            }
            r.push(n);
        }
        i = i + 1;
    }
    assert(sv.subrange(0, s.len() as int) =~= sv);
    r
}

/// Names in the source only, names in the target only, and names in both
/// (in source order).
pub fn diff_names(source: &Vec<String>, target: &Vec<String>) -> (r: (Vec<String>, Vec<String>, Vec<String>))
    ensures
        string_views(r.0@) == names_where(string_views(source@), string_views(target@), false),
        string_views(r.1@) == names_where(string_views(target@), string_views(source@), false),
        string_views(r.2@) == names_where(string_views(source@), string_views(target@), true),
{
    (names_where_exec(source, target, false), names_where_exec(target, source, false), names_where_exec(source, target, true))
}


// ---------------------------------------------------------------------------
// Columns
// ---------------------------------------------------------------------------

/// A difference in columns.
#[derive(Debug)]
pub struct ColumnDiff {
    pub diff_type: String,
    pub name: String,
    pub source: Option<ColumnInfo>,
    pub target: Option<ColumnInfo>,
    pub changes: Vec<String>,
}

impl Clone for ColumnDiff {
    fn clone(&self) -> (r: Self)
        ensures
            r@ == self@,
    {
        let source = match &self.source {
            Some(x) => Some(x.clone()),
            None => None,
        };
        let target = match &self.target {
            Some(x) => Some(x.clone()),
            None => None,
        };
        ColumnDiff {
            diff_type: self.diff_type.clone(),
            name: self.name.clone(),
            source,
            target,
            changes: clone_strings(&self.changes),
        }
    }
}

impl View for ColumnDiff {
    type V = ItemDiff<ColumnInfo>;

    open spec fn view(&self) -> ItemDiff<ColumnInfo> {
        ItemDiff {
            diff_type: self.diff_type@,
            name: self.name@,
            source: self.source,
            target: self.target,
            changes: string_views(self.changes@),
        }
    }
}

pub open spec fn column_name() -> spec_fn(ColumnInfo) -> Seq<char> {
    |c: ColumnInfo| c.name@
}

/// What differs between a source and a target column. Types are compared
/// ignoring case; comments only unless they are ignored; positions (given as
/// source and target index) only when column order is compared.
pub open spec fn column_changes(s: ColumnInfo, t: ColumnInfo, ignore_comments: bool, order: Option<(int, int)>) -> Seq<
    Seq<char>,
> {
    line_if(
        unicode_lowercase(s.data_type@) != unicode_lowercase(t.data_type@),
        change_text("type: "@, t.data_type@, s.data_type@),
    ) + line_if(
        s.is_nullable != t.is_nullable,
        change_text("nullable: "@, yes_no(t.is_nullable), yes_no(s.is_nullable)),
    ) + line_if(
        or_text(opt_text(s.column_default), ""@) != or_text(opt_text(t.column_default), ""@),
        change_text(
            "default: "@,
            or_text(opt_text(t.column_default), "NULL"@),
            or_text(opt_text(s.column_default), "NULL"@),
        ),
    ) + line_if(
        !ignore_comments && or_text(opt_text(s.comment), ""@) != or_text(opt_text(t.comment), ""@),
        change_text("comment: "@, or_text(opt_text(t.comment), ""@), or_text(opt_text(s.comment), ""@)),
    ) + match order {
        Some((si, ti)) => line_if(
            si != ti,
            change_text("order: "@, decimal_text((ti + 1) as nat), decimal_text((si + 1) as nat)),
        ),
        None => Seq::empty(),
    }
}

/// Whether some change line is about the default value.
pub open spec fn mentions_default(changes: Seq<Seq<char>>) -> bool {
    exists|k: int| 0 <= k < changes.len() && seq_starts_with(#[trigger] changes[k], "default:"@)
}

/// A column compared with its counterpart records a default change exactly
/// when the two defaults differ, an absent default counting as empty,
/// whichever side lacks it; the change names the target's default (or
/// NULL) and then the source's.
pub proof fn law_default_change_exactly_when_defaults_differ(
    s: ColumnInfo,
    t: ColumnInfo,
    ignore_comments: bool,
    order: Option<(int, int)>,
)
    ensures
        mentions_default(column_changes(s, t, ignore_comments, order)) <==> or_text(opt_text(s.column_default), ""@)
            != or_text(opt_text(t.column_default), ""@),
        or_text(opt_text(s.column_default), ""@) != or_text(opt_text(t.column_default), ""@) ==> column_changes(
            s,
            t,
            ignore_comments,
            order,
        ).contains(
            "default: "@ + or_text(opt_text(t.column_default), "NULL"@) + " → "@ + or_text(
                opt_text(s.column_default),
                "NULL"@,
            ),
        ),
{
    reveal_strlit("default:");
    reveal_strlit("default: ");
    reveal_strlit("type: ");
    reveal_strlit("nullable: ");
    reveal_strlit("comment: ");
    reveal_strlit("order: ");
    let differ = or_text(opt_text(s.column_default), ""@) != or_text(opt_text(t.column_default), ""@);
    let a = line_if(
        unicode_lowercase(s.data_type@) != unicode_lowercase(t.data_type@),
        change_text("type: "@, t.data_type@, s.data_type@),
    );
    let b = line_if(s.is_nullable != t.is_nullable, change_text("nullable: "@, yes_no(t.is_nullable), yes_no(s.is_nullable)));
    let line = change_text(
        "default: "@,
        or_text(opt_text(t.column_default), "NULL"@),
        or_text(opt_text(s.column_default), "NULL"@),
    );
    let c = line_if(differ, line);
    let d = line_if(
        !ignore_comments && or_text(opt_text(s.comment), ""@) != or_text(opt_text(t.comment), ""@),
        change_text("comment: "@, or_text(opt_text(t.comment), ""@), or_text(opt_text(s.comment), ""@)),
    );
    let e = match order {
        Some((si, ti)) => line_if(
            si != ti,
            change_text("order: "@, decimal_text((ti + 1) as nat), decimal_text((si + 1) as nat)),
        ),
        None => Seq::<Seq<char>>::empty(),
    };
    let all = column_changes(s, t, ignore_comments, order);
    assert(all == a + b + c + d + e);
    assert forall|k: int| 0 <= k < all.len() && seq_starts_with(#[trigger] all[k], "default:"@) implies differ && all[k]
        == line by {
        let x = all[k];
        assert(x.subrange(0, 8) == "default:"@);
        assert(x.subrange(0, 8)[0] == x[0]);
        assert(x[0] == 'd');
        if k < a.len() {
            assert(x == change_text("type: "@, t.data_type@, s.data_type@));
            assert(x[0] == 't');
        } else if k < a.len() + b.len() {
            assert(x == b[k - a.len()]);
            assert(x[0] == 'n');
        } else if k < a.len() + b.len() + c.len() {
            assert(x == c[k - a.len() - b.len()]);
        } else if k < a.len() + b.len() + c.len() + d.len() {
            assert(x == d[k - a.len() - b.len() - c.len()]);
            assert(x[0] == 'c');
        } else {
            assert(x == e[k - a.len() - b.len() - c.len() - d.len()]);
            assert(x[0] == 'o');
        }
    }
    if differ {
        let k: int = (a.len() + b.len()) as int;
        assert(all[k] == line);
        assert(line.subrange(0, 8) =~= "default:"@);
        assert(seq_starts_with(all[k], "default:"@));
    }
}

/// Whether some change line starts with `prefix`.
pub open spec fn mentions(changes: Seq<Seq<char>>, prefix: Seq<char>) -> bool {
    exists|k: int| 0 <= k < changes.len() && seq_starts_with(#[trigger] changes[k], prefix)
}

proof fn lemma_change_groups(s: ColumnInfo, t: ColumnInfo, ignore_comments: bool, order: Option<(int, int)>, k: int)
    requires
        0 <= k < column_changes(s, t, ignore_comments, order).len(),
    ensures
        ({
            let x = column_changes(s, t, ignore_comments, order)[k];
            &&& x.len() > 0
            &&& x[0] == 't' ==> unicode_lowercase(s.data_type@) != unicode_lowercase(t.data_type@)
            &&& x[0] == 'n' ==> s.is_nullable != t.is_nullable
            &&& x[0] == 'd' ==> or_text(opt_text(s.column_default), ""@) != or_text(opt_text(t.column_default), ""@)
            &&& x[0] == 'c' ==> !ignore_comments && or_text(opt_text(s.comment), ""@) != or_text(
                opt_text(t.comment),
                ""@,
            )
            &&& x[0] == 'o' ==> (order matches Some((si, ti)) && si != ti)
        }),
{
    reveal_strlit("type: ");
    reveal_strlit("nullable: ");
    reveal_strlit("default: ");
    reveal_strlit("comment: ");
    reveal_strlit("order: ");
    let a = line_if(
        unicode_lowercase(s.data_type@) != unicode_lowercase(t.data_type@),
        change_text("type: "@, t.data_type@, s.data_type@),
    );
    let b = line_if(s.is_nullable != t.is_nullable, change_text("nullable: "@, yes_no(t.is_nullable), yes_no(s.is_nullable)));
    let c = line_if(
        or_text(opt_text(s.column_default), ""@) != or_text(opt_text(t.column_default), ""@),
        change_text(
            "default: "@,
            or_text(opt_text(t.column_default), "NULL"@),
            or_text(opt_text(s.column_default), "NULL"@),
        ),
    );
    let d = line_if(
        !ignore_comments && or_text(opt_text(s.comment), ""@) != or_text(opt_text(t.comment), ""@),
        change_text("comment: "@, or_text(opt_text(t.comment), ""@), or_text(opt_text(s.comment), ""@)),
    );
    let e = match order {
        Some((si, ti)) => line_if(
            si != ti,
            change_text("order: "@, decimal_text((ti + 1) as nat), decimal_text((si + 1) as nat)),
        ),
        None => Seq::<Seq<char>>::empty(),
    };
    let all = column_changes(s, t, ignore_comments, order);
    assert(all == a + b + c + d + e);
    let x = all[k];
    if k < a.len() {
        assert(x == a[k]);
        assert(x[0] == 't');
    } else if k < a.len() + b.len() {
        assert(x == b[k - a.len()]);
        assert(x[0] == 'n');
    } else if k < a.len() + b.len() + c.len() {
        assert(x == c[k - a.len() - b.len()]);
        assert(x[0] == 'd');
    } else if k < a.len() + b.len() + c.len() + d.len() {
        assert(x == d[k - a.len() - b.len() - c.len()]);
        assert(x[0] == 'c');
    } else {
        assert(x == e[k - a.len() - b.len() - c.len() - d.len()]);
        assert(x[0] == 'o');
    }
}

proof fn lemma_starts_first(x: Seq<char>, p: Seq<char>)
    requires
        seq_starts_with(x, p),
        p.len() > 0,
    ensures
        x[0] == p[0],
{
    assert(x.subrange(0, p.len() as int)[0] == x[0]);
}

/// A column compared with its counterpart records a change of each kind
/// exactly when that property differs: the type (ignoring case), the
/// nullability, the default (an absent one counting as empty), the comment
/// (unless comments are ignored) and, where order is compared, the position.
pub proof fn law_change_kinds_follow_differences(
    s: ColumnInfo,
    t: ColumnInfo,
    ignore_comments: bool,
    order: Option<(int, int)>,
)
    ensures
        mentions(column_changes(s, t, ignore_comments, order), "type:"@) <==> unicode_lowercase(s.data_type@)
            != unicode_lowercase(t.data_type@),
        mentions(column_changes(s, t, ignore_comments, order), "nullable:"@) <==> s.is_nullable != t.is_nullable,
        mentions(column_changes(s, t, ignore_comments, order), "default:"@) <==> or_text(
            opt_text(s.column_default),
            ""@,
        ) != or_text(opt_text(t.column_default), ""@),
        mentions(column_changes(s, t, ignore_comments, order), "comment:"@) <==> (!ignore_comments && or_text(
            opt_text(s.comment),
            ""@,
        ) != or_text(opt_text(t.comment), ""@)),
        mentions(column_changes(s, t, ignore_comments, order), "order:"@) <==> (order matches Some((si, ti))
            && si != ti),
{
    reveal_strlit("type:");
    reveal_strlit("nullable:");
    reveal_strlit("default:");
    reveal_strlit("comment:");
    reveal_strlit("order:");
    lemma_mention_means_change(s, t, ignore_comments, order, "type:"@);
    lemma_mention_means_change(s, t, ignore_comments, order, "nullable:"@);
    lemma_mention_means_change(s, t, ignore_comments, order, "default:"@);
    lemma_mention_means_change(s, t, ignore_comments, order, "comment:"@);
    lemma_mention_means_change(s, t, ignore_comments, order, "order:"@);
    lemma_change_is_mentioned(s, t, ignore_comments, order);
}

proof fn lemma_mention_means_change(
    s: ColumnInfo,
    t: ColumnInfo,
    ignore_comments: bool,
    order: Option<(int, int)>,
    p: Seq<char>,
)
    requires
        p.len() > 0,
    ensures
        mentions(column_changes(s, t, ignore_comments, order), p) ==> ({
            &&& p[0] == 't' ==> unicode_lowercase(s.data_type@) != unicode_lowercase(t.data_type@)
            &&& p[0] == 'n' ==> s.is_nullable != t.is_nullable
            &&& p[0] == 'd' ==> or_text(opt_text(s.column_default), ""@) != or_text(opt_text(t.column_default), ""@)
            &&& p[0] == 'c' ==> !ignore_comments && or_text(opt_text(s.comment), ""@) != or_text(
                opt_text(t.comment),
                ""@,
            )
            &&& p[0] == 'o' ==> (order matches Some((si, ti)) && si != ti)
        }),
{
    let all = column_changes(s, t, ignore_comments, order);
    if mentions(all, p) {
        let k = choose|k: int| 0 <= k < all.len() && seq_starts_with(#[trigger] all[k], p);
        lemma_starts_first(all[k], p);
        lemma_change_groups(s, t, ignore_comments, order, k);
    }
}

proof fn lemma_change_is_mentioned(s: ColumnInfo, t: ColumnInfo, ignore_comments: bool, order: Option<(int, int)>)
    ensures
        unicode_lowercase(s.data_type@) != unicode_lowercase(t.data_type@) ==> mentions(
            column_changes(s, t, ignore_comments, order),
            "type:"@,
        ),
        s.is_nullable != t.is_nullable ==> mentions(column_changes(s, t, ignore_comments, order), "nullable:"@),
        or_text(opt_text(s.column_default), ""@) != or_text(opt_text(t.column_default), ""@) ==> mentions(
            column_changes(s, t, ignore_comments, order),
            "default:"@,
        ),
        (!ignore_comments && or_text(opt_text(s.comment), ""@) != or_text(opt_text(t.comment), ""@)) ==> mentions(
            column_changes(s, t, ignore_comments, order),
            "comment:"@,
        ),
        (order matches Some((si, ti)) && si != ti) ==> mentions(
            column_changes(s, t, ignore_comments, order),
            "order:"@,
        ),
{
    reveal_strlit("type:");
    reveal_strlit("nullable:");
    reveal_strlit("default:");
    reveal_strlit("comment:");
    reveal_strlit("order:");
    reveal_strlit("type: ");
    reveal_strlit("nullable: ");
    reveal_strlit("default: ");
    reveal_strlit("comment: ");
    reveal_strlit("order: ");
    let all = column_changes(s, t, ignore_comments, order);
    let a = line_if(
        unicode_lowercase(s.data_type@) != unicode_lowercase(t.data_type@),
        change_text("type: "@, t.data_type@, s.data_type@),
    );
    let b = line_if(s.is_nullable != t.is_nullable, change_text("nullable: "@, yes_no(t.is_nullable), yes_no(s.is_nullable)));
    let c = line_if(
        or_text(opt_text(s.column_default), ""@) != or_text(opt_text(t.column_default), ""@),
        change_text(
            "default: "@,
            or_text(opt_text(t.column_default), "NULL"@),
            or_text(opt_text(s.column_default), "NULL"@),
        ),
    );
    let d = line_if(
        !ignore_comments && or_text(opt_text(s.comment), ""@) != or_text(opt_text(t.comment), ""@),
        change_text("comment: "@, or_text(opt_text(t.comment), ""@), or_text(opt_text(s.comment), ""@)),
    );
    let e = match order {
        Some((si, ti)) => line_if(
            si != ti,
            change_text("order: "@, decimal_text((ti + 1) as nat), decimal_text((si + 1) as nat)),
        ),
        None => Seq::<Seq<char>>::empty(),
    };
    assert(all == a + b + c + d + e);
    if a.len() > 0 {
        assert(all[0] == a[0]);
        assert(a[0].subrange(0, 5) =~= "type:"@);
        assert(seq_starts_with(all[0], "type:"@));
    }
    if b.len() > 0 {
        let k: int = a.len() as int;
        assert(all[k] == b[0]);
        assert(b[0].subrange(0, 9) =~= "nullable:"@);
        assert(seq_starts_with(all[k], "nullable:"@));
    }
    if c.len() > 0 {
        let k: int = (a.len() + b.len()) as int;
        assert(all[k] == c[0]);
        assert(c[0].subrange(0, 8) =~= "default:"@);
        assert(seq_starts_with(all[k], "default:"@));
    }
    if d.len() > 0 {
        let k: int = (a.len() + b.len() + c.len()) as int;
        assert(all[k] == d[0]);
        assert(d[0].subrange(0, 8) =~= "comment:"@);
        assert(seq_starts_with(all[k], "comment:"@));
    }
    if e.len() > 0 {
        let k: int = (a.len() + b.len() + c.len() + d.len()) as int;
        assert(all[k] == e[0]);
        assert(e[0].subrange(0, 6) =~= "order:"@);
        assert(seq_starts_with(all[k], "order:"@));
    }
}

/// The entry the comparison gives source column `i`, given whether order is
/// compared: added when no target column has its name, else modified with
/// the changes against the last target column of that name when there are
/// any.
pub open spec fn source_column_entry(
    source: Seq<ColumnInfo>,
    target: Seq<ColumnInfo>,
    ignore_comments: bool,
    can_order: bool,
    i: int,
) -> Option<ItemDiff<ColumnInfo>> {
    let s = source[i];
    match last_index(target.map_values(column_name()), s.name@) {
        None => Some(added_item(s.name@, s)),
        Some(j) => {
            let ch = column_changes(s, target[j], ignore_comments, if can_order {
                Some((i, j))
            } else {
                None
            });
            if ch.len() > 0 {
                Some(modified_item(s.name@, s, target[j], ch))
            } else {
                None
            }
        },
    }
}

proof fn lemma_source_side_holds(
    source: Seq<ColumnInfo>,
    target: Seq<ColumnInfo>,
    ignore_comments: bool,
    can_order: bool,
    i: int,
)
    requires
        0 <= i < source.len(),
    ensures
        source_column_entry(source, target, ignore_comments, can_order, i) matches Some(e) ==> column_source_side(
            source,
            target,
            ignore_comments,
            can_order,
        ).contains(e),
    decreases source.len(),
{
    let rest = column_source_side(source.drop_last(), target, ignore_comments, can_order);
    let all = column_source_side(source, target, ignore_comments, can_order);
    if i < source.len() - 1 {
        lemma_source_side_holds(source.drop_last(), target, ignore_comments, can_order, i);
        assert(source.drop_last()[i] == source[i]);
        assert(source_column_entry(source.drop_last(), target, ignore_comments, can_order, i) == source_column_entry(
            source,
            target,
            ignore_comments,
            can_order,
            i,
        ));
        if let Some(e) = source_column_entry(source, target, ignore_comments, can_order, i) {
            let k = choose|k: int| 0 <= k < rest.len() && rest[k] == e;
            assert(all.len() >= rest.len());
            assert(all[k] == rest[k]);
        }
    } else {
        if let Some(e) = source_column_entry(source, target, ignore_comments, can_order, i) {
            assert(source.last() == source[i]);
            assert(all[all.len() - 1] == e);
        }
    }
}

/// Each source column is reported: added when the target has no column of
/// its name, and otherwise modified, with its changes against the target
/// column, whenever there is any change; each target column without a
/// source counterpart is reported removed.
pub proof fn law_columns_are_reported(
    source: Seq<ColumnInfo>,
    target: Seq<ColumnInfo>,
    ignore_comments: bool,
    compare_column_order: bool,
    i: int,
)
    requires
        0 <= i < source.len(),
    ensures
        source_column_entry(
            source,
            target,
            ignore_comments,
            order_comparable(source, target, compare_column_order),
            i,
        ) matches Some(e) ==> column_diffs(source, target, ignore_comments, compare_column_order).contains(e),
{
    let can = order_comparable(source, target, compare_column_order);
    lemma_source_side_holds(source, target, ignore_comments, can, i);
    let a = column_source_side(source, target, ignore_comments, can);
    let b = target_side(source, target, column_name(), column_name(), never());
    if let Some(e) = source_column_entry(source, target, ignore_comments, can, i) {
        let k = choose|k: int| 0 <= k < a.len() && a[k] == e;
        assert((a + b)[k] == e);
    }
}

/// A column present on both sides (the last target column of its name)
/// whose defaults differ, an absent default counting as empty, is reported
/// modified with a default change, whichever side lacks the default.
pub proof fn law_default_difference_is_reported(
    source: Seq<ColumnInfo>,
    target: Seq<ColumnInfo>,
    ignore_comments: bool,
    compare_column_order: bool,
    i: int,
)
    requires
        0 <= i < source.len(),
        last_index(target.map_values(column_name()), source[i].name@) is Some,
        or_text(opt_text(source[i].column_default), ""@) != or_text(
            opt_text(target[last_index(target.map_values(column_name()), source[i].name@).unwrap()].column_default),
            ""@,
        ),
    ensures
        exists|e: ItemDiff<ColumnInfo>|
            #[trigger] column_diffs(source, target, ignore_comments, compare_column_order).contains(e) && e.diff_type
                == "modified"@ && e.name == source[i].name@ && e.source == Some(source[i]) && mentions(
                e.changes,
                "default:"@,
            ),
{
    let can = order_comparable(source, target, compare_column_order);
    let j = last_index(target.map_values(column_name()), source[i].name@).unwrap();
    let order = if can {
        Some((i, j))
    } else {
        None
    };
    law_change_kinds_follow_differences(source[i], target[j], ignore_comments, order);
    let ch = column_changes(source[i], target[j], ignore_comments, order);
    assert(ch.len() > 0);
    law_columns_are_reported(source, target, ignore_comments, compare_column_order, i);
    let e = modified_item(source[i].name@, source[i], target[j], ch);
    assert(column_diffs(source, target, ignore_comments, compare_column_order).contains(e));
}

/// Column order is compared only when asked for and both sides hold the same
/// number of columns, every source column also being in the target.
pub open spec fn order_comparable(source: Seq<ColumnInfo>, target: Seq<ColumnInfo>, compare_column_order: bool) -> bool {
    &&& compare_column_order
    &&& source.len() == target.len()
    &&& forall|i: int|
        0 <= i < source.len() ==> #[trigger] target.map_values(column_name()).contains(source[i].name@)
}

/// The differences reported for the source columns, in source order.
pub open spec fn column_source_side(
    source: Seq<ColumnInfo>,
    target: Seq<ColumnInfo>,
    ignore_comments: bool,
    can_order: bool,
) -> Seq<ItemDiff<ColumnInfo>>
    decreases source.len(),
{
    if source.len() == 0 {
        Seq::empty()
    } else {
        let rest = column_source_side(source.drop_last(), target, ignore_comments, can_order);
        let s = source.last();
        match last_index(target.map_values(column_name()), s.name@) {
            None => rest.push(added_item(s.name@, s)),
            Some(j) => {
                let order = if can_order {
                    Some((source.len() - 1, j))
                } else {
                    None
                };
                let ch = column_changes(s, target[j], ignore_comments, order);
                if ch.len() > 0 {
                    rest.push(modified_item(s.name@, s, target[j], ch))
                } else {
                    rest
                }
            },
        }
    }
}

/// All column differences.
pub open spec fn column_diffs(
    source: Seq<ColumnInfo>,
    target: Seq<ColumnInfo>,
    ignore_comments: bool,
    compare_column_order: bool,
) -> Seq<ItemDiff<ColumnInfo>> {
    column_source_side(source, target, ignore_comments, order_comparable(source, target, compare_column_order))
        + target_side(source, target, column_name(), column_name(), never())
}

fn column_names(v: &Vec<ColumnInfo>) -> (r: Vec<String>)
    ensures
        string_views(r@) == v@.map_values(column_name()),
{
    let mut r: Vec<String> = Vec::new();
    let mut i: usize = 0;
    while i < v.len()
        invariant
            i <= v.len(),
            string_views(r@) == v@.subrange(0, i as int).map_values(column_name()),
        decreases v.len() - i,
    {
        let n = v[i].name.clone();
        proof {
            lemma_string_views_push(r@, n);
            lemma_prefix_step(v@, i as int);
            lemma_map_push(v@.subrange(0, i as int), v@[i as int], column_name());
        }
        r.push(n);
        i = i + 1;
    }
    assert(v@.subrange(0, v.len() as int) =~= v@);
    r
}

fn column_changes_exec(
    s: &ColumnInfo,
    t: &ColumnInfo,
    ignore_comments: bool,
    order: Option<(usize, usize)>,
) -> (r: Vec<String>)
    requires
        order matches Some((a, b)) ==> a < usize::MAX && b < usize::MAX,
    ensures
        string_views(r@) == column_changes(
            *s,
            *t,
            ignore_comments,
            match order {
                Some((a, b)) => Some((a as int, b as int)),
                None => None,
            },
        ),
{
    let mut r: Vec<String> = Vec::new();
    assert(string_views(r@) =~= Seq::<Seq<char>>::empty());
    let sl = to_lowercase(s.data_type.as_str());
    let tl = to_lowercase(t.data_type.as_str());
    push_if(
        &mut r,
        !str_eq(sl.as_str(), tl.as_str()),
        change_line("type: ", t.data_type.as_str(), s.data_type.as_str()),
    );
    push_if(
        &mut r,
        s.is_nullable != t.is_nullable,
        change_line("nullable: ", yes_no_str(t.is_nullable), yes_no_str(s.is_nullable)),
    );
    push_if(
        &mut r,
        !str_eq(or_str(&s.column_default, ""), or_str(&t.column_default, "")),
        change_line("default: ", or_str(&t.column_default, "NULL"), or_str(&s.column_default, "NULL")),
    );
    push_if(
        &mut r,
        !ignore_comments && !str_eq(or_str(&s.comment, ""), or_str(&t.comment, "")),
        change_line("comment: ", or_str(&t.comment, ""), or_str(&s.comment, "")),
    );
    match order {
        Some((si, ti)) => {
            let from = decimal(ti + 1);
            let to = decimal(si + 1);
            push_if(&mut r, si != ti, change_line("order: ", from.as_str(), to.as_str()));
        },
        None => {
            assert(string_views(r@) =~= string_views(r@) + Seq::<Seq<char>>::empty());
        },
    }
    r
}

fn order_comparable_exec(
    source: &Vec<ColumnInfo>,
    target_names: &Vec<String>,
    target: &Vec<ColumnInfo>,
    compare_column_order: bool,
) -> (r: bool)
    requires
        string_views(target_names@) == target@.map_values(column_name()),
    ensures
        r == order_comparable(source@, target@, compare_column_order),
{
    if !compare_column_order || source.len() != target.len() {
        return false;
    }
    let mut i: usize = 0;
    while i < source.len()
        invariant
            i <= source.len(),
            string_views(target_names@) == target@.map_values(column_name()),
            forall|k: int|
                0 <= k < i ==> #[trigger] target@.map_values(column_name()).contains(source@[k].name@),
        decreases source.len() - i,
    {
        let found = last_position(target_names, source[i].name.as_str());
        proof {
            lemma_last_index_bound(string_views(target_names@), source@[i as int].name@);
        }
        match found {
            None => {
                assert(!target@.map_values(column_name()).contains(source@[i as int].name@));
                return false;
            },
            Some(j) => {
                assert(target@.map_values(column_name())[j as int] == source@[i as int].name@);
            },
        }
        i = i + 1;
    }
    true
}

/// The differences between source and target columns, matched by name;
/// with `detect_renames` and a positive threshold, a removed and an added
/// column of alike types become one renamed column.
pub fn diff_columns_with_options(
    source: &Vec<ColumnInfo>,
    target: &Vec<ColumnInfo>,
    ignore_comments: bool,
    compare_column_order: bool,
    detect_renames: bool,
    rename_threshold: RenameThreshold,
) -> (r: Vec<ColumnDiff>)
    ensures
        views_of(r@) == if detect_renames && rename_threshold.positive {
            with_renames(column_diffs(source@, target@, ignore_comments, compare_column_order), rename_threshold)
        } else {
            column_diffs(source@, target@, ignore_comments, compare_column_order)
        },
{
    let diffs = diff_columns_by_name(source, target, ignore_comments, compare_column_order);
    if detect_renames && rename_threshold.positive {
        detect_column_renames(diffs, rename_threshold)
    } else {
        diffs
    }
}

fn diff_columns_by_name(
    source: &Vec<ColumnInfo>,
    target: &Vec<ColumnInfo>,
    ignore_comments: bool,
    compare_column_order: bool,
) -> (r: Vec<ColumnDiff>)
    ensures
        views_of(r@) == column_diffs(source@, target@, ignore_comments, compare_column_order),
{
    let target_names = column_names(target);
    let source_names = column_names(source);
    let can_order = order_comparable_exec(source, &target_names, target, compare_column_order);
    let mut diffs: Vec<ColumnDiff> = Vec::new();
    let mut i: usize = 0;
    while i < source.len()
        invariant
            i <= source.len(),
            string_views(target_names@) == target@.map_values(column_name()),
            can_order == order_comparable(source@, target@, compare_column_order),
            views_of(diffs@) == column_source_side(source@.subrange(0, i as int), target@, ignore_comments, can_order),
        decreases source.len() - i,
    {
        proof {
            lemma_prefix_step(source@, i as int);
        }
        let s = &source[i];
        match last_position(&target_names, s.name.as_str()) {
            None => {
                let d = ColumnDiff {
                    diff_type: String::from_str("added"),
                    name: s.name.clone(),
                    source: Some(s.clone()),
                    target: None,
                    changes: Vec::new(),
                };
                proof {
                    lemma_views_push(diffs@, d);
                    assert(string_views(d.changes@) =~= Seq::<Seq<char>>::empty());
                }
                diffs.push(d);
            },
            Some(j) => {
                proof {
                    lemma_last_index_bound(string_views(target_names@), s.name@);
                }
                let t = &target[j];
                let order = if can_order {
                    Some((i, j))
                } else {
                    None
                };
                let ch = column_changes_exec(s, t, ignore_comments, order);
                if ch.len() > 0 {
                    let d = ColumnDiff {
                        diff_type: String::from_str("modified"),
                        name: s.name.clone(),
                        source: Some(s.clone()),
                        target: Some(t.clone()),
                        changes: ch,
                    };
                    proof {
                        lemma_views_push(diffs@, d);
                    }
                    diffs.push(d);
                }
            },
        }
        i = i + 1;
    }
    assert(source@.subrange(0, source.len() as int) =~= source@);
    let ghost src_part = views_of(diffs@);
    let mut k: usize = 0;
    while k < target.len()
        invariant
            k <= target.len(),
            string_views(source_names@) == source@.map_values(column_name()),
            views_of(diffs@) == src_part + target_side(
                source@,
                target@.subrange(0, k as int),
                column_name(),
                column_name(),
                never(),
            ),
        decreases target.len() - k,
    {
        proof {
            lemma_prefix_step(target@, k as int);
        }
        let t = &target[k];
        if last_position(&source_names, t.name.as_str()).is_none() {
            let d = ColumnDiff {
                diff_type: String::from_str("removed"),
                name: t.name.clone(),
                source: None,
                target: Some(t.clone()),
                changes: Vec::new(),
            };
            proof {
                lemma_views_push(diffs@, d);
                assert(string_views(d.changes@) =~= Seq::<Seq<char>>::empty());
            }
            diffs.push(d);
        }
        k = k + 1;
    }
    assert(target@.subrange(0, target.len() as int) =~= target@);
    diffs
}

/// The differences between source and target columns, comments and order
/// included in the comparison.
pub fn diff_columns(source: &Vec<ColumnInfo>, target: &Vec<ColumnInfo>) -> (r: Vec<ColumnDiff>)
    ensures
        views_of(r@) == column_diffs(source@, target@, false, false),
{
    diff_columns_by_name(source, target, false, false)
}


// ---------------------------------------------------------------------------
// Tables
// ---------------------------------------------------------------------------

pub fn clone_column_diffs(v: &Vec<ColumnDiff>) -> (r: Vec<ColumnDiff>)
    ensures
        views_of(r@) == views_of(v@),
{
    let mut out: Vec<ColumnDiff> = Vec::new();
    let mut i: usize = 0;
    while i < v.len()
        invariant
            i <= v.len(),
            views_of(out@) == views_of(v@).subrange(0, i as int),
        decreases v.len() - i,
    {
        let x = v[i].clone();
        proof {
            lemma_views_push(out@, x);
        }
        out.push(x);
        assert(views_of(out@) =~= views_of(v@).subrange(0, i + 1));
        i = i + 1;
    }
    assert(views_of(v@).subrange(0, v.len() as int) =~= views_of(v@));
    out
}

pub fn clone_index_diffs(v: &Vec<IndexDiff>) -> (r: Vec<IndexDiff>)
    ensures
        views_of(r@) == views_of(v@),
{
    let mut out: Vec<IndexDiff> = Vec::new();
    let mut i: usize = 0;
    while i < v.len()
        invariant
            i <= v.len(),
            views_of(out@) == views_of(v@).subrange(0, i as int),
        decreases v.len() - i,
    {
        let x = v[i].clone();
        proof {
            lemma_views_push(out@, x);
        }
        out.push(x);
        assert(views_of(out@) =~= views_of(v@).subrange(0, i + 1));
        i = i + 1;
    }
    assert(views_of(v@).subrange(0, v.len() as int) =~= views_of(v@));
    out
}

pub fn clone_fk_diffs(v: &Vec<ForeignKeyDiff>) -> (r: Vec<ForeignKeyDiff>)
    ensures
        views_of(r@) == views_of(v@),
{
    let mut out: Vec<ForeignKeyDiff> = Vec::new();
    let mut i: usize = 0;
    while i < v.len()
        invariant
            i <= v.len(),
            views_of(out@) == views_of(v@).subrange(0, i as int),
        decreases v.len() - i,
    {
        let x = v[i].clone();
        proof {
            lemma_views_push(out@, x);
        }
        out.push(x);
        assert(views_of(out@) =~= views_of(v@).subrange(0, i + 1));
        i = i + 1;
    }
    assert(views_of(v@).subrange(0, v.len() as int) =~= views_of(v@));
    out
}

pub fn clone_trigger_diffs(v: &Vec<TriggerDiff>) -> (r: Vec<TriggerDiff>)
    ensures
        views_of(r@) == views_of(v@),
{
    let mut out: Vec<TriggerDiff> = Vec::new();
    let mut i: usize = 0;
    while i < v.len()
        invariant
            i <= v.len(),
            views_of(out@) == views_of(v@).subrange(0, i as int),
        decreases v.len() - i,
    {
        let x = v[i].clone();
        proof {
            lemma_views_push(out@, x);
        }
        out.push(x);
        assert(views_of(out@) =~= views_of(v@).subrange(0, i + 1));
        i = i + 1;
    }
    assert(views_of(v@).subrange(0, v.len() as int) =~= views_of(v@));
    out
}

pub open spec fn opt_views<T: View>(o: Option<Vec<T>>) -> Option<Seq<T::V>> {
    match o {
        Some(v) => Some(views_of(v@)),
        None => None,
    }
}

pub open spec fn opt_opt_text(o: Option<Option<String>>) -> Option<Option<Seq<char>>> {
    match o {
        Some(inner) => Some(opt_text(inner)),
        None => None,
    }
}

/// The difference found for one table or view.
#[derive(Debug)]
pub struct TableDiff {
    pub diff_type: String,
    pub object_type: Option<String>,
    pub name: String,
    pub columns: Option<Vec<ColumnDiff>>,
    pub indexes: Option<Vec<IndexDiff>>,
    pub foreign_keys: Option<Vec<ForeignKeyDiff>>,
    pub triggers: Option<Vec<TriggerDiff>>,
    pub ddl: Option<String>,
    pub target_ddl: Option<String>,
    pub source_table_comment: Option<Option<String>>,
    pub target_table_comment: Option<Option<String>>,
    pub sync_sql: Option<String>,
}

/// A table difference as plain values.
pub struct TableDiffView {
    pub diff_type: Seq<char>,
    pub object_type: Option<Seq<char>>,
    pub name: Seq<char>,
    pub columns: Option<Seq<ItemDiff<ColumnInfo>>>,
    pub indexes: Option<Seq<ItemDiff<IndexView>>>,
    pub foreign_keys: Option<Seq<ItemDiff<ForeignKeyInfo>>>,
    pub triggers: Option<Seq<ItemDiff<TriggerInfo>>>,
    pub ddl: Option<Seq<char>>,
    pub target_ddl: Option<Seq<char>>,
    pub source_table_comment: Option<Option<Seq<char>>>,
    pub target_table_comment: Option<Option<Seq<char>>>,
    pub sync_sql: Option<Seq<char>>,
}

impl View for TableDiff {
    type V = TableDiffView;

    open spec fn view(&self) -> TableDiffView {
        TableDiffView {
            diff_type: self.diff_type@,
            object_type: opt_text(self.object_type),
            name: self.name@,
            columns: opt_views(self.columns),
            indexes: opt_views(self.indexes),
            foreign_keys: opt_views(self.foreign_keys),
            triggers: opt_views(self.triggers),
            ddl: opt_text(self.ddl),
            target_ddl: opt_text(self.target_ddl),
            source_table_comment: opt_opt_text(self.source_table_comment),
            target_table_comment: opt_opt_text(self.target_table_comment),
            sync_sql: opt_text(self.sync_sql),
        }
    }
}

pub fn clone_opt_opt(o: &Option<Option<String>>) -> (r: Option<Option<String>>)
    ensures
        r == *o,
{
    match o {
        Some(inner) => Some(clone_opt(inner)),
        None => None,
    }
}

impl Clone for TableDiff {
    fn clone(&self) -> (r: Self)
        ensures
            r@ == self@,
    {
        let columns = match &self.columns {
            Some(v) => Some(clone_column_diffs(v)),
            None => None,
        };
        let indexes = match &self.indexes {
            Some(v) => Some(clone_index_diffs(v)),
            None => None,
        };
        let foreign_keys = match &self.foreign_keys {
            Some(v) => Some(clone_fk_diffs(v)),
            None => None,
        };
        let triggers = match &self.triggers {
            Some(v) => Some(clone_trigger_diffs(v)),
            None => None,
        };
        TableDiff {
            diff_type: self.diff_type.clone(),
            object_type: clone_opt(&self.object_type),
            name: self.name.clone(),
            columns,
            indexes,
            foreign_keys,
            triggers,
            ddl: clone_opt(&self.ddl),
            target_ddl: clone_opt(&self.target_ddl),
            source_table_comment: clone_opt_opt(&self.source_table_comment),
            target_table_comment: clone_opt_opt(&self.target_table_comment),
            sync_sql: clone_opt(&self.sync_sql),
        }
    }
}

/// Everything read about one table: its columns, indexes, foreign keys,
/// triggers and DDL.
#[derive(Debug)]
pub struct TableSchemaDetail {
    pub name: String,
    pub columns: Vec<ColumnInfo>,
    pub indexes: Vec<IndexInfo>,
    pub foreign_keys: Vec<ForeignKeyInfo>,
    pub triggers: Vec<TriggerInfo>,
    pub ddl: Option<String>,
}

} // verus!
