//! Renamed columns among the differences of two column lists: a removed
//! column and an added one of a compatible type are taken for one column
//! under a new name.

use vstd::prelude::*;

use crate::schema_diff::{lemma_views_push, views_of, ColumnDiff, ItemDiff};
use crate::schema_types::ColumnInfo;
use crate::text::{
    ascii_lower, chars_of, concat3, is_blank, push_char, str_eq, string_views, to_ascii_lowercase, trim_blank_start,
};

verus! {

/// Where a rename-similarity threshold stands against the scores two column
/// types can reach (1.0 for the same type, 0.8 for two types of one family,
/// 0.0 otherwise): whether it is above zero, whether 0.8 reaches it and
/// whether 1.0 reaches it.
#[derive(Debug, Clone, Copy, PartialEq, Eq, Structural)]
pub struct RenameThreshold {
    pub positive: bool,
    pub admits_family: bool,
    pub admits_same: bool,
}

/// The text of `s` before its first `(`.
pub open spec fn before_paren(s: Seq<char>) -> Seq<char>
    decreases s.len(),
{
    if s.len() == 0 || s[0] == '(' {
        Seq::empty()
    } else {
        seq![s[0]] + before_paren(s.drop_first())
    }
}

/// `s` without its trailing blanks.
pub open spec fn trim_blank_end(s: Seq<char>) -> Seq<char>
    decreases s.len(),
{
    if s.len() > 0 && is_blank(s.last()) {
        trim_blank_end(s.drop_last())
    } else {
        s
    }
}

/// The base of a column type: the text before any `(`, without surrounding
/// blanks, in ASCII lower case (`varchar(120)` gives `varchar`).
pub open spec fn base_type(t: Seq<char>) -> Seq<char> {
    ascii_lower(trim_blank_start(trim_blank_end(before_paren(t))))
}

/// Two spellings of one type.
pub open spec fn same_type_alias(s: Seq<char>, t: Seq<char>) -> bool {
    ||| s == "int"@ && t == "integer"@
    ||| s == "integer"@ && t == "int"@
    ||| s == "float"@ && t == "real"@
    ||| s == "real"@ && t == "float"@
    ||| s == "double"@ && t == "double precision"@
    ||| s == "double precision"@ && t == "double"@
    ||| s == "bool"@ && t == "boolean"@
    ||| s == "boolean"@ && t == "bool"@
    ||| s == "timestamp"@ && t == "datetime"@
    ||| s == "datetime"@ && t == "timestamp"@
}

/// A base type of the integer family.
pub open spec fn integer_type(s: Seq<char>) -> bool {
    ||| s == "tinyint"@
    ||| s == "smallint"@
    ||| s == "mediumint"@
    ||| s == "int"@
    ||| s == "integer"@
    ||| s == "bigint"@
    ||| s == "serial"@
    ||| s == "bigserial"@
}

/// A base type of the text family.
pub open spec fn text_type(s: Seq<char>) -> bool {
    ||| s == "char"@
    ||| s == "varchar"@
    ||| s == "text"@
    ||| s == "tinytext"@
    ||| s == "mediumtext"@
    ||| s == "longtext"@
    ||| s == "clob"@
    ||| s == "nclob"@
}

/// How alike two column types are, in hundredths: 100 for one base type or
/// two spellings of it, 80 for two types of the integer or the text family,
/// 0 otherwise.
pub open spec fn type_similarity(a: Seq<char>, b: Seq<char>) -> nat {
    let s = base_type(a);
    let t = base_type(b);
    if s == t || same_type_alias(s, t) {
        100
    } else if (integer_type(s) && integer_type(t)) || (text_type(s) && text_type(t)) {
        80
    } else {
        0
    }
}

/// Whether a type similarity reaches the threshold.
pub open spec fn admits(th: RenameThreshold, similarity: nat) -> bool {
    (similarity == 100 && th.admits_same) || (similarity == 80 && th.admits_family)
}

/// The score of a rename, in ten-thousandths: the type similarity, times
/// 0.8 when the two columns differ in nullability.
pub open spec fn rename_score(similarity: nat, same_nullability: bool) -> int {
    if same_nullability {
        (similarity * 100) as int
    } else {
        (similarity * 80) as int
    }
}

/// Whether entry `j` may be the new name of the removed entry `r`: it is
/// an added column not taken yet (`m` holds those taken) whose type is
/// alike enough.
pub open spec fn rename_candidate(
    d: Seq<ItemDiff<ColumnInfo>>,
    th: RenameThreshold,
    r: int,
    m: Set<int>,
    j: int,
) -> bool {
    &&& !m.contains(j)
    &&& d[j].diff_type == "added"@
    &&& d[j].source is Some
    &&& admits(th, type_similarity(d[r].target->0.data_type@, d[j].source->0.data_type@))
}

/// The score of entry `j` as the new name of entry `r`.
pub open spec fn candidate_score(d: Seq<ItemDiff<ColumnInfo>>, r: int, j: int) -> int {
    rename_score(
        type_similarity(d[r].target->0.data_type@, d[j].source->0.data_type@),
        d[r].target->0.is_nullable == d[j].source->0.is_nullable,
    )
}

/// The best candidate for the removed entry `r` among entries `j..`, given
/// the best score and entry so far: the first one of the highest score.
pub open spec fn best_match(
    d: Seq<ItemDiff<ColumnInfo>>,
    th: RenameThreshold,
    r: int,
    m: Set<int>,
    j: int,
    best: (int, Option<int>),
) -> (int, Option<int>)
    decreases d.len() - j,
{
    if j >= d.len() {
        best
    } else {
        let next = if rename_candidate(d, th, r, m, j) && candidate_score(d, r, j) > best.0 {
            (candidate_score(d, r, j), Some(j))
        } else {
            best
        };
        best_match(d, th, r, m, j + 1, next)
    }
}

/// Whether entry `i` is a removed column.
pub open spec fn removed_entry(d: Seq<ItemDiff<ColumnInfo>>, i: int) -> bool {
    d[i].diff_type == "removed"@ && d[i].target is Some
}

/// The renames found from entry `i` on, each removed entry in turn taking
/// its best candidate among the added ones not taken (`m`).
pub open spec fn pairs_from(d: Seq<ItemDiff<ColumnInfo>>, th: RenameThreshold, i: int, m: Set<int>) -> Seq<
    (int, int),
>
    decreases d.len() - i,
{
    if i >= d.len() {
        seq![]
    } else if removed_entry(d, i) {
        match best_match(d, th, i, m, 0, (0, None)).1 {
            Some(a) => seq![(i, a)] + pairs_from(d, th, i + 1, m.insert(a)),
            None => pairs_from(d, th, i + 1, m),
        }
    } else {
        pairs_from(d, th, i + 1, m)
    }
}

/// The renames found among `d`: pairs of a removed and an added entry.
pub open spec fn rename_pairs(d: Seq<ItemDiff<ColumnInfo>>, th: RenameThreshold) -> Seq<(int, int)> {
    pairs_from(d, th, 0, Set::empty())
}

/// The added entry paired with the removed entry `i`, if any.
pub open spec fn added_for(pairs: Seq<(int, int)>, i: int) -> Option<int>
    decreases pairs.len(),
{
    if pairs.len() == 0 {
        None
    } else if pairs[0].0 == i {
        Some(pairs[0].1)
    } else {
        added_for(pairs.drop_first(), i)
    }
}

/// Whether the added entry `i` was taken by a rename.
pub open spec fn taken_by_rename(pairs: Seq<(int, int)>, i: int) -> bool
    decreases pairs.len(),
{
    if pairs.len() == 0 {
        false
    } else {
        pairs[0].1 == i || taken_by_rename(pairs.drop_first(), i)
    }
}

/// The entry for a rename of the removed entry `old` into the added `new`.
pub open spec fn renamed_entry(old: ItemDiff<ColumnInfo>, new: ItemDiff<ColumnInfo>) -> ItemDiff<ColumnInfo> {
    let col = new.source->0;
    ItemDiff {
        diff_type: "renamed"@,
        name: col.name@,
        source: Some(col),
        target: old.target,
        changes: seq![old.name + " → "@ + col.name@],
    }
}

/// What entry `i` becomes: a rename, nothing (an added entry taken by a
/// rename), or itself.
pub open spec fn entry_after(d: Seq<ItemDiff<ColumnInfo>>, pairs: Seq<(int, int)>, i: int) -> Seq<
    ItemDiff<ColumnInfo>,
> {
    match added_for(pairs, i) {
        Some(a) => seq![renamed_entry(d[i], d[a])],
        None => if taken_by_rename(pairs, i) {
            seq![]
        } else {
            seq![d[i]]
        },
    }
}

/// The first `k` entries of `d` after the renames `pairs`.
pub open spec fn apply_renames(d: Seq<ItemDiff<ColumnInfo>>, pairs: Seq<(int, int)>, k: int) -> Seq<
    ItemDiff<ColumnInfo>,
>
    decreases k,
{
    if k <= 0 {
        seq![]
    } else {
        apply_renames(d, pairs, k - 1) + entry_after(d, pairs, k - 1)
    }
}

/// The column differences `d` with renames detected.
pub open spec fn with_renames(d: Seq<ItemDiff<ColumnInfo>>, th: RenameThreshold) -> Seq<ItemDiff<ColumnInfo>> {
    apply_renames(d, rename_pairs(d, th), d.len() as int)
}

proof fn lemma_best_match_is_candidate(
    d: Seq<ItemDiff<ColumnInfo>>,
    th: RenameThreshold,
    r: int,
    m: Set<int>,
    j: int,
    best: (int, Option<int>),
)
    requires
        0 <= j,
        best.1 matches Some(b) ==> 0 <= b < d.len() && rename_candidate(d, th, r, m, b),
    ensures
        best_match(d, th, r, m, j, best).1 matches Some(a) ==> 0 <= a < d.len() && rename_candidate(d, th, r, m, a),
    decreases d.len() - j,
{
    if j < d.len() {
        let next = if rename_candidate(d, th, r, m, j) && candidate_score(d, r, j) > best.0 {
            (candidate_score(d, r, j), Some(j))
        } else {
            best
        };
        lemma_best_match_is_candidate(d, th, r, m, j + 1, next);
    }
}

/// Whether `p` is a rename of a removed entry at or after `i` into an added
/// entry outside `m` whose type is alike enough.
pub open spec fn sound_pair(d: Seq<ItemDiff<ColumnInfo>>, th: RenameThreshold, i: int, m: Set<int>, p: (int, int)) -> bool {
    &&& i <= p.0 < d.len()
    &&& 0 <= p.1 < d.len()
    &&& removed_entry(d, p.0)
    &&& !m.contains(p.1)
    &&& d[p.1].diff_type == "added"@
    &&& d[p.1].source is Some
    &&& admits(th, type_similarity(d[p.0].target->0.data_type@, d[p.1].source->0.data_type@))
}

proof fn lemma_pairs_from(d: Seq<ItemDiff<ColumnInfo>>, th: RenameThreshold, i: int, m: Set<int>)
    requires
        0 <= i,
    ensures
        forall|q: int|
            0 <= q < pairs_from(d, th, i, m).len() ==> sound_pair(d, th, i, m, #[trigger] pairs_from(d, th, i, m)[q]),
        forall|q1: int, q2: int|
            0 <= q1 < q2 < pairs_from(d, th, i, m).len() ==> #[trigger] pairs_from(d, th, i, m)[q1].0
                < #[trigger] pairs_from(d, th, i, m)[q2].0 && pairs_from(d, th, i, m)[q1].1 != pairs_from(
                d,
                th,
                i,
                m,
            )[q2].1,
    decreases d.len() - i,
{
    if i < d.len() {
        let all = pairs_from(d, th, i, m);
        if removed_entry(d, i) {
            lemma_best_match_is_candidate(d, th, i, m, 0, (0, None));
            match best_match(d, th, i, m, 0, (0, None)).1 {
                Some(a) => {
                    let m2 = m.insert(a);
                    lemma_pairs_from(d, th, i + 1, m2);
                    let rest = pairs_from(d, th, i + 1, m2);
                    assert(all == seq![(i, a)] + rest);
                    assert(rename_candidate(d, th, i, m, a));
                    assert forall|q: int| 0 <= q < all.len() implies sound_pair(d, th, i, m, #[trigger] all[q]) by {
                        if q > 0 {
                            assert(all[q] == rest[q - 1]);
                            assert(sound_pair(d, th, i + 1, m2, rest[q - 1]));
                        }
                    }
                    assert forall|q1: int, q2: int| 0 <= q1 < q2 < all.len() implies #[trigger] all[q1].0
                        < #[trigger] all[q2].0 && all[q1].1 != all[q2].1 by {
                        assert(all[q2] == rest[q2 - 1]);
                        assert(sound_pair(d, th, i + 1, m2, rest[q2 - 1]));
                        if q1 > 0 {
                            assert(all[q1] == rest[q1 - 1]);
                        }
                    }
                },
                None => {
                    lemma_pairs_from(d, th, i + 1, m);
                    let rest = pairs_from(d, th, i + 1, m);
                    assert(all == rest);
                    assert forall|q: int| 0 <= q < all.len() implies sound_pair(d, th, i, m, #[trigger] all[q]) by {
                        assert(sound_pair(d, th, i + 1, m, rest[q]));
                    }
                },
            }
        } else {
            lemma_pairs_from(d, th, i + 1, m);
            let rest = pairs_from(d, th, i + 1, m);
            assert(all == rest);
            assert forall|q: int| 0 <= q < all.len() implies sound_pair(d, th, i, m, #[trigger] all[q]) by {
                assert(sound_pair(d, th, i + 1, m, rest[q]));
            }
        }
    }
}

/// Each detected rename pairs a removed column with an added column whose
/// type is alike enough; no removed column and no added column takes part
/// in two renames.
pub proof fn law_renames_pair_removed_with_added(d: Seq<ItemDiff<ColumnInfo>>, th: RenameThreshold)
    ensures
        forall|q: int|
            0 <= q < rename_pairs(d, th).len() ==> {
                let p = #[trigger] rename_pairs(d, th)[q];
                &&& 0 <= p.0 < d.len()
                &&& 0 <= p.1 < d.len()
                &&& d[p.0].diff_type == "removed"@
                &&& d[p.1].diff_type == "added"@
                &&& admits(th, type_similarity(d[p.0].target->0.data_type@, d[p.1].source->0.data_type@))
            },
        forall|q1: int, q2: int|
            0 <= q1 < q2 < rename_pairs(d, th).len() ==> #[trigger] rename_pairs(d, th)[q1].0 != #[trigger] rename_pairs(
                d,
                th,
            )[q2].0 && rename_pairs(d, th)[q1].1 != rename_pairs(d, th)[q2].1,
{
    lemma_pairs_from(d, th, 0, Set::empty());
    assert forall|q: int| 0 <= q < rename_pairs(d, th).len() implies sound_pair(
        d,
        th,
        0,
        Set::empty(),
        #[trigger] rename_pairs(d, th)[q],
    ) by {}
}

/// Pairs of positions as integers.
pub open spec fn int_pairs(v: Seq<(usize, usize)>) -> Seq<(int, int)> {
    v.map_values(|p: (usize, usize)| (p.0 as int, p.1 as int))
}

/// An optional position as an integer.
pub open spec fn opt_int(o: Option<usize>) -> Option<int> {
    match o {
        Some(a) => Some(a as int),
        None => None,
    }
}

fn is_blank_exec(c: char) -> (r: bool)
    ensures
        r == is_blank(c),
{
    c == ' ' || c == '\t' || c == '\n' || c == '\r'
}

/// The base of a column type.
pub fn base_type_of(t: &str) -> (r: String)
    ensures
        r@ == base_type(t@),
{
    let cs = chars_of(t);
    let n = cs.len();
    let mut core: Vec<char> = Vec::new();
    let mut i: usize = 0;
    assert(t@.subrange(0, n as int) =~= t@);
    assert(core@ + before_paren(t@) =~= before_paren(t@));
    while i < n && cs[i] != '('
        invariant
            cs@ == t@,
            n == cs@.len(),
            i <= n,
            before_paren(t@) == core@ + before_paren(t@.subrange(i as int, n as int)),
        decreases n - i,
    {
        let ghost sub = t@.subrange(i as int, n as int);
        assert(sub.drop_first() =~= t@.subrange(i + 1, n as int));
        assert(sub[0] == cs@[i as int]);
        let ghost rest = before_paren(t@.subrange(i + 1, n as int));
        assert(core@.push(cs@[i as int]) + rest =~= core@ + (seq![cs@[i as int]] + rest));
        core.push(cs[i]);
        i = i + 1;
    }
    assert(before_paren(t@.subrange(i as int, n as int)) =~= Seq::<char>::empty());
    assert(core@ + Seq::<char>::empty() =~= core@);
    let m = core.len();
    let mut e: usize = m;
    assert(core@.subrange(0, m as int) =~= core@);
    while e > 0 && is_blank_exec(core[e - 1])
        invariant
            e <= m,
            m == core@.len(),
            trim_blank_end(core@) == trim_blank_end(core@.subrange(0, e as int)),
        decreases e,
    {
        assert(core@.subrange(0, e as int).drop_last() =~= core@.subrange(0, e - 1));
        e = e - 1;
    }
    assert(trim_blank_end(core@.subrange(0, e as int)) == core@.subrange(0, e as int));
    let mut st: usize = 0;
    assert(core@.subrange(0, e as int).subrange(0, e as int) =~= core@.subrange(0, e as int));
    while st < e && is_blank_exec(core[st])
        invariant
            st <= e <= m,
            m == core@.len(),
            trim_blank_start(core@.subrange(0, e as int)) == trim_blank_start(core@.subrange(st as int, e as int)),
        decreases e - st,
    {
        assert(core@.subrange(st as int, e as int).drop_first() =~= core@.subrange(st + 1, e as int));
        st = st + 1;
    }
    assert(trim_blank_start(core@.subrange(st as int, e as int)) == core@.subrange(st as int, e as int));
    let mut w = String::new();
    let mut j: usize = st;
    while j < e
        invariant
            st <= j <= e <= m,
            m == core@.len(),
            w@ == core@.subrange(st as int, j as int),
        decreases e - j,
    {
        push_char(&mut w, core[j]);
        assert(w@ =~= core@.subrange(st as int, j + 1));
        j = j + 1;
    }
    to_ascii_lowercase(w.as_str())
}

fn same_type_alias_exec(s: &str, t: &str) -> (r: bool)
    ensures
        r == same_type_alias(s@, t@),
{
    (str_eq(s, "int") && str_eq(t, "integer")) || (str_eq(s, "integer") && str_eq(t, "int")) || (str_eq(s, "float")
        && str_eq(t, "real")) || (str_eq(s, "real") && str_eq(t, "float")) || (str_eq(s, "double") && str_eq(
        t,
        "double precision",
    )) || (str_eq(s, "double precision") && str_eq(t, "double")) || (str_eq(s, "bool") && str_eq(t, "boolean"))
        || (str_eq(s, "boolean") && str_eq(t, "bool")) || (str_eq(s, "timestamp") && str_eq(t, "datetime")) || (
    str_eq(s, "datetime") && str_eq(t, "timestamp"))
}

fn integer_type_exec(s: &str) -> (r: bool)
    ensures
        r == integer_type(s@),
{
    str_eq(s, "tinyint") || str_eq(s, "smallint") || str_eq(s, "mediumint") || str_eq(s, "int") || str_eq(
        s,
        "integer",
    ) || str_eq(s, "bigint") || str_eq(s, "serial") || str_eq(s, "bigserial")
}

fn text_type_exec(s: &str) -> (r: bool)
    ensures
        r == text_type(s@),
{
    str_eq(s, "char") || str_eq(s, "varchar") || str_eq(s, "text") || str_eq(s, "tinytext") || str_eq(
        s,
        "mediumtext",
    ) || str_eq(s, "longtext") || str_eq(s, "clob") || str_eq(s, "nclob")
}

/// How alike two column types are, in hundredths.
pub fn type_similarity_of(a: &str, b: &str) -> (r: u32)
    ensures
        r == type_similarity(a@, b@),
{
    let s = base_type_of(a);
    let t = base_type_of(b);
    let ss = s.as_str();
    let ts = t.as_str();
    if str_eq(ss, ts) || same_type_alias_exec(ss, ts) {
        100
    } else if (integer_type_exec(ss) && integer_type_exec(ts)) || (text_type_exec(ss) && text_type_exec(ts)) {
        80
    } else {
        0
    }
}

fn added_for_exec(pairs: &Vec<(usize, usize)>, i: usize) -> (r: Option<usize>)
    ensures
        opt_int(r) == added_for(int_pairs(pairs@), i as int),
{
    let ghost p = int_pairs(pairs@);
    let mut q: usize = 0;
    assert(p.subrange(0, p.len() as int) =~= p);
    while q < pairs.len()
        invariant
            q <= pairs.len(),
            p == int_pairs(pairs@),
            added_for(p, i as int) == added_for(p.subrange(q as int, p.len() as int), i as int),
        decreases pairs.len() - q,
    {
        assert(p.subrange(q as int, p.len() as int).drop_first() =~= p.subrange(q + 1, p.len() as int));
        if pairs[q].0 == i {
            return Some(pairs[q].1);
        }
        q = q + 1;
    }
    None
}

fn taken_exec(pairs: &Vec<(usize, usize)>, i: usize) -> (r: bool)
    ensures
        r == taken_by_rename(int_pairs(pairs@), i as int),
{
    let ghost p = int_pairs(pairs@);
    let mut q: usize = 0;
    assert(p.subrange(0, p.len() as int) =~= p);
    while q < pairs.len()
        invariant
            q <= pairs.len(),
            p == int_pairs(pairs@),
            taken_by_rename(p, i as int) == taken_by_rename(p.subrange(q as int, p.len() as int), i as int),
        decreases pairs.len() - q,
    {
        assert(p.subrange(q as int, p.len() as int).drop_first() =~= p.subrange(q + 1, p.len() as int));
        if pairs[q].1 == i {
            return true;
        }
        q = q + 1;
    }
    false
}

proof fn lemma_added_for_is_a_pair(pairs: Seq<(int, int)>, i: int)
    ensures
        added_for(pairs, i) matches Some(a) ==> exists|q: int| 0 <= q < pairs.len() && pairs[q] == (i, a),
    decreases pairs.len(),
{
    if pairs.len() > 0 && pairs[0].0 != i {
        lemma_added_for_is_a_pair(pairs.drop_first(), i);
        if let Some(a) = added_for(pairs, i) {
            let q = choose|q: int| 0 <= q < pairs.len() - 1 && pairs.drop_first()[q] == (i, a);
            assert(pairs[q + 1] == (i, a));
        }
    }
}

fn clone_column_opt(o: &Option<ColumnInfo>) -> (r: Option<ColumnInfo>)
    ensures
        r == *o,
{
    match o {
        Some(c) => Some(c.clone()),
        None => None,
    }
}

/// The best candidate for the removed entry `r`.
fn best_match_exec(
    diffs: &Vec<ColumnDiff>,
    th: RenameThreshold,
    r: usize,
    matched: &Vec<bool>,
    Ghost(m): Ghost<Set<int>>,
) -> (b: Option<usize>)
    requires
        r < diffs.len(),
        removed_entry(views_of(diffs@), r as int),
        matched@.len() == diffs.len(),
        forall|k: int| 0 <= k < diffs.len() ==> matched@[k] == m.contains(k),
    ensures
        opt_int(b) == best_match(views_of(diffs@), th, r as int, m, 0, (0, None)).1,
        b matches Some(a) ==> a < diffs.len() && views_of(diffs@)[a as int].source is Some,
{
    let ghost d = views_of(diffs@);
    let removed = match &diffs[r].target {
        Some(c) => c,
        None => {
            assert(d[r as int].target is Some);
            return None;
        },
    };
    let mut best_score: u32 = 0;
    let mut best_ai: Option<usize> = None;
    let mut j: usize = 0;
    while j < diffs.len()
        invariant
            j <= diffs.len(),
            d == views_of(diffs@),
            matched@.len() == diffs.len(),
            forall|k: int| 0 <= k < diffs.len() ==> matched@[k] == m.contains(k),
            d[r as int].target == Some(*removed),
            best_score <= 10000,
            best_match(d, th, r as int, m, 0, (0, None)) == best_match(
                d,
                th,
                r as int,
                m,
                j as int,
                (best_score as int, opt_int(best_ai)),
            ),
            best_ai matches Some(a) ==> a < diffs.len() && d[a as int].source is Some,
        decreases diffs.len() - j,
    {
        let entry = &diffs[j];
        assert(d[j as int] == entry@);
        if !matched[j] && str_eq(entry.diff_type.as_str(), "added") {
            match &entry.source {
                Some(added) => {
                    let sim = type_similarity_of(removed.data_type.as_str(), added.data_type.as_str());
                    let ok = (sim == 100 && th.admits_same) || (sim == 80 && th.admits_family);
                    let score: u32 = if removed.is_nullable == added.is_nullable {
                        sim * 100
                    } else {
                        sim * 80
                    };
                    assert(ok == rename_candidate(d, th, r as int, m, j as int));
                    assert(ok ==> score as int == candidate_score(d, r as int, j as int));
                    if ok && score > best_score {
                        best_score = score;
                        best_ai = Some(j);
                    }
                },
                None => {},
            }
        }
        j = j + 1;
    }
    best_ai
}

/// The column differences `diffs` with renamed columns found: each removed
/// column in turn takes, among the added columns not taken yet whose type is
/// alike enough, the first one of the highest score; the pair becomes one
/// `renamed` entry in the removed column's place, named after the added
/// column, with the change `old → new`.
pub fn detect_column_renames(diffs: Vec<ColumnDiff>, th: RenameThreshold) -> (r: Vec<ColumnDiff>)
    ensures
        views_of(r@) == with_renames(views_of(diffs@), th),
{
    let ghost d = views_of(diffs@);
    let n = diffs.len();
    let mut matched: Vec<bool> = Vec::new();
    let ghost mut m: Set<int> = Set::empty();
    let mut k: usize = 0;
    while k < n
        invariant
            k <= n,
            n == diffs.len(),
            matched@.len() == k,
            forall|q: int| 0 <= q < k ==> !matched@[q],
        decreases n - k,
    {
        matched.push(false);
        k = k + 1;
    }
    let mut pairs: Vec<(usize, usize)> = Vec::new();
    let mut i: usize = 0;
    assert(int_pairs(pairs@) + pairs_from(d, th, 0, m) =~= pairs_from(d, th, 0, m));
    while i < n
        invariant
            i <= n,
            n == diffs.len(),
            d == views_of(diffs@),
            matched@.len() == n,
            forall|q: int| 0 <= q < n ==> matched@[q] == m.contains(q),
            rename_pairs(d, th) == int_pairs(pairs@) + pairs_from(d, th, i as int, m),
            forall|q: int|
                0 <= q < pairs@.len() ==> (#[trigger] pairs@[q]).0 < n && pairs@[q].1 < n && d[pairs@[q].1 as int].source is Some,
        decreases n - i,
    {
        let entry = &diffs[i];
        assert(d[i as int] == entry@);
        let is_removed = str_eq(entry.diff_type.as_str(), "removed") && entry.target.is_some();
        assert(is_removed == removed_entry(d, i as int));
        if is_removed {
            let b = best_match_exec(&diffs, th, i, &matched, Ghost(m));
            match b {
                Some(a) => {
                    let ghost old_pairs = pairs@;
                    pairs.push((i, a));
                    assert(int_pairs(pairs@) =~= int_pairs(old_pairs).push((i as int, a as int)));
                    assert(int_pairs(old_pairs) + (seq![(i as int, a as int)] + pairs_from(
                        d,
                        th,
                        i + 1,
                        m.insert(a as int),
                    )) =~= int_pairs(pairs@) + pairs_from(d, th, i + 1, m.insert(a as int)));
                    matched.set(a, true);
                    proof {
                        m = m.insert(a as int);
                    }
                },
                None => {},
            }
        }
        i = i + 1;
    }
    assert(pairs_from(d, th, n as int, m) =~= Seq::<(int, int)>::empty());
    assert(int_pairs(pairs@) + Seq::<(int, int)>::empty() =~= int_pairs(pairs@));
    let ghost p = int_pairs(pairs@);
    let mut out: Vec<ColumnDiff> = Vec::new();
    let mut k: usize = 0;
    while k < n
        invariant
            k <= n,
            n == diffs.len(),
            d == views_of(diffs@),
            p == int_pairs(pairs@),
            p == rename_pairs(d, th),
            forall|q: int|
                0 <= q < pairs@.len() ==> (#[trigger] pairs@[q]).0 < n && pairs@[q].1 < n && d[pairs@[q].1 as int].source is Some,
            views_of(out@) == apply_renames(d, p, k as int),
        decreases n - k,
    {
        let entry = &diffs[k];
        assert(d[k as int] == entry@);
        match added_for_exec(&pairs, k) {
            Some(a) => {
                proof {
                    lemma_added_for_is_a_pair(p, k as int);
                    let q = choose|q: int| 0 <= q < p.len() && p[q] == (k as int, a as int);
                    assert(pairs@[q].1 == a);
                }
                let new_entry = &diffs[a];
                assert(d[a as int] == new_entry@);
                match &new_entry.source {
                    Some(col) => {
                        let change = concat3(entry.name.as_str(), " → ", col.name.as_str());
                        let mut changes: Vec<String> = Vec::new();
                        changes.push(change);
                        let rd = ColumnDiff {
                            diff_type: String::from_str("renamed"),
                            name: col.name.clone(),
                            source: Some(col.clone()),
                            target: clone_column_opt(&entry.target),
                            changes,
                        };
                        assert(string_views(changes@) =~= seq![entry.name@ + " → "@ + col.name@]);
                        assert(rd@ == renamed_entry(d[k as int], d[a as int]));
                        proof {
                            lemma_views_push(out@, rd);
                        }
                        out.push(rd);
                    },
                    None => {
                        assert(false);
                    },
                }
            },
            None => {
                if !taken_exec(&pairs, k) {
                    let c = entry.clone();
                    proof {
                        lemma_views_push(out@, c);
                    }
                    out.push(c);
                } else {
                    assert(views_of(out@) + Seq::<ItemDiff<ColumnInfo>>::empty() =~= views_of(out@));
                }
            },
        }
        k = k + 1;
    }
    out
}

} // verus!
