//! The foreign-key dependency graph of a schema, and the order in which its
//! tables can be created (and, reversed, dropped).

use vstd::prelude::*;

use crate::schema_diff::{last_index, lemma_prefix_step, TableSchemaDetail};
use crate::schema_types::TableInfo;
use crate::text::{lemma_string_views_push, seq_contains, str_contains, str_eq, string_views};

verus! {

// ---------------------------------------------------------------------------
// Ordering nodes given by position
// ---------------------------------------------------------------------------

/// The lists of a list of position vectors.
pub open spec fn dep_lists(v: Seq<Vec<usize>>) -> Seq<Seq<usize>> {
    v.map_values(|x: Vec<usize>| x@)
}

/// Whether a sequence holds no value twice.
pub open spec fn distinct<T>(s: Seq<T>) -> bool {
    forall|a: int, b: int| 0 <= a < b < s.len() ==> s[a] != s[b]
}

/// How many of `ds` are not yet marked in `done`.
pub open spec fn pending_count(ds: Seq<usize>, done: Seq<bool>) -> nat
    decreases ds.len(),
{
    if ds.len() == 0 {
        0
    } else {
        pending_count(ds.drop_last(), done) + if done[ds.last() as int] {
            0nat
        } else {
            1nat
        }
    }
}

proof fn lemma_pending_zero(ds: Seq<usize>, done: Seq<bool>)
    ensures
        pending_count(ds, done) == 0 <==> forall|k: int| 0 <= k < ds.len() ==> done[#[trigger] ds[k] as int],
    decreases ds.len(),
{
    if ds.len() > 0 {
        lemma_pending_zero(ds.drop_last(), done);
        if pending_count(ds, done) == 0 {
            assert forall|k: int| 0 <= k < ds.len() implies done[#[trigger] ds[k] as int] by {
                if k < ds.len() - 1 {
                    assert(ds.drop_last()[k] == ds[k]);
                }
            }
        } else {
            if forall|k: int| 0 <= k < ds.len() ==> done[#[trigger] ds[k] as int] {
                assert forall|k: int| 0 <= k < ds.drop_last().len() implies done[#[trigger] ds.drop_last()[k] as int] by {
                    assert(ds.drop_last()[k] == ds[k]);
                }
                assert(done[ds[ds.len() - 1] as int]);
            }
        }
    }
}

proof fn lemma_pending_mark(ds: Seq<usize>, done: Seq<bool>, x: usize)
    requires
        distinct(ds),
        0 <= x < done.len(),
        !done[x as int],
        forall|k: int| 0 <= k < ds.len() ==> ds[k] < done.len(),
    ensures
        pending_count(ds, done.update(x as int, true)) == if ds.contains(x) {
            pending_count(ds, done) - 1
        } else {
            pending_count(ds, done) as int
        },
        ds.contains(x) ==> pending_count(ds, done) >= 1,
    decreases ds.len(),
{
    if ds.len() > 0 {
        let rest = ds.drop_last();
        assert(distinct(rest)) by {
            assert forall|a: int, b: int| 0 <= a < b < rest.len() implies rest[a] != rest[b] by {
                assert(rest[a] == ds[a] && rest[b] == ds[b]);
            }
        }
        lemma_pending_mark(rest, done, x);
        if ds.last() == x {
            assert(!rest.contains(x)) by {
                if rest.contains(x) {
                    let k = choose|k: int| 0 <= k < rest.len() && rest[k] == x;
                    assert(ds[k] == ds[ds.len() - 1]);
                }
            }
            assert(ds.contains(x)) by {
                assert(ds[ds.len() - 1] == x);
            }
        } else {
            assert(rest.contains(x) <==> ds.contains(x)) by {
                if ds.contains(x) {
                    let k = choose|k: int| 0 <= k < ds.len() && ds[k] == x;
                    assert(k < ds.len() - 1);
                    assert(rest[k] == x);
                }
                if rest.contains(x) {
                    let k = choose|k: int| 0 <= k < rest.len() && rest[k] == x;
                    assert(ds[k] == x);
                }
            }
        }
    }
}

/// How many flags are set.
pub open spec fn count_set(s: Seq<bool>) -> nat
    decreases s.len(),
{
    if s.len() == 0 {
        0
    } else {
        count_set(s.drop_last()) + if s.last() {
            1nat
        } else {
            0nat
        }
    }
}

proof fn lemma_count_set_bound(s: Seq<bool>)
    ensures
        count_set(s) <= s.len(),
    decreases s.len(),
{
    if s.len() > 0 {
        lemma_count_set_bound(s.drop_last());
    }
}

proof fn lemma_count_set_update(s: Seq<bool>, j: int)
    requires
        0 <= j < s.len(),
        !s[j],
    ensures
        count_set(s.update(j, true)) == count_set(s) + 1,
    decreases s.len(),
{
    let u = s.update(j, true);
    if j == s.len() - 1 {
        assert(u.drop_last() =~= s.drop_last());
    } else {
        assert(u.drop_last() =~= s.drop_last().update(j, true));
        lemma_count_set_update(s.drop_last(), j);
    }
}

/// The shape required of a graph given by position: `deps[i]` lists the
/// nodes node `i` depends on, each once; `dependents[j]` lists, each once,
/// the nodes depending on `j`.
pub open spec fn well_formed_graph(n: int, deps: Seq<Seq<usize>>, dependents: Seq<Seq<usize>>) -> bool {
    &&& deps.len() == n
    &&& dependents.len() == n
    &&& forall|i: int| 0 <= i < n ==> distinct(#[trigger] deps[i])
    &&& forall|i: int| 0 <= i < n ==> distinct(#[trigger] dependents[i])
    &&& forall|i: int, k: int| 0 <= i < n && 0 <= k < deps[i].len() ==> #[trigger] deps[i][k] < n
    &&& forall|i: int, k: int| 0 <= i < n && 0 <= k < dependents[i].len() ==> #[trigger] dependents[i][k] < n
    &&& forall|i: usize, j: usize|
        i < n && j < n ==> (#[trigger] deps[i as int].contains(j) <==> #[trigger] dependents[j as int].contains(i))
}

/// Whether `y` occurs in `order` before position `p`.
pub open spec fn placed_before(order: Seq<usize>, p: int, y: usize) -> bool {
    exists|q: int| 0 <= q < p && #[trigger] order[q] == y
}

/// Every node of `order[..k]` comes after all the nodes it depends on.
pub open spec fn dependencies_first(order: Seq<usize>, deps: Seq<Seq<usize>>, k: int) -> bool {
    forall|p: int, d: int|
        0 <= p < k && 0 <= d < deps[order[p] as int].len() ==> placed_before(order, p, #[trigger] deps[order[p] as int][d])
}

/// Whether the dependencies admit a ranking in which every node ranks above
/// all the nodes it depends on, that is, whether they contain no cycle.
pub open spec fn acyclic(n: int, deps: Seq<Seq<usize>>) -> bool {
    exists|rank: spec_fn(int) -> nat| #[trigger] ranked_by(rank, n, deps)
}

/// Every node ranks above all the nodes it depends on.
pub open spec fn ranked_by(rank: spec_fn(int) -> nat, n: int, deps: Seq<Seq<usize>>) -> bool {
    forall|i: int, k: int| 0 <= i < n && 0 <= k < deps[i].len() ==> rank(#[trigger] deps[i][k] as int) < rank(i)
}

/// Whether `order` lists each of the nodes `0..n` exactly once.
pub open spec fn is_permutation(order: Seq<usize>, n: int) -> bool {
    &&& order.len() == n
    &&& distinct(order)
    &&& forall|p: int| 0 <= p < order.len() ==> order[p] < n
}

proof fn lemma_done_below_rank(
    n: int,
    deps: Seq<Seq<usize>>,
    done: Seq<bool>,
    rank: spec_fn(int) -> nat,
    r: nat,
)
    requires
        done.len() == n,
        deps.len() == n,
        forall|i: int, k: int| 0 <= i < n && 0 <= k < deps[i].len() ==> #[trigger] deps[i][k] < n,
        forall|i: int, k: int| 0 <= i < n && 0 <= k < deps[i].len() ==> rank(#[trigger] deps[i][k] as int) < rank(i),
        forall|i: int|
            0 <= i < n && !done[i] ==> exists|k: int| 0 <= k < deps[i].len() && !done[#[trigger] deps[i][k] as int],
    ensures
        forall|i: int| 0 <= i < n && rank(i) < r ==> done[i],
    decreases r,
{
    if r > 0 {
        lemma_done_below_rank(n, deps, done, rank, (r - 1) as nat);
        assert forall|i: int| 0 <= i < n && rank(i) < r implies done[i] by {
            if !done[i] {
                let k = choose|k: int| 0 <= k < deps[i].len() && !done[#[trigger] deps[i][k] as int];
                assert(rank(deps[i][k] as int) < rank(i));
            }
        }
    }
}

/// Orders nodes so that each comes after the nodes it depends on, as far as
/// cycles allow: nodes are taken first-in first-out once all their
/// dependencies are placed (starting with those that have none, in position
/// order); nodes left over by cycles follow in position order.
pub fn dependency_order(n: usize, deps: &Vec<Vec<usize>>, dependents: &Vec<Vec<usize>>) -> (r: Vec<usize>)
    requires
        well_formed_graph(n as int, dep_lists(deps@), dep_lists(dependents@)),
    ensures
        is_permutation(r@, n as int),
        exists|k: int|
            0 <= k <= n && #[trigger] dependencies_first(r@, dep_lists(deps@), k) && (acyclic(
                n as int,
                dep_lists(deps@),
            ) ==> k == n),
{
    let ghost dv = dep_lists(deps@);
    let ghost tv = dep_lists(dependents@);
    let mut deg: Vec<usize> = Vec::new();
    let mut done: Vec<bool> = Vec::new();
    let mut inq: Vec<bool> = Vec::new();
    let mut i: usize = 0;
    while i < n
        invariant
            i <= n,
            dv == dep_lists(deps@),
            well_formed_graph(n as int, dv, tv),
            deg.len() == i,
            done.len() == i,
            inq.len() == i,
            forall|k: int| 0 <= k < i ==> !done@[k] && !inq@[k],
            forall|k: int| 0 <= k < i ==> deg@[k] == dv[k].len(),
        decreases n - i,
    {
        deg.push(deps[i].len());
        done.push(false);
        inq.push(false);
        i = i + 1;
    }
    proof {
        assert forall|k: int| 0 <= k < n implies deg@[k] == pending_count(dv[k], done@) by {
            lemma_pending_count_all_open(dv[k], done@);
        }
        assert(count_set(inq@) == 0) by {
            lemma_count_set_none(inq@);
        }
    }
    let mut queue: Vec<usize> = Vec::new();
    let mut j: usize = 0;
    while j < n
        invariant
            j <= n,
            dv == dep_lists(deps@),
            well_formed_graph(n as int, dv, tv),
            deg.len() == n,
            done.len() == n,
            inq.len() == n,
            forall|k: int| 0 <= k < n ==> !done@[k],
            forall|k: int| 0 <= k < n ==> deg@[k] == pending_count(dv[k], done@),
            forall|k: int| 0 <= k < n ==> (inq@[k] <==> queue@.contains(k as usize)),
            forall|k: int| 0 <= k < j ==> (inq@[k] <==> deg@[k] == 0),
            forall|k: int| j <= k < n ==> !inq@[k],
            forall|p: int| 0 <= p < queue.len() ==> queue@[p] < j && deg@[queue@[p] as int] == 0,
            distinct(queue@),
            count_set(inq@) == queue.len(),
        decreases n - j,
    {
        if deg[j] == 0 {
            proof {
                lemma_count_set_update(inq@, j as int);
            }
            let ghost before = queue@;
            queue.push(j);
            inq.set(j, true);
            proof {
                assert forall|k: int| 0 <= k < n implies (inq@[k] <==> queue@.contains(k as usize)) by {
                    lemma_contains_push(before, j, k as usize);
                }
                assert(distinct(queue@)) by {
                    assert forall|a: int, b: int| 0 <= a < b < queue.len() implies queue@[a] != queue@[b] by {
                        if b == queue.len() - 1 {
                            assert(queue@[a] == before[a]);
                        }
                    }
                }
            }
        }
        j = j + 1;
    }
    let mut h: usize = 0;
    while h < queue.len()
        invariant
            h <= queue.len(),
            dv == dep_lists(deps@),
            tv == dep_lists(dependents@),
            well_formed_graph(n as int, dv, tv),
            deg.len() == n,
            done.len() == n,
            inq.len() == n,
            forall|k: int| 0 <= k < n ==> deg@[k] == pending_count(dv[k], done@),
            forall|k: int| 0 <= k < n ==> (inq@[k] <==> queue@.contains(k as usize)),
            forall|k: int| 0 <= k < n ==> (done@[k] <==> queue@.subrange(0, h as int).contains(k as usize)),
            forall|p: int| 0 <= p < queue.len() ==> queue@[p] < n,
            forall|p: int| h <= p < queue.len() ==> deg@[queue@[p] as int] == 0,
            forall|k: int| 0 <= k < n && deg@[k] == 0 && !done@[k] ==> inq@[k],
            distinct(queue@),
            count_set(inq@) == queue.len(),
            dependencies_first(queue@, dv, h as int),
        decreases n + 1 - h,
    {
        proof {
            lemma_count_set_bound(inq@);
        }
        let x = queue[h];
        let ghost old_done = done@;
        proof {
            lemma_pending_zero(dv[x as int], done@);
            assert(!done@[x as int]) by {
                if done@[x as int] {
                    let sq = queue@.subrange(0, h as int); let q = choose|q: int| 0 <= q < h && #[trigger] sq[q] == x;
                    assert(queue@[q] == queue@[h as int]);
                }
            }
        }
        done.set(x, true);
        proof {
            assert forall|k: int| 0 <= k < n implies (done@[k] <==> queue@.subrange(0, h + 1).contains(k as usize)) by {
                if queue@.subrange(0, h + 1).contains(k as usize) {
                    let sq = queue@.subrange(0, h + 1); let q = choose|q: int| 0 <= q < h + 1 && #[trigger] sq[q] == k as usize;
                    if q < h {
                        assert(queue@.subrange(0, h as int)[q] == k as usize);
                    }
                }
                if old_done[k] {
                    let sq = queue@.subrange(0, h as int); let q = choose|q: int| 0 <= q < h && #[trigger] sq[q] == k as usize;
                    assert(queue@.subrange(0, h + 1)[q] == k as usize);
                }
                if k == x {
                    assert(queue@.subrange(0, h + 1)[h as int] == x);
                }
            }
            assert(dependencies_first(queue@, dv, h + 1)) by {
                assert forall|p: int, d: int|
                    0 <= p < h + 1 && 0 <= d < dv[queue@[p] as int].len() implies placed_before(
                    queue@,
                    p,
                    #[trigger] dv[queue@[p] as int][d],
                ) by {
                    if p == h {
                        let y = dv[x as int][d];
                        assert(old_done[y as int]);
                        let sq = queue@.subrange(0, h as int);
                        assert(sq.contains(y));
                        let q = choose|q: int| 0 <= q < h && #[trigger] sq[q] == y;
                        assert(queue@[q] == y);
                    }
                }
            }
        }
        let ds = &dependents[x];
        let ghost done_now = done@;
        let ghost deg_before = deg@;
        let mut t: usize = 0;
        while t < ds.len()
            invariant
                t <= ds.len(),
                h < queue.len(),
                x == queue@[h as int],
                x < n,
                ds@ == tv[x as int],
                dv == dep_lists(deps@),
                tv == dep_lists(dependents@),
                well_formed_graph(n as int, dv, tv),
                deg.len() == n,
                done.len() == n,
                inq.len() == n,
                done@ == done_now,
                done_now == old_done.update(x as int, true),
                old_done.len() == n,
                !old_done[x as int],
                forall|k: int|
                    0 <= k < n ==> deg@[k] == if ds@.subrange(0, t as int).contains(k as usize) {
                        pending_count(dv[k], done_now) as int
                    } else {
                        deg_before[k] as int
                    },
                deg_before.len() == n,
                forall|k: int| 0 <= k < n ==> deg_before[k] == pending_count(dv[k], old_done),
                forall|k: int| 0 <= k < n ==> (inq@[k] <==> queue@.contains(k as usize)),
                forall|k: int| 0 <= k < n ==> (done_now[k] <==> queue@.subrange(0, h + 1).contains(k as usize)),
                forall|p: int| 0 <= p < queue.len() ==> queue@[p] < n,
                forall|p: int| h < p < queue.len() ==> deg@[queue@[p] as int] == 0,
                forall|k: int|
                    0 <= k < n && deg@[k] == 0 && !done_now[k] && (ds@.subrange(0, t as int).contains(k as usize)
                        || !ds@.contains(k as usize)) ==> inq@[k],
                distinct(queue@),
                count_set(inq@) == queue.len(),
                dependencies_first(queue@, dv, h + 1),
            decreases ds.len() - t,
        {
            let y = ds[t];
            proof {
                assert(tv[x as int].contains(y)) by {
                    assert(tv[x as int][t as int] == y);
                }
                assert(dv[y as int].contains(x));
                lemma_pending_mark(dv[y as int], old_done, x);
                assert(!ds@.subrange(0, t as int).contains(y)) by {
                    if ds@.subrange(0, t as int).contains(y) {
                        let sq = ds@.subrange(0, t as int); let q = choose|q: int| 0 <= q < t && #[trigger] sq[q] == y;
                        assert(ds@[q] == ds@[t as int]);
                    }
                }
            }
            let d = deg[y];
            deg.set(y, d - 1);
            proof {
                assert forall|k: int| 0 <= k < n implies deg@[k] == if ds@.subrange(0, t + 1).contains(k as usize) {
                    pending_count(dv[k], done_now) as int
                } else {
                    deg_before[k] as int
                } by {
                    if k == y {
                        assert(ds@.subrange(0, t + 1)[t as int] == y);
                    } else {
                        if ds@.subrange(0, t + 1).contains(k as usize) {
                            let sq = ds@.subrange(0, t + 1); let q = choose|q: int| 0 <= q < t + 1 && #[trigger] sq[q] == k as usize;
                            assert(ds@.subrange(0, t as int)[q] == k as usize);
                        }
                        if ds@.subrange(0, t as int).contains(k as usize) {
                            let sq = ds@.subrange(0, t as int); let q = choose|q: int| 0 <= q < t && #[trigger] sq[q] == k as usize;
                            assert(ds@.subrange(0, t + 1)[q] == k as usize);
                        }
                    }
                }
            }
            if d - 1 == 0 {
                proof {
                    assert(!inq@[y as int]) by {
                        if inq@[y as int] {
                            let p = choose|p: int| 0 <= p < queue.len() && queue@[p] == y;
                            if p <= h {
                                let dd = choose|dd: int| 0 <= dd < dv[y as int].len() && dv[y as int][dd] == x;
                                if p < h {
                                    assert(placed_before(queue@, p, dv[queue@[p] as int][dd]));
                                    let q = choose|q: int| 0 <= q < p && #[trigger] queue@[q] == x;
                                    assert(queue@[q] == queue@[h as int]);
                                } else {
                                    assert(queue@[p] == x);
                                    assert(dv[x as int].contains(x));
                                    assert(!old_done[x as int]);
                                }
                            } else {
                                assert(deg_before[y as int] == 0);
                            }
                        }
                    }
                    lemma_count_set_update(inq@, y as int);
                }
                let ghost before_q = queue@;
                queue.push(y);
                inq.set(y, true);
                proof {
                    assert forall|k: int| 0 <= k < n implies (inq@[k] <==> queue@.contains(k as usize)) by {
                        lemma_contains_push(before_q, y, k as usize);
                    }
                    assert(queue@.subrange(0, h + 1) =~= before_q.subrange(0, h + 1));
                    lemma_deps_first_push(before_q, y, dv, h + 1);
                    assert(distinct(queue@)) by {
                        assert forall|a: int, b: int| 0 <= a < b < queue.len() implies queue@[a] != queue@[b] by {
                            if b == queue.len() - 1 && queue@[a] == y {
                                assert(queue@.drop_last().contains(y)) by {
                                    assert(queue@.drop_last()[a] == y);
                                }
                            }
                        }
                    }
                }
            }
            t = t + 1;
        }
        proof {
            assert(ds@.subrange(0, ds.len() as int) =~= ds@);
            assert forall|k: int| 0 <= k < n implies deg@[k] == pending_count(dv[k], done@) by {
                if !ds@.contains(k as usize) {
                    assert(!dv[k].contains(x)) by {
                        if dv[k].contains(x) {
                            assert(tv[x as int].contains(k as usize));
                        }
                    }
                    lemma_pending_mark(dv[k], old_done, x);
                }
            }
        }
        h = h + 1;
    }
    proof {
        lemma_count_set_bound(inq@);
        assert(queue@.subrange(0, queue.len() as int) =~= queue@);
    }
    let ghost emitted = queue@;
    let mut out = queue;
    let mut k: usize = 0;
    while k < n
        invariant
            k <= n,
            done.len() == n,
            forall|m: int| 0 <= m < n ==> (done@[m] <==> emitted.contains(m as usize)),
            out@.subrange(0, emitted.len() as int) == emitted,
            emitted.len() <= out.len(),
            distinct(out@),
            forall|p: int| 0 <= p < out.len() ==> out@[p] < n,
            forall|p: int| emitted.len() <= p < out.len() ==> out@[p] < k && !done@[out@[p] as int],
            forall|m: usize| m < k ==> #[trigger] out@.contains(m),
        decreases n - k,
    {
        let ghost before = out@;
        if !done[k] {
            out.push(k);
            proof {
                assert(out@.subrange(0, emitted.len() as int) =~= before.subrange(0, emitted.len() as int));
                assert(distinct(out@)) by {
                    assert forall|a: int, b: int| 0 <= a < b < out.len() implies out@[a] != out@[b] by {
                        if b == out.len() - 1 {
                            if a < emitted.len() {
                                assert(emitted[a] == out@[a]);
                                assert(emitted.contains(out@[a]));
                            }
                        }
                    }
                }
                assert(out@[out.len() - 1] == k);
            }
        } else {
            proof {
                let p = choose|p: int| 0 <= p < emitted.len() && emitted[p] == k;
                assert(out@[p] == k);
            }
        }
        proof {
            assert forall|m: usize| m < k + 1 implies #[trigger] out@.contains(m) by {
                if m < k {
                    assert(before.contains(m));
                    let p = choose|p: int| 0 <= p < before.len() && before[p] == m;
                    assert(out@[p] == m);
                }
            }
        }
        k = k + 1;
    }
    proof {
        lemma_no_dup_bound(out@, n as int);
        assert(dependencies_first(out@, dv, emitted.len() as int)) by {
            assert forall|p: int, d: int|
                0 <= p < emitted.len() && 0 <= d < dv[out@[p] as int].len() implies placed_before(
                out@,
                p,
                #[trigger] dv[out@[p] as int][d],
            ) by {
                assert(out@[p] == emitted[p]);
                assert(placed_before(emitted, p, dv[emitted[p] as int][d]));
                let q = choose|q: int| 0 <= q < p && #[trigger] emitted[q] == dv[emitted[p] as int][d];
                assert(out@[q] == emitted[q]);
            }
        }
        if acyclic(n as int, dv) {
            let rank = choose|rank: spec_fn(int) -> nat| #[trigger] ranked_by(rank, n as int, dv);
            assert forall|i: int| 0 <= i < n && !done@[i] implies exists|k: int|
                0 <= k < dv[i].len() && !done@[#[trigger] dv[i][k] as int] by {
                if !inq@[i] {
                    lemma_pending_zero(dv[i], done@);
                } else {
                    let p = choose|p: int| 0 <= p < emitted.len() && emitted[p] == i as usize;
                    assert(emitted.subrange(0, emitted.len() as int)[p] == i as usize);
                    assert(emitted.subrange(0, emitted.len() as int) =~= emitted);
                }
            }
            assert forall|i: int| 0 <= i < n implies done@[i] by {
                lemma_done_below_rank(n as int, dv, done@, rank, rank(i) + 1);
            }
            assert(emitted.len() == n) by {
                if emitted.len() < out.len() {
                    assert(!done@[out@[emitted.len() as int] as int]);
                }
            }
        }
    }
    out
}

proof fn lemma_deps_first_push(order: Seq<usize>, x: usize, deps: Seq<Seq<usize>>, k: int)
    requires
        0 <= k <= order.len(),
        dependencies_first(order, deps, k),
    ensures
        dependencies_first(order.push(x), deps, k),
{
    let o2 = order.push(x);
    assert forall|p: int, d: int|
        0 <= p < k && 0 <= d < deps[o2[p] as int].len() implies placed_before(o2, p, #[trigger] deps[o2[p] as int][d]) by {
        assert(o2[p] == order[p]);
        assert(placed_before(order, p, deps[order[p] as int][d]));
        let q = choose|q: int| 0 <= q < p && #[trigger] order[q] == deps[order[p] as int][d];
        assert(o2[q] == order[q]);
    }
}

proof fn lemma_contains_push<T>(s: Seq<T>, x: T, y: T)
    ensures
        s.push(x).contains(y) <==> (s.contains(y) || y == x),
{
    if s.contains(y) {
        let p = choose|p: int| 0 <= p < s.len() && s[p] == y;
        assert(s.push(x)[p] == y);
    }
    if y == x {
        assert(s.push(x)[s.len() as int] == y);
    }
    if s.push(x).contains(y) {
        let p = choose|p: int| 0 <= p < s.push(x).len() && s.push(x)[p] == y;
        if p < s.len() {
            assert(s[p] == y);
        }
    }
}

proof fn lemma_pending_count_all_open(ds: Seq<usize>, done: Seq<bool>)
    requires
        forall|k: int| 0 <= k < ds.len() ==> 0 <= ds[k] < done.len() && !done[ds[k] as int],
    ensures
        pending_count(ds, done) == ds.len(),
    decreases ds.len(),
{
    if ds.len() > 0 {
        lemma_pending_count_all_open(ds.drop_last(), done);
    }
}

proof fn lemma_count_set_none(s: Seq<bool>)
    requires
        forall|k: int| 0 <= k < s.len() ==> !s[k],
    ensures
        count_set(s) == 0,
    decreases s.len(),
{
    if s.len() > 0 {
        lemma_count_set_none(s.drop_last());
    }
}

/// A sequence of distinct values below `n` that holds every value below `n`
/// has exactly `n` elements.
proof fn lemma_no_dup_bound(s: Seq<usize>, n: int)
    requires
        distinct(s),
        forall|p: int| 0 <= p < s.len() ==> s[p] < n,
        forall|m: usize| m < n ==> #[trigger] s.contains(m),
        0 <= n <= usize::MAX,
    ensures
        s.len() == n,
{
    let si = s.map_values(|x: usize| x as int);
    assert(si.no_duplicates()) by {
        assert forall|a: int, b: int| 0 <= a < si.len() && 0 <= b < si.len() && a != b implies si[a] != si[b] by {
            if a < b {
                assert(s[a] != s[b]);
            } else {
                assert(s[b] != s[a]);
            }
        }
    }
    assert(si.to_set() =~= vstd::set_lib::set_int_range(0, n)) by {
        assert forall|m: int| si.to_set().contains(m) <==> 0 <= m < n by {
            if si.to_set().contains(m) {
                let p = choose|p: int| 0 <= p < si.len() && si[p] == m;
                assert(s[p] < n);
            }
            if 0 <= m < n {
                assert(s.contains(m as usize));
                let p = choose|p: int| 0 <= p < s.len() && s[p] == m as usize;
                assert(si[p] == m);
            }
        }
    }
    vstd::set_lib::lemma_int_range(0, n);
    si.unique_seq_to_set();
}


// ---------------------------------------------------------------------------
// The graph of a schema
// ---------------------------------------------------------------------------

/// The names of `s` without repetitions, each where it first occurs.
pub open spec fn unique_names(s: Seq<Seq<char>>) -> Seq<Seq<char>>
    decreases s.len(),
{
    if s.len() == 0 {
        Seq::empty()
    } else {
        let r = unique_names(s.drop_last());
        if r.contains(s.last()) {
            r
        } else {
            r.push(s.last())
        }
    }
}

/// The names of the tables that are not views, in order.
pub open spec fn base_table_names(tables: Seq<TableInfo>) -> Seq<Seq<char>>
    decreases tables.len(),
{
    if tables.len() == 0 {
        Seq::empty()
    } else {
        let r = base_table_names(tables.drop_last());
        if seq_contains(tables.last().table_type@, "VIEW"@) {
            r
        } else {
            r.push(tables.last().name@)
        }
    }
}

/// The nodes of the graph: each table that is not a view, once.
pub open spec fn graph_names(tables: Seq<TableInfo>) -> Seq<Seq<char>> {
    unique_names(base_table_names(tables))
}

/// The tables referenced by the foreign keys of table `name`, as the last
/// detail read for it lists them.
pub open spec fn fk_refs(details: Seq<TableSchemaDetail>, name: Seq<char>) -> Seq<Seq<char>> {
    match last_index(details.map_values(|d: TableSchemaDetail| d.name@), name) {
        Some(i) => details[i].foreign_keys@.map_values(|f: crate::schema_types::ForeignKeyInfo| f.ref_table@),
        None => Seq::empty(),
    }
}

/// The names of `refs` that are in `allowed`, without repetitions, each
/// where it first occurs.
pub open spec fn kept_unique(refs: Seq<Seq<char>>, allowed: Seq<Seq<char>>) -> Seq<Seq<char>>
    decreases refs.len(),
{
    if refs.len() == 0 {
        Seq::empty()
    } else {
        let r = kept_unique(refs.drop_last(), allowed);
        let x = refs.last();
        if allowed.contains(x) && !r.contains(x) {
            r.push(x)
        } else {
            r
        }
    }
}

/// The tables of the graph that table `name` depends on.
pub open spec fn node_deps(details: Seq<TableSchemaDetail>, names: Seq<Seq<char>>, name: Seq<char>) -> Seq<Seq<char>> {
    kept_unique(fk_refs(details, name), names)
}

/// The tables of `names` (in order) that depend on table `m`.
pub open spec fn dependents_in(details: Seq<TableSchemaDetail>, all: Seq<Seq<char>>, names: Seq<Seq<char>>, m: Seq<char>) -> Seq<
    Seq<char>,
>
    decreases names.len(),
{
    if names.len() == 0 {
        Seq::empty()
    } else {
        let r = dependents_in(details, all, names.drop_last(), m);
        if node_deps(details, all, names.last()).contains(m) {
            r.push(names.last())
        } else {
            r
        }
    }
}

/// The position of a name in a list of distinct names.
pub open spec fn position_of(names: Seq<Seq<char>>, x: Seq<char>) -> usize {
    match last_index(names, x) {
        Some(i) => i as usize,
        None => 0,
    }
}

/// For each node, the positions of the nodes it depends on.
pub open spec fn dep_positions(details: Seq<TableSchemaDetail>, tables: Seq<TableInfo>) -> Seq<Seq<usize>> {
    let names = graph_names(tables);
    Seq::new(
        names.len(),
        |a: int| node_deps(details, names, names[a]).map_values(|d: Seq<char>| position_of(names, d)),
    )
}

/// A table with the tables it depends on and those depending on it.
#[derive(Debug)]
pub struct DependencyNode {
    pub table_name: String,
    pub depends_on: Vec<String>,
    pub depended_by: Vec<String>,
}

/// The foreign-key dependencies among the tables of a schema, and an order
/// for creating them.
#[derive(Debug)]
pub struct DependencyGraph {
    pub nodes: Vec<DependencyNode>,
    pub topological_order: Vec<String>,
}

/// What a dependency graph built from `details` and `tables` holds: a node per
/// table (first occurrence, views left out) with the tables it references and
/// the tables referencing it, and a valid creation order.
pub open spec fn graph_of(g: DependencyGraph, details: Seq<TableSchemaDetail>, tables: Seq<TableInfo>) -> bool {
    &&& g.nodes.len() == graph_names(tables).len()
    &&& forall|a: int|
        0 <= a < g.nodes.len() ==> {
            let names = graph_names(tables);
            &&& (#[trigger] g.nodes@[a]).table_name@ == names[a]
            &&& string_views(g.nodes@[a].depends_on@) == node_deps(details, names, names[a])
            &&& string_views(g.nodes@[a].depended_by@) == dependents_in(details, names, names, names[a])
        }
    &&& order_is_valid(string_views(g.topological_order@), details, tables)
}

proof fn lemma_unique_names_distinct(s: Seq<Seq<char>>)
    ensures
        distinct(unique_names(s)),
        forall|x: Seq<char>| unique_names(s).contains(x) <==> s.contains(x),
    decreases s.len(),
{
    if s.len() > 0 {
        lemma_unique_names_distinct(s.drop_last());
        let r = unique_names(s.drop_last());
        assert forall|x: Seq<char>| unique_names(s).contains(x) <==> s.contains(x) by {
            if s.drop_last().contains(x) {
                let p = choose|p: int| 0 <= p < s.drop_last().len() && s.drop_last()[p] == x;
                assert(s[p] == x);
            }
            if s.contains(x) {
                let p = choose|p: int| 0 <= p < s.len() && s[p] == x;
                if p < s.len() - 1 {
                    assert(s.drop_last()[p] == x);
                }
            }
            if !r.contains(s.last()) {
                lemma_contains_push(r, s.last(), x);
            }
        }
        if !r.contains(s.last()) {
            assert forall|a: int, b: int| 0 <= a < b < r.push(s.last()).len() implies r.push(s.last())[a] != r.push(
                s.last(),
            )[b] by {
                if b == r.len() {
                    assert(r[a] == r.push(s.last())[a]);
                }
            }
        }
    }
}

proof fn lemma_kept_unique(refs: Seq<Seq<char>>, allowed: Seq<Seq<char>>)
    ensures
        distinct(kept_unique(refs, allowed)),
        forall|x: Seq<char>| kept_unique(refs, allowed).contains(x) ==> allowed.contains(x),
    decreases refs.len(),
{
    if refs.len() > 0 {
        lemma_kept_unique(refs.drop_last(), allowed);
        let r = kept_unique(refs.drop_last(), allowed);
        let x = refs.last();
        if allowed.contains(x) && !r.contains(x) {
            assert forall|y: Seq<char>| r.push(x).contains(y) implies allowed.contains(y) by {
                lemma_contains_push(r, x, y);
            }
            assert forall|a: int, b: int| 0 <= a < b < r.push(x).len() implies r.push(x)[a] != r.push(x)[b] by {
                if b == r.len() {
                    assert(r[a] == r.push(x)[a]);
                }
            }
        }
    }
}

fn contains_name(v: &Vec<String>, x: &str) -> (r: bool)
    ensures
        r == string_views(v@).contains(x@),
{
    let found = crate::schema_diff::last_position(v, x);
    proof {
        crate::schema_diff::lemma_last_index_bound_pub(string_views(v@), x@);
    }
    found.is_some()
}

fn graph_names_exec(tables: &Vec<TableInfo>) -> (r: Vec<String>)
    ensures
        string_views(r@) == graph_names(tables@),
{
    let mut base: Vec<String> = Vec::new();
    let mut names: Vec<String> = Vec::new();
    let mut i: usize = 0;
    while i < tables.len()
        invariant
            i <= tables.len(),
            string_views(base@) == base_table_names(tables@.subrange(0, i as int)),
            string_views(names@) == unique_names(string_views(base@)),
        decreases tables.len() - i,
    {
        proof {
            lemma_prefix_step(tables@, i as int);
        }
        let t = &tables[i];
        if !str_contains(t.table_type.as_str(), "VIEW") {
            let n = t.name.clone();
            let seen = contains_name(&names, n.as_str());
            let ghost before = string_views(base@);
            proof {
                lemma_string_views_push(base@, n);
            }
            base.push(n.clone());
            assert(string_views(base@).drop_last() =~= before);
            if !seen {
                proof {
                    lemma_string_views_push(names@, n);
                }
                names.push(n);
            }
        }
        i = i + 1;
    }
    assert(tables@.subrange(0, tables.len() as int) =~= tables@);
    names
}


proof fn lemma_position_of(names: Seq<Seq<char>>, x: Seq<char>)
    requires
        distinct(names),
        names.contains(x),
        names.len() <= usize::MAX,
    ensures
        position_of(names, x) < names.len(),
        names[position_of(names, x) as int] == x,
        forall|j: int| 0 <= j < names.len() && names[j] == x ==> j == position_of(names, x),
{
    crate::schema_diff::lemma_last_index_bound_pub(names, x);
    let p = last_index(names, x)->0;
    assert(position_of(names, x) as int == p);
    assert forall|j: int| 0 <= j < names.len() && names[j] == x implies j == position_of(names, x) by {
        if j < p {
            assert(names[j] != names[p]);
        } else if j > p {
            assert(names[p] != names[j]);
        }
    }
}

/// The tables a dependency graph holds, with their dependencies by position.
pub open spec fn order_is_valid(order: Seq<Seq<char>>, details: Seq<TableSchemaDetail>, tables: Seq<TableInfo>) -> bool {
    let names = graph_names(tables);
    let deps = dep_positions(details, tables);
    exists|perm: Seq<usize>|
        #![trigger is_permutation(perm, names.len() as int)]
        is_permutation(perm, names.len() as int) && order == perm.map_values(|i: usize| names[i as int]) && exists|
            k: int,
        |
            0 <= k <= names.len() && #[trigger] dependencies_first(perm, deps, k) && (acyclic(
                names.len() as int,
                deps,
            ) ==> k == names.len())
}

impl DependencyGraph {
    /// Builds the graph of the tables (views left out) from the foreign keys
    /// in their details, and orders the tables so that each comes after the
    /// tables it references, as far as reference cycles allow.
    pub fn build(details: &Vec<TableSchemaDetail>, tables: &Vec<TableInfo>) -> (g: DependencyGraph)
        ensures
            graph_of(g, details@, tables@),
    {
        let names = graph_names_exec(tables);
        let ghost nv = graph_names(tables@);
        proof {
            lemma_unique_names_distinct(base_table_names(tables@));
        }
        let n = names.len();
        let mut detail_names: Vec<String> = Vec::new();
        let mut i: usize = 0;
        while i < details.len()
            invariant
                i <= details.len(),
                string_views(detail_names@) == details@.subrange(0, i as int).map_values(
                    |d: TableSchemaDetail| d.name@,
                ),
            decreases details.len() - i,
        {
            let x = details[i].name.clone();
            proof {
                lemma_string_views_push(detail_names@, x);
                lemma_prefix_step(details@, i as int);
                crate::schema_diff::lemma_map_push(
                    details@.subrange(0, i as int),
                    details@[i as int],
                    |d: TableSchemaDetail| d.name@,
                );
            }
            detail_names.push(x);
            i = i + 1;
        }
        assert(details@.subrange(0, details.len() as int) =~= details@);
        let mut deps: Vec<Vec<String>> = Vec::new();
        let mut dep_idx: Vec<Vec<usize>> = Vec::new();
        let mut a: usize = 0;
        while a < n
            invariant
                a <= n,
                n == names.len(),
                string_views(names@) == nv,
                nv == graph_names(tables@),
                distinct(nv),
                string_views(detail_names@) == details@.map_values(|d: TableSchemaDetail| d.name@),
                deps.len() == a,
                dep_idx.len() == a,
                forall|b: int|
                    0 <= b < a ==> string_views(#[trigger] deps@[b]@) == node_deps(details@, nv, nv[b]) && dep_idx@[b]@
                        == node_deps(details@, nv, nv[b]).map_values(|d: Seq<char>| position_of(nv, d)),
            decreases n - a,
        {
            let mut cur: Vec<String> = Vec::new();
            let mut cur_idx: Vec<usize> = Vec::new();
            let ghost refs = fk_refs(details@, nv[a as int]);
            let found = crate::schema_diff::last_position(&detail_names, names[a].as_str());
            proof {
                crate::schema_diff::lemma_last_index_bound_pub(string_views(detail_names@), nv[a as int]);
            }
            match found {
                Some(di) => {
                    let fks = &details[di].foreign_keys;
                    assert(refs == fks@.map_values(|f: crate::schema_types::ForeignKeyInfo| f.ref_table@));
                    let mut k: usize = 0;
                    while k < fks.len()
                        invariant
                            k <= fks.len(),
                            refs == fks@.map_values(|f: crate::schema_types::ForeignKeyInfo| f.ref_table@),
                            string_views(names@) == nv,
                            distinct(nv),
                            string_views(cur@) == kept_unique(refs.subrange(0, k as int), nv),
                            cur_idx@ == kept_unique(refs.subrange(0, k as int), nv).map_values(
                                |d: Seq<char>| position_of(nv, d),
                            ),
                        decreases fks.len() - k,
                    {
                        proof {
                            lemma_prefix_step(refs, k as int);
                        }
                        let r = fks[k].ref_table.as_str();
                        assert(refs[k as int] == r@);
                        if contains_name(&names, r) && !contains_name(&cur, r) {
                            let pos = crate::schema_diff::last_position(&names, r);
                            proof {
                                crate::schema_diff::lemma_last_index_bound_pub(nv, r@);
                            }
                            let j = pos.unwrap();
                            let x = String::from_str(r);
                            proof {
                                lemma_string_views_push(cur@, x);
                                crate::schema_diff::lemma_map_push(
                                    kept_unique(refs.subrange(0, k as int), nv),
                                    r@,
                                    |d: Seq<char>| position_of(nv, d),
                                );
                            }
                            cur.push(x);
                            cur_idx.push(j);
                        }
                        k = k + 1;
                    }
                    assert(refs.subrange(0, fks.len() as int) =~= refs);
                },
                None => {
                    assert(string_views(cur@) =~= kept_unique(refs.subrange(0, 0), nv));
                    assert(cur_idx@ =~= kept_unique(refs.subrange(0, 0), nv).map_values(
                        |d: Seq<char>| position_of(nv, d),
                    ));
                    assert(refs.subrange(0, 0) =~= refs);
                },
            }
            let ghost old_deps = deps@;
            let ghost old_idx = dep_idx@;
            deps.push(cur);
            dep_idx.push(cur_idx);
            proof {
                assert forall|b: int|
                    0 <= b < a + 1 implies string_views(#[trigger] deps@[b]@) == node_deps(details@, nv, nv[b])
                    && dep_idx@[b]@ == node_deps(details@, nv, nv[b]).map_values(|d: Seq<char>| position_of(nv, d)) by {
                    if b < a {
                        assert(deps@[b] == old_deps[b]);
                        assert(dep_idx@[b] == old_idx[b]);
                    }
                }
            }
            a = a + 1;
        }
        assert forall|b: int|
            0 <= b < n implies (#[trigger] dep_idx@[b])@ == node_deps(details@, nv, nv[b]).map_values(
            |d: Seq<char>| position_of(nv, d),
        ) by {
            assert(string_views(deps@[b]@) == node_deps(details@, nv, nv[b]));
        }
        let mut dependents: Vec<Vec<String>> = Vec::new();
        let mut dependents_idx: Vec<Vec<usize>> = Vec::new();
        let mut m: usize = 0;
        while m < n
            invariant
                m <= n,
                n == names.len(),
                string_views(names@) == nv,
                distinct(nv),
                deps.len() == n,
                forall|b: int| 0 <= b < n ==> string_views(#[trigger] deps@[b]@) == node_deps(details@, nv, nv[b]),
                dep_idx.len() == n,
                forall|b: int|
                    0 <= b < n ==> (#[trigger] dep_idx@[b])@ == node_deps(details@, nv, nv[b]).map_values(
                        |d: Seq<char>| position_of(nv, d),
                    ),
                nv == graph_names(tables@),
                dependents.len() == m,
                dependents_idx.len() == m,
                forall|c: int|
                    0 <= c < m ==> string_views(#[trigger] dependents@[c]@) == dependents_in(details@, nv, nv, nv[c]),
                forall|c: int, e: int|
                    0 <= c < m && 0 <= e < n ==> (#[trigger] dependents_idx@[c]@.contains(e as usize) <==> node_deps(
                        details@,
                        nv,
                        nv[e],
                    ).contains(nv[c])),
                forall|c: int, p: int, q: int|
                    0 <= c < m && 0 <= p < q < dependents_idx@[c]@.len() ==> #[trigger] dependents_idx@[c]@[p]
                        < #[trigger] dependents_idx@[c]@[q],
                forall|c: int, p: int| 0 <= c < m && 0 <= p < dependents_idx@[c]@.len() ==> #[trigger] dependents_idx@[c]@[p] < n,
            decreases n - m,
        {
            let mut list: Vec<String> = Vec::new();
            let mut list_idx: Vec<usize> = Vec::new();
            let mut b: usize = 0;
            while b < n
                invariant
                    b <= n,
                    m < n,
                    n == names.len(),
                    string_views(names@) == nv,
                    deps.len() == n,
                    forall|x: int| 0 <= x < n ==> string_views(#[trigger] deps@[x]@) == node_deps(details@, nv, nv[x]),
                    string_views(list@) == dependents_in(details@, nv, nv.subrange(0, b as int), nv[m as int]),
                    forall|e: int|
                        0 <= e < n ==> (#[trigger] list_idx@.contains(e as usize) <==> (e < b && node_deps(
                            details@,
                            nv,
                            nv[e],
                        ).contains(nv[m as int]))),
                    forall|p: int, q: int| 0 <= p < q < list_idx@.len() ==> #[trigger] list_idx@[p] < #[trigger] list_idx@[q],
                    forall|p: int| 0 <= p < list_idx@.len() ==> #[trigger] list_idx@[p] < b,
                decreases n - b,
            {
                proof {
                    lemma_prefix_step(nv, b as int);
                }
                if contains_name(&deps[b], names[m].as_str()) {
                    let x = names[b].clone();
                    proof {
                        lemma_string_views_push(list@, x);
                    }
                    list.push(x);
                    let ghost before = list_idx@;
                    list_idx.push(b);
                    proof {
                        assert forall|e: int| 0 <= e < n implies (#[trigger] list_idx@.contains(e as usize) <==> (e < b + 1
                            && node_deps(details@, nv, nv[e]).contains(nv[m as int]))) by {
                            lemma_contains_push(before, b, e as usize);
                        }
                    }
                } else {
                    proof {
                        assert forall|e: int| 0 <= e < n implies (#[trigger] list_idx@.contains(e as usize) <==> (e < b + 1
                            && node_deps(details@, nv, nv[e]).contains(nv[m as int]))) by {
                            if e == b && list_idx@.contains(e as usize) {
                                let p = choose|p: int| 0 <= p < list_idx@.len() && list_idx@[p] == e as usize;
                            }
                        }
                    }
                }
                b = b + 1;
            }
            assert(nv.subrange(0, n as int) =~= nv);
            dependents.push(list);
            dependents_idx.push(list_idx);
            m = m + 1;
        }
        let ghost dpos = dep_positions(details@, tables@);
        proof {
            assert(dep_lists(dep_idx@) =~= dpos);
            assert(well_formed_graph(n as int, dep_lists(dep_idx@), dep_lists(dependents_idx@))) by {
                let dl = dep_lists(dep_idx@);
                let tl = dep_lists(dependents_idx@);
                assert forall|i: int| 0 <= i < n implies distinct(#[trigger] dl[i]) by {
                    let nd = node_deps(details@, nv, nv[i]);
                    lemma_kept_unique(fk_refs(details@, nv[i]), nv);
                    assert forall|p: int, q: int| 0 <= p < q < dl[i].len() implies dl[i][p] != dl[i][q] by {
                        lemma_position_of(nv, nd[p]);
                        lemma_position_of(nv, nd[q]);
                    }
                }
                assert forall|i: int, k: int| 0 <= i < n && 0 <= k < dl[i].len() implies #[trigger] dl[i][k] < n by {
                    let nd = node_deps(details@, nv, nv[i]);
                    lemma_kept_unique(fk_refs(details@, nv[i]), nv);
                    lemma_position_of(nv, nd[k]);
                }
                assert forall|i: usize, j: usize| i < n && j < n implies (#[trigger] dl[i as int].contains(j)
                    <==> #[trigger] tl[j as int].contains(i)) by {
                    let nd = node_deps(details@, nv, nv[i as int]);
                    lemma_kept_unique(fk_refs(details@, nv[i as int]), nv);
                    if dl[i as int].contains(j) {
                        let k = choose|k: int| 0 <= k < dl[i as int].len() && dl[i as int][k] == j;
                        lemma_position_of(nv, nd[k]);
                        assert(nd.contains(nv[j as int]));
                    }
                    if nd.contains(nv[j as int]) {
                        let k = choose|k: int| 0 <= k < nd.len() && nd[k] == nv[j as int];
                        lemma_position_of(nv, nv[j as int]);
                        assert(dl[i as int][k] == j);
                    }
                    assert(dependents_idx@[j as int]@.contains((i as int) as usize) <==> nd.contains(nv[j as int]));
                }
            }
        }
        let perm = dependency_order(n, &dep_idx, &dependents_idx);
        let mut order: Vec<String> = Vec::new();
        let mut p: usize = 0;
        while p < perm.len()
            invariant
                p <= perm.len(),
                is_permutation(perm@, n as int),
                n == names.len(),
                string_views(names@) == nv,
                string_views(order@) == perm@.subrange(0, p as int).map_values(|i: usize| nv[i as int]),
            decreases perm.len() - p,
        {
            let x = names[perm[p]].clone();
            proof {
                lemma_string_views_push(order@, x);
                lemma_prefix_step(perm@, p as int);
                crate::schema_diff::lemma_map_push(perm@.subrange(0, p as int), perm@[p as int], |i: usize| nv[i as int]);
            }
            order.push(x);
            p = p + 1;
        }
        assert(perm@.subrange(0, perm.len() as int) =~= perm@);
        let mut nodes: Vec<DependencyNode> = Vec::new();
        let mut deps_v = deps;
        let mut dependents_v = dependents;
        let mut c: usize = n;
        while c > 0
            invariant
                c <= n,
                n == names.len(),
                string_views(names@) == nv,
                deps_v.len() == c,
                dependents_v.len() == c,
                forall|b: int| 0 <= b < c ==> string_views(#[trigger] deps_v@[b]@) == node_deps(details@, nv, nv[b]),
                forall|b: int|
                    0 <= b < c ==> string_views(#[trigger] dependents_v@[b]@) == dependents_in(details@, nv, nv, nv[b]),
                nodes.len() == n - c,
                forall|e: int|
                    0 <= e < n - c ==> {
                        let b = n - 1 - e;
                        &&& (#[trigger] nodes@[e]).table_name@ == nv[b]
                        &&& string_views(nodes@[e].depends_on@) == node_deps(details@, nv, nv[b])
                        &&& string_views(nodes@[e].depended_by@) == dependents_in(details@, nv, nv, nv[b])
                    },
            decreases c,
        {
            let d1 = deps_v.pop().unwrap();
            let d2 = dependents_v.pop().unwrap();
            nodes.push(DependencyNode { table_name: names[c - 1].clone(), depends_on: d1, depended_by: d2 });
            c = c - 1;
        }
        let mut forward: Vec<DependencyNode> = Vec::new();
        while nodes.len() > 0
            invariant
                n == names.len(),
                string_views(names@) == nv,
                nodes.len() + forward.len() == n,
                forall|e: int|
                    0 <= e < nodes.len() ==> {
                        let b = n - 1 - e;
                        &&& (#[trigger] nodes@[e]).table_name@ == nv[b]
                        &&& string_views(nodes@[e].depends_on@) == node_deps(details@, nv, nv[b])
                        &&& string_views(nodes@[e].depended_by@) == dependents_in(details@, nv, nv, nv[b])
                    },
                forall|a: int|
                    0 <= a < forward.len() ==> {
                        &&& (#[trigger] forward@[a]).table_name@ == nv[a]
                        &&& string_views(forward@[a].depends_on@) == node_deps(details@, nv, nv[a])
                        &&& string_views(forward@[a].depended_by@) == dependents_in(details@, nv, nv, nv[a])
                    },
            decreases nodes.len(),
        {
            let x = nodes.pop().unwrap();
            forward.push(x);
        }
        proof {
            assert(string_views(order@) =~= perm@.map_values(|i: usize| nv[i as int]));
        }
        DependencyGraph { nodes: forward, topological_order: order }
    }

    /// The order in which to create the tables.
    pub fn build_order(&self) -> (r: Vec<String>)
        ensures
            string_views(r@) == string_views(self.topological_order@),
    {
        crate::schema_types::clone_strings(&self.topological_order)
    }

    /// The order in which to drop the tables: the creation order reversed.
    pub fn drop_order(&self) -> (r: Vec<String>)
        ensures
            string_views(r@) == string_views(self.topological_order@).reverse(),
    {
        let mut r: Vec<String> = Vec::new();
        let mut i: usize = self.topological_order.len();
        while i > 0
            invariant
                i <= self.topological_order.len(),
                string_views(r@) == string_views(self.topological_order@).subrange(
                    i as int,
                    self.topological_order.len() as int,
                ).reverse(),
            decreases i,
        {
            let x = self.topological_order[i - 1].clone();
            proof {
                lemma_string_views_push(r@, x);
            }
            r.push(x);
            i = i - 1;
            assert(string_views(r@) =~= string_views(self.topological_order@).subrange(
                i as int,
                self.topological_order.len() as int,
            ).reverse());
        }
        assert(string_views(self.topological_order@).subrange(0, self.topological_order.len() as int)
            =~= string_views(self.topological_order@));
        r
    }

    /// The node of table `name`, if the graph has one.
    pub fn node(&self, name: &str) -> (r: Option<&DependencyNode>)
        ensures
            match r {
                Some(nd) => nd.table_name@ == name@ && exists|a: int|
                    0 <= a < self.nodes.len() && self.nodes@[a] == *nd,
                None => forall|a: int| 0 <= a < self.nodes.len() ==> self.nodes@[a].table_name@ != name@,
            },
    {
        let mut i: usize = 0;
        while i < self.nodes.len()
            invariant
                i <= self.nodes.len(),
                forall|a: int| 0 <= a < i ==> self.nodes@[a].table_name@ != name@,
            decreases self.nodes.len() - i,
        {
            if str_eq(self.nodes[i].table_name.as_str(), name) {
                return Some(&self.nodes[i]);
            }
            i = i + 1;
        }
        None
    }
}

} // verus!
