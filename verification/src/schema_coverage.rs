//! How much of a dependency graph a comparison covers: the dependencies
//! (direct, and one step further) whose two ends were both compared, and
//! those that were not.

use vstd::prelude::*;

use crate::schema_diff::lemma_prefix_step;
use crate::schema_graph::{DependencyGraph, DependencyNode};
use crate::text::{str_eq, string_views};

verus! {

/// The tables a node depends on.
pub open spec fn deps_of(n: DependencyNode) -> Seq<Seq<char>> {
    string_views(n.depends_on@)
}

/// The first node of table `name`, if any.
pub open spec fn first_node(nodes: Seq<DependencyNode>, name: Seq<char>) -> Option<DependencyNode>
    decreases nodes.len(),
{
    if nodes.len() == 0 {
        None
    } else if nodes[0].table_name@ == name {
        Some(nodes[0])
    } else {
        first_node(nodes.drop_first(), name)
    }
}

/// How many of `s` occur in `set`.
pub open spec fn count_in(s: Seq<Seq<char>>, set: Seq<Seq<char>>) -> nat
    decreases s.len(),
{
    if s.len() == 0 {
        0
    } else {
        count_in(s.drop_last(), set) + if set.contains(s.last()) {
            1nat
        } else {
            0nat
        }
    }
}

/// The tables reached in two steps from `deps`: for each of them that has a
/// node, that node's dependencies, in order.
pub open spec fn grand_deps(all: Seq<DependencyNode>, deps: Seq<Seq<char>>) -> Seq<Seq<char>>
    decreases deps.len(),
{
    if deps.len() == 0 {
        Seq::empty()
    } else {
        grand_deps(all, deps.drop_last()) + match first_node(all, deps.last()) {
            Some(m) => deps_of(m),
            None => Seq::empty(),
        }
    }
}

/// The number of direct dependencies.
pub open spec fn direct_total(nodes: Seq<DependencyNode>) -> nat
    decreases nodes.len(),
{
    if nodes.len() == 0 {
        0
    } else {
        direct_total(nodes.drop_last()) + deps_of(nodes.last()).len()
    }
}

/// The number of direct dependencies whose two ends are both compared.
pub open spec fn direct_covered(nodes: Seq<DependencyNode>, diffed: Seq<Seq<char>>) -> nat
    decreases nodes.len(),
{
    if nodes.len() == 0 {
        0
    } else {
        direct_covered(nodes.drop_last(), diffed) + if diffed.contains(nodes.last().table_name@) {
            count_in(deps_of(nodes.last()), diffed)
        } else {
            0nat
        }
    }
}

/// The number of two-step dependencies starting at a compared table.
pub open spec fn transitive_total(nodes: Seq<DependencyNode>, all: Seq<DependencyNode>, diffed: Seq<Seq<char>>) -> nat
    decreases nodes.len(),
{
    if nodes.len() == 0 {
        0
    } else {
        transitive_total(nodes.drop_last(), all, diffed) + if diffed.contains(nodes.last().table_name@) {
            grand_deps(all, deps_of(nodes.last())).len()
        } else {
            0nat
        }
    }
}

/// The number of two-step dependencies whose two ends are both compared.
pub open spec fn transitive_covered(nodes: Seq<DependencyNode>, all: Seq<DependencyNode>, diffed: Seq<Seq<char>>) -> nat
    decreases nodes.len(),
{
    if nodes.len() == 0 {
        0
    } else {
        transitive_covered(nodes.drop_last(), all, diffed) + if diffed.contains(nodes.last().table_name@) {
            count_in(grand_deps(all, deps_of(nodes.last())), diffed)
        } else {
            0nat
        }
    }
}

/// A dependency not covered by a comparison, direct (level 1) or in two
/// steps (level 2).
#[derive(Debug)]
pub struct UncoveredEdge {
    pub from_table: String,
    pub to_table: String,
    pub level: u32,
}

/// The edges from `from` to each of `tos` at `level`, in order, where not
/// both ends are compared.
pub open spec fn missing_edges(from: Seq<char>, tos: Seq<Seq<char>>, diffed: Seq<Seq<char>>, level: u32) -> Seq<
    (Seq<char>, Seq<char>, u32),
>
    decreases tos.len(),
{
    if tos.len() == 0 {
        Seq::empty()
    } else {
        let rest = missing_edges(from, tos.drop_last(), diffed, level);
        if diffed.contains(from) && diffed.contains(tos.last()) {
            rest
        } else {
            rest.push((from, tos.last(), level))
        }
    }
}

/// The uncovered edges of the nodes, node by node: the direct ones, then the
/// two-step ones.
pub open spec fn uncovered(nodes: Seq<DependencyNode>, all: Seq<DependencyNode>, diffed: Seq<Seq<char>>) -> Seq<
    (Seq<char>, Seq<char>, u32),
>
    decreases nodes.len(),
{
    if nodes.len() == 0 {
        Seq::empty()
    } else {
        let n = nodes.last();
        uncovered(nodes.drop_last(), all, diffed) + missing_edges(n.table_name@, deps_of(n), diffed, 1) + missing_edges(
            n.table_name@,
            grand_deps(all, deps_of(n)),
            diffed,
            2,
        )
    }
}

/// An uncovered edge as plain values: from, to and level.
pub open spec fn edge_view(e: UncoveredEdge) -> (Seq<char>, Seq<char>, u32) {
    (e.from_table@, e.to_table@, e.level)
}

proof fn lemma_count_in_bound(s: Seq<Seq<char>>, set: Seq<Seq<char>>)
    ensures
        count_in(s, set) <= s.len(),
    decreases s.len(),
{
    if s.len() > 0 {
        lemma_count_in_bound(s.drop_last(), set);
    }
}

proof fn lemma_count_in_append(a: Seq<Seq<char>>, b: Seq<Seq<char>>, set: Seq<Seq<char>>)
    ensures
        count_in(a + b, set) == count_in(a, set) + count_in(b, set),
    decreases b.len(),
{
    if b.len() == 0 {
        assert(a + b =~= a);
    } else {
        assert((a + b).drop_last() =~= a + b.drop_last());
        lemma_count_in_append(a, b.drop_last(), set);
    }
}

proof fn lemma_missing_append(from: Seq<char>, a: Seq<Seq<char>>, b: Seq<Seq<char>>, diffed: Seq<Seq<char>>, level: u32)
    ensures
        missing_edges(from, a + b, diffed, level) == missing_edges(from, a, diffed, level) + missing_edges(
            from,
            b,
            diffed,
            level,
        ),
    decreases b.len(),
{
    if b.len() == 0 {
        assert(a + b =~= a);
        assert(missing_edges(from, a, diffed, level) + missing_edges(from, b, diffed, level) =~= missing_edges(
            from,
            a,
            diffed,
            level,
        ));
    } else {
        assert((a + b).drop_last() =~= a + b.drop_last());
        lemma_missing_append(from, a, b.drop_last(), diffed, level);
        let rest = missing_edges(from, a, diffed, level) + missing_edges(from, b.drop_last(), diffed, level);
        assert(missing_edges(from, a + b, diffed, level) =~= missing_edges(from, a, diffed, level) + missing_edges(
            from,
            b,
            diffed,
            level,
        ));
    }
}

proof fn lemma_direct_bounds(nodes: Seq<DependencyNode>, i: int, diffed: Seq<Seq<char>>)
    requires
        0 <= i <= nodes.len(),
    ensures
        direct_total(nodes.subrange(0, i)) <= direct_total(nodes),
        direct_covered(nodes, diffed) <= direct_total(nodes),
    decreases nodes.len(),
{
    if nodes.len() > 0 {
        if i == nodes.len() {
            assert(nodes.subrange(0, i) =~= nodes);
        } else {
            assert(nodes.drop_last().subrange(0, i) =~= nodes.subrange(0, i));
        }
        if i < nodes.len() {
            lemma_direct_bounds(nodes.drop_last(), i, diffed);
        } else {
            lemma_direct_bounds(nodes.drop_last(), 0, diffed);
        }
        lemma_count_in_bound(deps_of(nodes.last()), diffed);
    }
}

proof fn lemma_transitive_bounds(nodes: Seq<DependencyNode>, i: int, all: Seq<DependencyNode>, diffed: Seq<Seq<char>>)
    requires
        0 <= i <= nodes.len(),
    ensures
        transitive_total(nodes.subrange(0, i), all, diffed) <= transitive_total(nodes, all, diffed),
        transitive_covered(nodes, all, diffed) <= transitive_total(nodes, all, diffed),
    decreases nodes.len(),
{
    if nodes.len() > 0 {
        if i == nodes.len() {
            assert(nodes.subrange(0, i) =~= nodes);
        } else {
            assert(nodes.drop_last().subrange(0, i) =~= nodes.subrange(0, i));
        }
        if i < nodes.len() {
            lemma_transitive_bounds(nodes.drop_last(), i, all, diffed);
        } else {
            lemma_transitive_bounds(nodes.drop_last(), 0, all, diffed);
        }
        lemma_count_in_bound(grand_deps(all, deps_of(nodes.last())), diffed);
    }
}

fn names_contain(names: &[String], name: &str) -> (r: bool)
    ensures
        r == string_views(names@).contains(name@),
{
    let ghost nv = string_views(names@);
    let mut i: usize = 0;
    while i < names.len()
        invariant
            i <= names.len(),
            nv == string_views(names@),
            forall|k: int| 0 <= k < i ==> nv[k] != name@,
        decreases names.len() - i,
    {
        assert(nv[i as int] == names@[i as int]@);
        if str_eq(names[i].as_str(), name) {
            return true;
        }
        i = i + 1;
    }
    false
}

fn count_listed(s: &Vec<String>, diffed: &[String]) -> (r: u64)
    requires
        s@.len() <= u64::MAX,
    ensures
        r == count_in(string_views(s@), string_views(diffed@)),
{
    let ghost sv = string_views(s@);
    let ghost dv = string_views(diffed@);
    let mut c: u64 = 0;
    let mut j: usize = 0;
    while j < s.len()
        invariant
            j <= s.len(),
            s@.len() <= u64::MAX,
            sv == string_views(s@),
            dv == string_views(diffed@),
            c == count_in(sv.subrange(0, j as int), dv),
        decreases s.len() - j,
    {
        proof {
            lemma_prefix_step(sv, j as int);
            lemma_count_in_bound(sv.subrange(0, j as int), dv);
        }
        assert(sv[j as int] == s@[j as int]@);
        if names_contain(diffed, s[j].as_str()) {
            c = c + 1;
        }
        j = j + 1;
    }
    assert(sv.subrange(0, s.len() as int) =~= sv);
    c
}

impl DependencyGraph {
    fn first_node_exec(&self, name: &str) -> (r: Option<&DependencyNode>)
        ensures
            match r {
                Some(n) => first_node(self.nodes@, name@) == Some(*n),
                None => first_node(self.nodes@, name@) is None,
            },
    {
        let mut i: usize = 0;
        assert(self.nodes@.subrange(0, self.nodes@.len() as int) =~= self.nodes@);
        while i < self.nodes.len()
            invariant
                i <= self.nodes.len(),
                first_node(self.nodes@, name@) == first_node(
                    self.nodes@.subrange(i as int, self.nodes@.len() as int),
                    name@,
                ),
            decreases self.nodes.len() - i,
        {
            let ghost rest = self.nodes@.subrange(i as int, self.nodes@.len() as int);
            assert(rest[0] == self.nodes@[i as int]);
            assert(rest.drop_first() =~= self.nodes@.subrange(i + 1, self.nodes@.len() as int));
            if str_eq(self.nodes[i].table_name.as_str(), name) {
                return Some(&self.nodes[i]);
            }
            i = i + 1;
        }
        None
    }

    /// The direct dependencies whose two ends are both among `diffed_tables`,
    /// and all direct dependencies, counted over the nodes.
    pub fn count_edges(&self, diffed_tables: &[String]) -> (r: (u64, u64))
        requires
            direct_total(self.nodes@) <= u64::MAX,
        ensures
            r.0 == direct_covered(self.nodes@, string_views(diffed_tables@)),
            r.1 == direct_total(self.nodes@),
    {
        let ghost dv = string_views(diffed_tables@);
        let ghost nodes = self.nodes@;
        let mut covered: u64 = 0;
        let mut total: u64 = 0;
        let mut i: usize = 0;
        while i < self.nodes.len()
            invariant
                i <= self.nodes.len(),
                nodes == self.nodes@,
                dv == string_views(diffed_tables@),
                direct_total(nodes) <= u64::MAX,
                covered == direct_covered(nodes.subrange(0, i as int), dv),
                total == direct_total(nodes.subrange(0, i as int)),
            decreases self.nodes.len() - i,
        {
            proof {
                lemma_prefix_step(nodes, i as int);
                lemma_direct_bounds(nodes, i + 1, dv);
                lemma_direct_bounds(nodes.subrange(0, i + 1), i + 1, dv);
                assert(nodes.subrange(0, i + 1).subrange(0, i + 1) =~= nodes.subrange(0, i + 1));
            }
            let n = &self.nodes[i];
            let deps = n.depends_on.len();
            total = total + deps as u64;
            if names_contain(diffed_tables, n.table_name.as_str()) {
                let c = count_listed(&n.depends_on, diffed_tables);
                covered = covered + c;
            }
            i = i + 1;
        }
        assert(nodes.subrange(0, self.nodes.len() as int) =~= nodes);
        (covered, total)
    }

    /// The two-step dependencies starting at a table among `diffed_tables`
    /// whose far end is among them too, and all such two-step dependencies.
    pub fn count_transitive_edges(&self, diffed_tables: &[String]) -> (r: (u64, u64))
        requires
            transitive_total(self.nodes@, self.nodes@, string_views(diffed_tables@)) <= u64::MAX,
        ensures
            r.0 == transitive_covered(self.nodes@, self.nodes@, string_views(diffed_tables@)),
            r.1 == transitive_total(self.nodes@, self.nodes@, string_views(diffed_tables@)),
    {
        let ghost dv = string_views(diffed_tables@);
        let ghost nodes = self.nodes@;
        let mut covered: u64 = 0;
        let mut total: u64 = 0;
        let mut i: usize = 0;
        while i < self.nodes.len()
            invariant
                i <= self.nodes.len(),
                nodes == self.nodes@,
                dv == string_views(diffed_tables@),
                transitive_total(nodes, nodes, dv) <= u64::MAX,
                covered == transitive_covered(nodes.subrange(0, i as int), nodes, dv),
                total == transitive_total(nodes.subrange(0, i as int), nodes, dv),
            decreases self.nodes.len() - i,
        {
            proof {
                lemma_prefix_step(nodes, i as int);
                lemma_transitive_bounds(nodes, i + 1, nodes, dv);
                lemma_transitive_bounds(nodes.subrange(0, i + 1), i + 1, nodes, dv);
                assert(nodes.subrange(0, i + 1).subrange(0, i + 1) =~= nodes.subrange(0, i + 1));
            }
            let n = &self.nodes[i];
            if names_contain(diffed_tables, n.table_name.as_str()) {
                let ghost deps = deps_of(*n);
                let ghost bound = grand_deps(nodes, deps).len();
                let mut j: usize = 0;
                let mut c: u64 = 0;
                let mut t: u64 = 0;
                while j < n.depends_on.len()
                    invariant
                        j <= n.depends_on.len(),
                        deps == deps_of(*n),
                        nodes == self.nodes@,
                        dv == string_views(diffed_tables@),
                        total + bound <= u64::MAX,
                        bound == grand_deps(nodes, deps).len(),
                        t == grand_deps(nodes, deps.subrange(0, j as int)).len(),
                        c == count_in(grand_deps(nodes, deps.subrange(0, j as int)), dv),
                        t <= bound,
                        c <= t,
                    decreases n.depends_on.len() - j,
                {
                    proof {
                        lemma_prefix_step(deps, j as int);
                    }
                    assert(deps[j as int] == n.depends_on@[j as int]@);
                    let ghost before = grand_deps(nodes, deps.subrange(0, j as int));
                    match self.first_node_exec(n.depends_on[j].as_str()) {
                        Some(m) => {
                            proof {
                                lemma_count_in_append(before, deps_of(*m), dv);
                                lemma_count_in_bound(deps_of(*m), dv);
                                lemma_grand_prefix(nodes, deps, j as int + 1);
                            }
                            let k = m.depends_on.len();
                            t = t + k as u64;
                            let cm = count_listed(&m.depends_on, diffed_tables);
                            c = c + cm;
                        },
                        None => {
                            assert(grand_deps(nodes, deps.subrange(0, j + 1)) =~= before);
                        },
                    }
                    proof {
                        lemma_grand_prefix(nodes, deps, j as int + 1);
                    }
                    j = j + 1;
                }
                assert(deps.subrange(0, n.depends_on.len() as int) =~= deps);
                total = total + t;
                covered = covered + c;
            }
            i = i + 1;
        }
        assert(nodes.subrange(0, self.nodes.len() as int) =~= nodes);
        (covered, total)
    }
}

proof fn lemma_grand_prefix(all: Seq<DependencyNode>, deps: Seq<Seq<char>>, j: int)
    requires
        0 <= j <= deps.len(),
    ensures
        grand_deps(all, deps.subrange(0, j)).len() <= grand_deps(all, deps).len(),
    decreases deps.len(),
{
    if deps.len() > 0 {
        if j == deps.len() {
            assert(deps.subrange(0, j) =~= deps);
        } else {
            assert(deps.drop_last().subrange(0, j) =~= deps.subrange(0, j));
            lemma_grand_prefix(all, deps.drop_last(), j);
        }
    }
}


/// [`edge_view`] as a function.
pub open spec fn edge_view_fn() -> spec_fn(UncoveredEdge) -> (Seq<char>, Seq<char>, u32) {
    |e: UncoveredEdge| edge_view(e)
}

fn push_missing(
    out: &mut Vec<UncoveredEdge>,
    from: &String,
    has_from: bool,
    tos: &Vec<String>,
    diffed_tables: &[String],
    level: u32,
)
    requires
        has_from == string_views(diffed_tables@).contains(from@),
    ensures
        final(out)@.map_values(edge_view_fn()) == old(out)@.map_values(edge_view_fn()) + missing_edges(
            from@,
            string_views(tos@),
            string_views(diffed_tables@),
            level,
        ),
{
    let ghost f = edge_view_fn();
    let ghost base = out@.map_values(f);
    let ghost tv = string_views(tos@);
    let ghost dv = string_views(diffed_tables@);
    let mut k: usize = 0;
    while k < tos.len()
        invariant
            k <= tos.len(),
            f == edge_view_fn(),
            tv == string_views(tos@),
            dv == string_views(diffed_tables@),
            has_from == dv.contains(from@),
            out@.map_values(f) == base + missing_edges(from@, tv.subrange(0, k as int), dv, level),
        decreases tos.len() - k,
    {
        proof {
            lemma_prefix_step(tv, k as int);
        }
        assert(tv[k as int] == tos@[k as int]@);
        let covered = has_from && names_contain(diffed_tables, tos[k].as_str());
        if !covered {
            let e = UncoveredEdge { from_table: from.clone(), to_table: tos[k].clone(), level };
            proof {
                crate::schema_diff::lemma_map_push(out@, e, f);
            }
            out.push(e);
        }
        assert(out@.map_values(f) =~= base + missing_edges(from@, tv.subrange(0, k + 1), dv, level));
        k = k + 1;
    }
    assert(tv.subrange(0, tos.len() as int) =~= tv);
}

impl DependencyGraph {
    /// The dependencies not covered by `diffed_tables`, node by node: each
    /// direct one (level 1) and each two-step one (level 2) whose two ends
    /// are not both compared.
    pub fn collect_uncovered_edges(&self, diffed_tables: &[String]) -> (r: Vec<UncoveredEdge>)
        ensures
            r@.map_values(edge_view_fn()) == uncovered(self.nodes@, self.nodes@, string_views(diffed_tables@)),
    {
        let ghost f = edge_view_fn();
        let ghost dv = string_views(diffed_tables@);
        let ghost nodes = self.nodes@;
        let mut out: Vec<UncoveredEdge> = Vec::new();
        assert(out@.map_values(f) =~= Seq::empty());
        let mut i: usize = 0;
        while i < self.nodes.len()
            invariant
                i <= self.nodes.len(),
                f == edge_view_fn(),
                nodes == self.nodes@,
                dv == string_views(diffed_tables@),
                out@.map_values(f) == uncovered(nodes.subrange(0, i as int), nodes, dv),
            decreases self.nodes.len() - i,
        {
            proof {
                lemma_prefix_step(nodes, i as int);
            }
            let n = &self.nodes[i];
            let ghost from = n.table_name@;
            let ghost deps = deps_of(*n);
            let ghost base = out@.map_values(f);
            let has_from = names_contain(diffed_tables, n.table_name.as_str());
            push_missing(&mut out, &n.table_name, has_from, &n.depends_on, diffed_tables, 1);
            let ghost m1 = out@.map_values(f);
            let mut j: usize = 0;
            while j < n.depends_on.len()
                invariant
                    j <= n.depends_on.len(),
                    f == edge_view_fn(),
                    nodes == self.nodes@,
                    dv == string_views(diffed_tables@),
                    has_from == dv.contains(from),
                    from == n.table_name@,
                    deps == deps_of(*n),
                    out@.map_values(f) == m1 + missing_edges(from, grand_deps(nodes, deps.subrange(0, j as int)), dv, 2),
                decreases n.depends_on.len() - j,
            {
                proof {
                    lemma_prefix_step(deps, j as int);
                }
                assert(deps[j as int] == n.depends_on@[j as int]@);
                let ghost before = grand_deps(nodes, deps.subrange(0, j as int));
                match self.first_node_exec(n.depends_on[j].as_str()) {
                    Some(m) => {
                        push_missing(&mut out, &n.table_name, has_from, &m.depends_on, diffed_tables, 2);
                        proof {
                            lemma_missing_append(from, before, deps_of(*m), dv, 2);
                        }
                    },
                    None => {},
                }
                assert(out@.map_values(f) =~= m1 + missing_edges(from, grand_deps(nodes, deps.subrange(0, j + 1)), dv, 2));
                j = j + 1;
            }
            assert(deps.subrange(0, n.depends_on.len() as int) =~= deps);
            assert(out@.map_values(f) =~= uncovered(nodes.subrange(0, i + 1), nodes, dv));
            i = i + 1;
        }
        assert(nodes.subrange(0, self.nodes.len() as int) =~= nodes);
        out
    }
}

/// Coverage never exceeds the whole: the covered dependencies are at most all
/// dependencies, direct and in two steps, so each coverage ratio lies between
/// zero and one.
pub proof fn law_covered_within_total(nodes: Seq<DependencyNode>, all: Seq<DependencyNode>, diffed: Seq<Seq<char>>)
    ensures
        direct_covered(nodes, diffed) <= direct_total(nodes),
        transitive_covered(nodes, all, diffed) <= transitive_total(nodes, all, diffed),
{
    lemma_direct_bounds(nodes, 0, diffed);
    lemma_transitive_bounds(nodes, 0, all, diffed);
}

proof fn lemma_count_all(s: Seq<Seq<char>>, set: Seq<Seq<char>>)
    requires
        forall|k: int| 0 <= k < s.len() ==> set.contains(#[trigger] s[k]),
    ensures
        count_in(s, set) == s.len(),
    decreases s.len(),
{
    if s.len() > 0 {
        assert(set.contains(s[s.len() - 1]));
        lemma_count_all(s.drop_last(), set);
    }
}

proof fn lemma_missing_none(from: Seq<char>, s: Seq<Seq<char>>, diffed: Seq<Seq<char>>, level: u32)
    requires
        diffed.contains(from),
        forall|k: int| 0 <= k < s.len() ==> diffed.contains(#[trigger] s[k]),
    ensures
        missing_edges(from, s, diffed, level) == Seq::<(Seq<char>, Seq<char>, u32)>::empty(),
    decreases s.len(),
{
    if s.len() > 0 {
        assert(diffed.contains(s[s.len() - 1]));
        lemma_missing_none(from, s.drop_last(), diffed, level);
    }
}

/// Whether a comparison takes in every table of the nodes, every table they
/// depend on, and every table those depend on.
pub open spec fn compares_all(nodes: Seq<DependencyNode>, all: Seq<DependencyNode>, diffed: Seq<Seq<char>>) -> bool {
    forall|i: int|
        0 <= i < nodes.len() ==> {
            &&& diffed.contains(#[trigger] nodes[i].table_name@)
            &&& forall|k: int| 0 <= k < deps_of(nodes[i]).len() ==> diffed.contains(#[trigger] deps_of(nodes[i])[k])
            &&& forall|k: int|
                0 <= k < grand_deps(all, deps_of(nodes[i])).len() ==> diffed.contains(
                    #[trigger] grand_deps(all, deps_of(nodes[i]))[k],
                )
        }
}

/// A comparison that takes in every table involved covers every dependency:
/// nothing is left uncovered, and the covered counts equal the totals.
pub proof fn law_full_comparison_covers_everything(
    nodes: Seq<DependencyNode>,
    all: Seq<DependencyNode>,
    diffed: Seq<Seq<char>>,
)
    requires
        compares_all(nodes, all, diffed),
    ensures
        direct_covered(nodes, diffed) == direct_total(nodes),
        transitive_covered(nodes, all, diffed) == transitive_total(nodes, all, diffed),
        uncovered(nodes, all, diffed) == Seq::<(Seq<char>, Seq<char>, u32)>::empty(),
    decreases nodes.len(),
{
    if nodes.len() > 0 {
        let n = nodes.last();
        let last = nodes.len() - 1;
        assert(nodes[last] == n);
        assert(diffed.contains(nodes[last].table_name@));
        assert forall|i: int| 0 <= i < nodes.drop_last().len() implies {
            &&& diffed.contains(#[trigger] nodes.drop_last()[i].table_name@)
            &&& forall|k: int|
                0 <= k < deps_of(nodes.drop_last()[i]).len() ==> diffed.contains(
                    #[trigger] deps_of(nodes.drop_last()[i])[k],
                )
            &&& forall|k: int|
                0 <= k < grand_deps(all, deps_of(nodes.drop_last()[i])).len() ==> diffed.contains(
                    #[trigger] grand_deps(all, deps_of(nodes.drop_last()[i]))[k],
                )
        } by {
            assert(nodes.drop_last()[i] == nodes[i]);
            assert(diffed.contains(nodes[i].table_name@));
        }
        law_full_comparison_covers_everything(nodes.drop_last(), all, diffed);
        lemma_count_all(deps_of(n), diffed);
        lemma_count_all(grand_deps(all, deps_of(n)), diffed);
        lemma_missing_none(n.table_name@, deps_of(n), diffed, 1);
        lemma_missing_none(n.table_name@, grand_deps(all, deps_of(n)), diffed, 2);
        assert(uncovered(nodes, all, diffed) =~= Seq::<(Seq<char>, Seq<char>, u32)>::empty());
    }
}
} // verus!
