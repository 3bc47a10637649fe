//! Naming patterns that group tables in a comparison: glob patterns (`*`,
//! `?`) or regular expressions, and pairs of patterns that claim the same
//! table.

use vstd::prelude::*;

use crate::schema_diff::{diff_names, lemma_prefix_step, names_where};
use crate::text::{concat3, lemma_string_views_push, string_views};

verus! {

/// A compiled regular expression of the `regex` crate.
#[verifier::external_type_specification]
#[verifier::external_body]
pub struct ExRegex(regex::Regex);

/// Whether `regex::Regex::new` accepts `pattern` (valid syntax, within the
/// default size limit).
pub uninterp spec fn regex_compiles(pattern: Seq<char>) -> bool;

/// Whether the regular expression `pattern` matches somewhere in `text`, as
/// `regex::Regex::is_match` decides.
pub uninterp spec fn regex_accepts(pattern: Seq<char>, text: Seq<char>) -> bool;

/// A regular expression compiled from `pattern`.
pub struct CompiledPattern {
    pattern: String,
    re: regex::Regex,
}

impl CompiledPattern {
    /// The expression it was compiled from.
    pub closed spec fn source(&self) -> Seq<char> {
        self.pattern@
    }
}

/// `regex::Regex::new`: compiles `pattern`, or gives nothing where the
/// crate refuses it; which patterns it refuses is named, not described.
#[verifier::external_body]
fn compile_pattern(pattern: &str) -> (r: Option<CompiledPattern>)
    ensures
        r is Some <==> regex_compiles(pattern@),
        r matches Some(c) ==> c.source() == pattern@,
{
    match regex::Regex::new(pattern) {
        Ok(re) => Some(CompiledPattern { pattern: pattern.to_string(), re }),
        Err(_) => None,
    }
}

/// `regex::Regex::is_match`: whether the expression matches somewhere in
/// `text`; the answer is named, not described.
#[verifier::external_body]
fn pattern_accepts(p: &CompiledPattern, text: &str) -> (r: bool)
    ensures
        r == regex_accepts(p.source(), text@),
{
    p.re.is_match(text)
}

/// A naming pattern: a glob (`*` any run of characters, `?` one character)
/// or, with `is_regex`, a regular expression.
#[derive(Debug)]
pub struct BatchPattern {
    pub pattern: String,
    pub is_regex: bool,
    pub description: String,
}

/// A glob written as a regular expression: `*` becomes `.*`, `?` becomes `.`,
/// every other character stays.
pub open spec fn glob_regex(p: Seq<char>) -> Seq<char>
    decreases p.len(),
{
    if p.len() == 0 {
        Seq::empty()
    } else {
        glob_regex(p.drop_last()) + (if p.last() == '*' {
            seq!['.', '*']
        } else if p.last() == '?' {
            seq!['.']
        } else {
            seq![p.last()]
        })
    }
}

fn glob_regex_exec(p: &str) -> (r: String)
    ensures
        r@ == glob_regex(p@),
{
    let cs = crate::text::chars_of(p);
    let mut r = String::new();
    let mut i: usize = 0;
    while i < cs.len()
        invariant
            i <= cs.len(),
            cs@ == p@,
            r@ == glob_regex(p@.subrange(0, i as int)),
        decreases cs.len() - i,
    {
        let ghost pre = p@.subrange(0, i + 1);
        assert(pre.drop_last() =~= p@.subrange(0, i as int));
        assert(pre.last() == cs@[i as int]);
        let c = cs[i];
        if c == '*' {
            crate::text::push_char(&mut r, '.');
            crate::text::push_char(&mut r, '*');
        } else if c == '?' {
            crate::text::push_char(&mut r, '.');
        } else {
            crate::text::push_char(&mut r, c);
        }
        assert(r@ =~= glob_regex(pre));
        i = i + 1;
    }
    assert(p@.subrange(0, cs.len() as int) =~= p@);
    r
}

/// The expression a pattern groups names by: a regular expression as it
/// stands (it may match anywhere), a glob anchored at both ends.
pub open spec fn grouping_regex(p: BatchPattern) -> Seq<char> {
    if p.is_regex {
        p.pattern@
    } else {
        "^"@ + glob_regex(p.pattern@) + "$"@
    }
}

/// The expression a pattern claims names by when looking for conflicts:
/// the regular expression or glob anchored at both ends.
pub open spec fn anchored_regex(p: BatchPattern) -> Seq<char> {
    "^"@ + (if p.is_regex {
        p.pattern@
    } else {
        glob_regex(p.pattern@)
    }) + "$"@
}

fn grouping_regex_exec(p: &BatchPattern) -> (r: String)
    ensures
        r@ == grouping_regex(*p),
{
    if p.is_regex {
        p.pattern.clone()
    } else {
        let g = glob_regex_exec(p.pattern.as_str());
        concat3("^", g.as_str(), "$")
    }
}

fn anchored_regex_exec(p: &BatchPattern) -> (r: String)
    ensures
        r@ == anchored_regex(*p),
{
    if p.is_regex {
        concat3("^", p.pattern.as_str(), "$")
    } else {
        let g = glob_regex_exec(p.pattern.as_str());
        concat3("^", g.as_str(), "$")
    }
}

/// The names, in order, that the expression `re` matches.
pub open spec fn accepted_names(re: Seq<char>, names: Seq<Seq<char>>) -> Seq<Seq<char>>
    decreases names.len(),
{
    if names.len() == 0 {
        Seq::empty()
    } else {
        let rest = accepted_names(re, names.drop_last());
        if regex_accepts(re, names.last()) {
            rest.push(names.last())
        } else {
            rest
        }
    }
}

/// For each pattern whose expression compiles and matches some names, the
/// names it matches, in pattern order.
pub open spec fn pattern_groups(patterns: Seq<BatchPattern>, names: Seq<Seq<char>>) -> Seq<Seq<Seq<char>>>
    decreases patterns.len(),
{
    if patterns.len() == 0 {
        Seq::empty()
    } else {
        let rest = pattern_groups(patterns.drop_last(), names);
        let re = grouping_regex(patterns.last());
        let group = accepted_names(re, names);
        if regex_compiles(re) && group.len() > 0 {
            rest.push(group)
        } else {
            rest
        }
    }
}

fn accepted_names_exec(p: &CompiledPattern, names: &[String]) -> (r: Vec<String>)
    ensures
        string_views(r@) == accepted_names(p.source(), string_views(names@)),
{
    let ghost nv = string_views(names@);
    let mut r: Vec<String> = Vec::new();
    let mut i: usize = 0;
    while i < names.len()
        invariant
            i <= names.len(),
            nv == string_views(names@),
            string_views(r@) == accepted_names(p.source(), nv.subrange(0, i as int)),
        decreases names.len() - i,
    {
        proof {
            lemma_prefix_step(nv, i as int);
        }
        assert(nv[i as int] == names@[i as int]@);
        if pattern_accepts(p, names[i].as_str()) {
            let n = names[i].clone();
            proof {
                lemma_string_views_push(r@, n);
            }
            r.push(n);
        }
        i = i + 1;
    }
    assert(nv.subrange(0, names.len() as int) =~= nv);
    r
}

/// Splits two name lists as `diff_names` does (source only, target only,
/// both) and groups the source names by each pattern.
pub fn diff_names_with_patterns(source: &Vec<String>, target: &Vec<String>, patterns: &[BatchPattern]) -> (r: (
    Vec<String>,
    Vec<String>,
    Vec<String>,
    Vec<Vec<String>>,
))
    ensures
        string_views(r.0@) == names_where(string_views(source@), string_views(target@), false),
        string_views(r.1@) == names_where(string_views(target@), string_views(source@), false),
        string_views(r.2@) == names_where(string_views(source@), string_views(target@), true),
        r.3@.map_values(|g: Vec<String>| string_views(g@)) == pattern_groups(patterns@, string_views(source@)),
{
    let (added, removed, common) = diff_names(source, target);
    let ghost gv = |g: Vec<String>| string_views(g@);
    let mut groups: Vec<Vec<String>> = Vec::new();
    let mut i: usize = 0;
    while i < patterns.len()
        invariant
            i <= patterns.len(),
            gv == (|g: Vec<String>| string_views(g@)),
            groups@.map_values(gv) == pattern_groups(patterns@.subrange(0, i as int), string_views(source@)),
        decreases patterns.len() - i,
    {
        proof {
            lemma_prefix_step(patterns@, i as int);
        }
        let re = grouping_regex_exec(&patterns[i]);
        match compile_pattern(re.as_str()) {
            Some(c) => {
                let group = accepted_names_exec(&c, source.as_slice());
                if group.len() > 0 {
                    let ghost before = groups@;
                    groups.push(group);
                    assert(groups@.map_values(gv) =~= before.map_values(gv).push(gv(groups@.last())));
                }
            },
            None => {},
        }
        i = i + 1;
    }
    assert(patterns@.subrange(0, patterns.len() as int) =~= patterns@);
    (added, removed, common, groups)
}

/// Whether both patterns' anchored expressions compile and claim some name.
pub open spec fn patterns_overlap(a: BatchPattern, b: BatchPattern, names: Seq<Seq<char>>) -> bool {
    let ra = anchored_regex(a);
    let rb = anchored_regex(b);
    regex_compiles(ra) && regex_compiles(rb) && exists|k: int|
        0 <= k < names.len() && regex_accepts(ra, #[trigger] names[k]) && regex_accepts(rb, names[k])
}

/// The conflicts of pattern `i` with the patterns after it, below `k`: the
/// two descriptions for each overlapping pair.
pub open spec fn row_conflicts(patterns: Seq<BatchPattern>, names: Seq<Seq<char>>, i: int, k: int) -> Seq<Seq<Seq<char>>>
    decreases k - i,
{
    if k <= i + 1 {
        Seq::empty()
    } else {
        let rest = row_conflicts(patterns, names, i, k - 1);
        if patterns_overlap(patterns[i], patterns[k - 1], names) {
            rest.push(seq![patterns[i].description@, patterns[k - 1].description@])
        } else {
            rest
        }
    }
}

/// The conflicts of the first `m` patterns with the patterns after them, in
/// order of the first pattern, then the second.
pub open spec fn pattern_conflicts(patterns: Seq<BatchPattern>, names: Seq<Seq<char>>, m: int) -> Seq<Seq<Seq<char>>>
    decreases m,
{
    if m <= 0 {
        Seq::empty()
    } else {
        pattern_conflicts(patterns, names, m - 1) + row_conflicts(patterns, names, m - 1, patterns.len() as int)
    }
}

fn claims_common_name(a: &CompiledPattern, b: &CompiledPattern, names: &[String]) -> (r: bool)
    ensures
        r == exists|k: int|
            0 <= k < names@.len() && regex_accepts(a.source(), #[trigger] string_views(names@)[k])
                && regex_accepts(b.source(), string_views(names@)[k]),
{
    let ghost nv = string_views(names@);
    let mut i: usize = 0;
    while i < names.len()
        invariant
            i <= names.len(),
            nv == string_views(names@),
            forall|k: int|
                0 <= k < i ==> !(regex_accepts(a.source(), #[trigger] nv[k]) && regex_accepts(b.source(), nv[k])),
        decreases names.len() - i,
    {
        assert(nv[i as int] == names@[i as int]@);
        if pattern_accepts(a, names[i].as_str()) && pattern_accepts(b, names[i].as_str()) {
            return true;
        }
        i = i + 1;
    }
    false
}

/// The pairs of patterns (earlier one first) whose anchored expressions both
/// compile and claim a common name, as their two descriptions.
pub fn detect_pattern_conflicts(patterns: &[BatchPattern], names: &[String]) -> (r: Vec<Vec<String>>)
    ensures
        r@.map_values(|g: Vec<String>| string_views(g@)) == pattern_conflicts(
            patterns@,
            string_views(names@),
            patterns@.len() as int,
        ),
{
    let ghost gv = |g: Vec<String>| string_views(g@);
    let ghost nv = string_views(names@);
    let n = patterns.len();
    let mut conflicts: Vec<Vec<String>> = Vec::new();
    let mut i: usize = 0;
    while i < n
        invariant
            i <= n,
            n == patterns@.len(),
            nv == string_views(names@),
            gv == (|g: Vec<String>| string_views(g@)),
            conflicts@.map_values(gv) == pattern_conflicts(patterns@, nv, i as int),
        decreases n - i,
    {
        let ghost before = conflicts@.map_values(gv);
        let ri = anchored_regex_exec(&patterns[i]);
        let ci = compile_pattern(ri.as_str());
        let mut j: usize = i + 1;
        while j < n
            invariant
                i < n,
                i + 1 <= j <= n,
                n == patterns@.len(),
                nv == string_views(names@),
                gv == (|g: Vec<String>| string_views(g@)),
                ri@ == anchored_regex(patterns@[i as int]),
                ci is Some <==> regex_compiles(ri@),
                ci matches Some(c) ==> c.source() == ri@,
                conflicts@.map_values(gv) == before + row_conflicts(patterns@, nv, i as int, j as int),
            decreases n - j,
        {
            let rj = anchored_regex_exec(&patterns[j]);
            let cj = compile_pattern(rj.as_str());
            let mut overlap = false;
            match (&ci, &cj) {
                (Some(a), Some(b)) => {
                    overlap = claims_common_name(a, b, names);
                },
                _ => {},
            }
            assert(overlap == patterns_overlap(patterns@[i as int], patterns@[j as int], nv));
            if overlap {
                let pair = vec![patterns[i].description.clone(), patterns[j].description.clone()];
                assert(string_views(pair@) =~= seq![patterns@[i as int].description@, patterns@[j as int].description@]);
                let ghost pre = conflicts@;
                conflicts.push(pair);
                assert(conflicts@.map_values(gv) =~= pre.map_values(gv).push(gv(pair)));
            }
            j = j + 1;
        }
        i = i + 1;
    }
    conflicts
}

} // verus!
