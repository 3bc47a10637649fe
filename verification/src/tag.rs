//! Business-tag inheritance: a whitelist decides which tag keys a child layer
//! may inherit, and a validator sorts tags into allowed and blocked ones and
//! reports violations.

use vstd::prelude::*;

use crate::text::str_eq;

verus! {

/// How a whitelist treats tag keys it does not list.
///
/// `Allow` lets every key through; `Block` lets only listed keys through;
/// `Strict` filters keys as `Block` does and also checks tag values against
/// the base layer, and every violation it reports counts as blocking.
#[derive(Debug, Clone, Copy, PartialEq, Eq, Structural)]
pub enum TagPolicy {
    Allow,
    Block,
    Strict,
}

impl Default for TagPolicy {
    fn default() -> (r: Self)
        ensures
            r == TagPolicy::Allow,
    {
        TagPolicy::Allow
    }
}

/// The policy a whitelist gets when none is given: `Block`.
pub fn default_policy() -> (r: TagPolicy)
    ensures
        r == TagPolicy::Block,
{
    TagPolicy::Block
}

/// A key/value tag attached to a configuration layer.
#[derive(Debug)]
pub struct BusinessTag {
    pub key: String,
    pub value: String,
    pub description: String,
    pub immutable: bool,
}

impl Clone for BusinessTag {
    fn clone(&self) -> (r: Self)
        ensures
            r == *self,
    {
        BusinessTag {
            key: self.key.clone(),
            value: self.value.clone(),
            description: self.description.clone(),
            immutable: self.immutable,
        }
    }
}


/// Whether a sequence of strings holds no two equal strings.
pub open spec fn distinct_keys(keys: Seq<String>) -> bool {
    forall|i: int, j: int| 0 <= i < j < keys.len() ==> keys[i]@ != keys[j]@
}

/// Whether `key` is one of `keys`.
pub open spec fn has_key(keys: Seq<String>, key: Seq<char>) -> bool {
    exists|i: int| 0 <= i < keys.len() && keys[i]@ == key
}

proof fn lemma_has_key_push(keys: Seq<String>, x: String)
    ensures
        forall|k: Seq<char>| has_key(keys.push(x), k) <==> (has_key(keys, k) || x@ == k),
{
    assert forall|k: Seq<char>| has_key(keys.push(x), k) <==> (has_key(keys, k) || x@ == k) by {
        if has_key(keys, k) {
            let j = choose|j: int| 0 <= j < keys.len() && keys[j]@ == k;
            assert(keys.push(x)[j] == keys[j]);
        }
        if x@ == k {
            assert(keys.push(x)[keys.len() as int] == x);
        }
        if has_key(keys.push(x), k) {
            let j = choose|j: int| 0 <= j < keys.len() + 1 && keys.push(x)[j]@ == k;
            if j < keys.len() {
                assert(keys.push(x)[j] == keys[j]);
            }
        }
    }
}

/// Linear search for `key` among `keys`.
fn find_key(keys: &Vec<String>, key: &str) -> (r: Option<usize>)
    ensures
        match r {
            Some(i) => i < keys.len() && keys@[i as int]@ == key@,
            None => !has_key(keys@, key@),
        },
{
    let mut i: usize = 0;
    while i < keys.len()
        invariant
            i <= keys.len(),
            forall|j: int| 0 <= j < i ==> keys@[j]@ != key@,
        decreases keys.len() - i,
    {
        if str_eq(keys[i].as_str(), key) {
            return Some(i);
        }
        i = i + 1;
    }
    None
}

/// The keys a child layer may inherit, and what happens to the others.
///
/// `allowed_keys` holds each key once.
#[derive(Debug, Clone)]
pub struct TagInheritanceWhitelist {
    pub allowed_keys: Vec<String>,
    pub default_policy: TagPolicy,
}

impl TagInheritanceWhitelist {
    /// Whether a tag with key `key` passes this whitelist.
    pub open spec fn allows(self, key: Seq<char>) -> bool {
        match self.default_policy {
            TagPolicy::Allow => true,
            TagPolicy::Block => has_key(self.allowed_keys@, key),
            TagPolicy::Strict => has_key(self.allowed_keys@, key),
        }
    }

    /// A whitelist listing the keys of `allowed` (each once) under `policy`.
    pub fn new(allowed: Vec<String>, policy: TagPolicy) -> (r: Self)
        ensures
            r.default_policy == policy,
            distinct_keys(r.allowed_keys@),
            forall|k: Seq<char>| has_key(r.allowed_keys@, k) <==> has_key(allowed@, k),
    {
        let mut keys: Vec<String> = Vec::new();
        let mut i: usize = 0;
        while i < allowed.len()
            invariant
                i <= allowed.len(),
                distinct_keys(keys@),
                forall|k: Seq<char>| has_key(keys@, k) <==> has_key(allowed@.subrange(0, i as int), k),
            decreases allowed.len() - i,
        {
            let ghost before = keys@;
            let found = find_key(&keys, allowed[i].as_str());
            if found.is_none() {
                keys.push(allowed[i].clone());
            }
            proof {
                lemma_has_key_push(before, allowed@[i as int]);
                assert(allowed@.subrange(0, i + 1) =~= allowed@.subrange(0, i as int).push(allowed@[i as int]));
                lemma_has_key_push(allowed@.subrange(0, i as int), allowed@[i as int]);
                if found.is_none() {
                    assert(keys@ =~= before.push(allowed@[i as int]));
                } else {
                    let m = found.unwrap();
                    assert(before[m as int]@ == allowed@[i as int]@);
                    assert(has_key(before, allowed@[i as int]@));
                }
                assert forall|k: Seq<char>| has_key(keys@, k) <==> has_key(allowed@.subrange(0, i + 1), k) by {
                    assert(has_key(before, k) <==> has_key(allowed@.subrange(0, i as int), k));
                }
            }
            i = i + 1;
        }
        assert(allowed@.subrange(0, allowed.len() as int) =~= allowed@);
        TagInheritanceWhitelist { allowed_keys: keys, default_policy: policy }
    }

    /// Whether a tag with key `key` passes this whitelist.
    pub fn is_allowed(&self, key: &str) -> (r: bool)
        ensures
            r == self.allows(key@),
    {
        match self.default_policy {
            TagPolicy::Allow => true,
            TagPolicy::Block => find_key(&self.allowed_keys, key).is_some(),
            TagPolicy::Strict => find_key(&self.allowed_keys, key).is_some(),
        }
    }
}

impl Default for TagInheritanceWhitelist {
    fn default() -> (r: Self)
        ensures
            r.allowed_keys@.len() == 0,
            r.default_policy == TagPolicy::Block,
    {
        TagInheritanceWhitelist { allowed_keys: Vec::new(), default_policy: default_policy() }
    }
}


/// The base layer's tags: at most one value per key.
#[derive(Debug)]
pub struct TagMap {
    keys: Vec<String>,
    values: Vec<String>,
}

impl TagMap {
    #[verifier::type_invariant]
    spec fn well_formed(self) -> bool {
        &&& self.keys.len() == self.values.len()
        &&& distinct_keys(self.keys@)
    }

    /// Index of `k` among the keys, where it occurs.
    spec fn index_of(self, k: Seq<char>) -> int {
        choose|i: int| 0 <= i < self.keys@.len() && self.keys@[i]@ == k
    }

    /// The key/value map that this value holds.
    pub closed spec fn as_map(self) -> Map<Seq<char>, Seq<char>> {
        Map::new(
            |k: Seq<char>| has_key(self.keys@, k),
            |k: Seq<char>| self.values@[self.index_of(k)]@,
        )
    }

    /// An empty map.
    pub fn new() -> (r: Self)
        ensures
            r.as_map() == Map::<Seq<char>, Seq<char>>::empty(),
    {
        let r = TagMap { keys: Vec::new(), values: Vec::new() };
        assert(r.as_map() =~= Map::<Seq<char>, Seq<char>>::empty());
        r
    }

    /// The value stored under `key`, if any.
    pub fn get(&self, key: &str) -> (r: Option<&String>)
        ensures
            match r {
                Some(v) => self.as_map().contains_key(key@) && self.as_map()[key@] == v@,
                None => !self.as_map().contains_key(key@),
            },
    {
        proof {
            use_type_invariant(self);
        }
        match find_key(&self.keys, key) {
            Some(i) => {
                let ghost j = self.index_of(key@);
                assert(self.keys@[j]@ == key@);
                assert(j == i);
                Some(&self.values[i])
            },
            None => None,
        }
    }

    /// Stores `value` under `key`, replacing an earlier value.
    pub fn insert(&mut self, key: String, value: String)
        ensures
            final(self).as_map() == old(self).as_map().insert(key@, value@),
    {
        proof {
            use_type_invariant(&*self);
        }
        let ghost old_map = self.as_map();
        let ghost old_keys = self.keys@;
        let mut current = TagMap::new();
        std::mem::swap(&mut current, self);
        proof {
            use_type_invariant(&current);
        }
        let TagMap { keys: mut keys, values: mut values } = current;
        match find_key(&keys, key.as_str()) {
            Some(i) => {
                values.set(i, value);
                *self = TagMap { keys, values };
                proof {
                    let m = self.as_map();
                    assert forall|k: Seq<char>| #[trigger] m.contains_key(k) implies m[k] == old_map.insert(key@, value@)[k] by {
                        let a = self.index_of(k);
                        assert(self.keys@[a]@ == k);
                        if k == key@ {
                            assert(a == i);
                        }
                    }
                    assert(m =~= old_map.insert(key@, value@));
                }
            },
            None => {
                proof {
                    lemma_has_key_push(keys@, key);
                }
                let ghost before = keys@;
                keys.push(key);
                values.push(value);
                assert forall|a: int, b: int| 0 <= a < b < keys@.len() implies keys@[a]@ != keys@[b]@ by {
                    if b < before.len() {
                        assert(keys@[a] == before[a] && keys@[b] == before[b]);
                    } else {
                        assert(keys@[a] == before[a]);
                    }
                }
                *self = TagMap { keys, values };
                proof {
                    let m = self.as_map();
                    assert forall|k: Seq<char>| #[trigger] m.contains_key(k) implies m[k] == old_map.insert(key@, value@)[k] by {
                        let a = self.index_of(k);
                        assert(self.keys@[a]@ == k);
                        if k == key@ {
                            assert(a == old_keys.len());
                        } else {
                            assert(has_key(old_keys, k));
                            assert(a < old_keys.len());
                            assert(old_keys[a] == self.keys@[a]);
                        }
                    }
                    assert(m =~= old_map.insert(key@, value@));
                }
            },
        }
    }
}


/// What a validator found: tags that pass, tags that are blocked, and the
/// violation messages.
#[derive(Debug, Clone)]
pub struct TagValidationResult {
    pub allowed: Vec<BusinessTag>,
    pub blocked: Vec<BusinessTag>,
    pub violations: Vec<String>,
}

/// Checks a layer's tags against a whitelist and, in strict mode, against the
/// base layer's values.
#[derive(Debug, Clone)]
pub struct TagValidator {
    pub whitelist: TagInheritanceWhitelist,
    pub strict_mode: bool,
}

/// The message for a tag whose key the whitelist does not let through.
pub open spec fn blocked_message(tag: BusinessTag, strict: bool) -> Seq<char> {
    "BLOCKED: Tag '"@ + tag.key@ + "'='"@ + tag.value@ + if strict {
        "' is not in whitelist (strict mode)"@
    } else {
        "' is not in whitelist"@
    }
}

/// The message for a tag whose value differs from the base layer's `base`.
pub open spec fn mismatch_message(tag: BusinessTag, base: Seq<char>) -> Seq<char> {
    "STRICT VIOLATION: Tag '"@ + tag.key@ + "'='"@ + tag.value@ + "' differs from base value '"@
        + base + "'"@
}

/// The views of a sequence of strings.
pub open spec fn views(v: Seq<String>) -> Seq<Seq<char>> {
    v.map_values(|s: String| s@)
}

impl TagValidator {
    /// Whether `tag` passes the whitelist.
    pub open spec fn passes(self, tag: BusinessTag) -> bool {
        self.whitelist.allows(tag.key@)
    }

    /// Whether values are checked against the base layer and every violation
    /// blocks: in strict mode, or under a `Strict` whitelist.
    pub open spec fn checks_values(self) -> bool {
        self.strict_mode || self.whitelist.default_policy == TagPolicy::Strict
    }

    /// Whether `tag` passes but, where values are checked, differs from the
    /// base value.
    pub open spec fn mismatches(self, tag: BusinessTag, base: Map<Seq<char>, Seq<char>>) -> bool {
        &&& self.passes(tag)
        &&& self.checks_values()
        &&& base.contains_key(tag.key@)
        &&& base[tag.key@] != tag.value@
    }

    /// The violation messages that one tag gives rise to.
    pub open spec fn tag_violations(self, tag: BusinessTag, base: Map<Seq<char>, Seq<char>>) -> Seq<
        Seq<char>,
    > {
        if !self.passes(tag) {
            seq![blocked_message(tag, self.strict_mode)]
        } else if self.mismatches(tag, base) {
            seq![mismatch_message(tag, base[tag.key@])]
        } else {
            seq![]
        }
    }

    /// The violation messages of a sequence of tags, in order.
    pub open spec fn violations_of(self, tags: Seq<BusinessTag>, base: Map<Seq<char>, Seq<char>>) -> Seq<
        Seq<char>,
    >
        decreases tags.len(),
    {
        if tags.len() == 0 {
            seq![]
        } else {
            self.violations_of(tags.drop_last(), base) + self.tag_violations(tags.last(), base)
        }
    }

    /// The tags that pass, in order.
    pub open spec fn allowed_of(self, tags: Seq<BusinessTag>) -> Seq<BusinessTag> {
        tags.filter(|t: BusinessTag| self.passes(t))
    }

    /// The tags that are blocked, in order.
    pub open spec fn blocked_of(self, tags: Seq<BusinessTag>) -> Seq<BusinessTag> {
        tags.filter(|t: BusinessTag| !self.passes(t))
    }

    /// Whether a result counts as blocked under this validator's mode.
    pub open spec fn blocking(self, blocked: Seq<BusinessTag>, violations: Seq<Seq<char>>) -> bool {
        if self.checks_values() {
            violations.len() != 0
        } else {
            blocked.len() != 0
        }
    }

    pub fn new(whitelist: TagInheritanceWhitelist, strict_mode: bool) -> (r: Self)
        ensures
            r.whitelist == whitelist,
            r.strict_mode == strict_mode,
    {
        TagValidator { whitelist, strict_mode }
    }

    /// Sorts `tags` into allowed and blocked ones and collects the violations.
    pub fn validate_tags(&self, tags: &[BusinessTag], base_tags: &TagMap) -> (r: TagValidationResult)
        ensures
            r.allowed@ == self.allowed_of(tags@),
            r.blocked@ == self.blocked_of(tags@),
            views(r.violations@) == self.violations_of(tags@, base_tags.as_map()),
    {
        let mut allowed: Vec<BusinessTag> = Vec::new();
        let mut blocked: Vec<BusinessTag> = Vec::new();
        let mut violations: Vec<String> = Vec::new();
        let ghost base = base_tags.as_map();
        let mut i: usize = 0;
        while i < tags.len()
            invariant
                i <= tags.len(),
                base == base_tags.as_map(),
                allowed@ == self.allowed_of(tags@.subrange(0, i as int)),
                blocked@ == self.blocked_of(tags@.subrange(0, i as int)),
                views(violations@) == self.violations_of(tags@.subrange(0, i as int), base),
            decreases tags.len() - i,
        {
            let tag = &tags[i];
            let ghost pre = tags@.subrange(0, i as int);
            let ghost post = tags@.subrange(0, i + 1);
            assert(post.drop_last() =~= pre);
            assert(post.last() == *tag);
            assert(post =~= pre.push(*tag));
            proof {
                reveal(Seq::filter);
            }
            assert(self.allowed_of(post) == if self.passes(*tag) {
                self.allowed_of(pre).push(*tag)
            } else {
                self.allowed_of(pre)
            });
            assert(self.blocked_of(post) == if !self.passes(*tag) {
                self.blocked_of(pre).push(*tag)
            } else {
                self.blocked_of(pre)
            });
            let ghost old_v = violations@;
            if !self.whitelist.is_allowed(tag.key.as_str()) {
                blocked.push(tag.clone());
                let mut msg = String::from_str("BLOCKED: Tag '");
                msg.append(tag.key.as_str());
                msg.append("'='");
                msg.append(tag.value.as_str());
                if self.strict_mode {
                    msg.append("' is not in whitelist (strict mode)");
                } else {
                    msg.append("' is not in whitelist");
                }
                violations.push(msg);
                assert(views(violations@) =~= views(old_v) + self.tag_violations(*tag, base));
            } else {
                match base_tags.get(tag.key.as_str()) {
                    Some(base_val) => {
                        let checks = self.strict_mode || self.whitelist.default_policy == TagPolicy::Strict;
                        if checks && !(tag.value == *base_val) {
                            let mut msg = String::from_str("STRICT VIOLATION: Tag '");
                            msg.append(tag.key.as_str());
                            msg.append("'='");
                            msg.append(tag.value.as_str());
                            msg.append("' differs from base value '");
                            msg.append(base_val.as_str());
                            msg.append("'");
                            violations.push(msg);
                            assert(views(violations@) =~= views(old_v) + self.tag_violations(*tag, base));
                        } else {
                            assert(views(violations@) =~= views(old_v) + self.tag_violations(*tag, base));
                        }
                    },
                    None => {
                        assert(views(violations@) =~= views(old_v) + self.tag_violations(*tag, base));
                    },
                }
                allowed.push(tag.clone());
            }
            i = i + 1;
        }
        assert(tags@.subrange(0, tags@.len() as int) =~= tags@);
        TagValidationResult { allowed, blocked, violations }
    }

    /// Whether `result` holds violations that block inheritance: any
    /// violation in strict mode or under a `Strict` whitelist, any blocked tag
    /// otherwise.
    pub fn has_blocking_violations(&self, result: &TagValidationResult) -> (r: bool)
        ensures
            r == self.blocking(result.blocked@, views(result.violations@)),
    {
        if self.strict_mode || self.whitelist.default_policy == TagPolicy::Strict {
            !(result.violations.len() == 0)
        } else {
            !(result.blocked.len() == 0)
        }
    }
}

impl Default for TagValidator {
    fn default() -> (r: Self)
        ensures
            r.whitelist.allowed_keys@.len() == 0,
            r.whitelist.default_policy == TagPolicy::Block,
            !r.strict_mode,
    {
        TagValidator { whitelist: TagInheritanceWhitelist::default(), strict_mode: false }
    }
}


/// Under the `Allow` policy every tag passes and none is blocked.
pub proof fn law_allow_policy_blocks_nothing(v: TagValidator, tags: Seq<BusinessTag>)
    requires
        v.whitelist.default_policy == TagPolicy::Allow,
    ensures
        v.allowed_of(tags) == tags,
        v.blocked_of(tags).len() == 0,
    decreases tags.len(),
{
    reveal(Seq::filter);
    if tags.len() > 0 {
        law_allow_policy_blocks_nothing(v, tags.drop_last());
        assert(tags.drop_last().push(tags.last()) =~= tags);
    }
}

/// Every tag lands in exactly one of the allowed and blocked lists.
pub proof fn law_tags_are_partitioned(v: TagValidator, tags: Seq<BusinessTag>)
    ensures
        v.allowed_of(tags).len() + v.blocked_of(tags).len() == tags.len(),
        forall|t: BusinessTag| tags.contains(t) && v.passes(t) ==> v.allowed_of(tags).contains(t),
        forall|t: BusinessTag| tags.contains(t) && !v.passes(t) ==> v.blocked_of(tags).contains(t),
        forall|t: BusinessTag| v.allowed_of(tags).contains(t) ==> tags.contains(t) && v.passes(t),
        forall|t: BusinessTag| v.blocked_of(tags).contains(t) ==> tags.contains(t) && !v.passes(t),
    decreases tags.len(),
{
    reveal(Seq::filter);
    if tags.len() > 0 {
        let pre = tags.drop_last();
        let x = tags.last();
        law_tags_are_partitioned(v, pre);
        assert(pre.push(x) =~= tags);
        assert forall|t: BusinessTag| tags.contains(t) implies pre.contains(t) || t == x by {
            let i = choose|i: int| 0 <= i < tags.len() && tags[i] == t;
            if i < pre.len() {
                assert(pre[i] == t);
            }
        }
        assert forall|t: BusinessTag| pre.contains(t) implies tags.contains(t) by {
            let i = choose|i: int| 0 <= i < pre.len() && pre[i] == t;
            assert(tags[i] == t);
        }
        assert(tags[tags.len() - 1] == x);
        let a = v.allowed_of(pre);
        let b = v.blocked_of(pre);
        assert forall|t: BusinessTag| a.push(x).contains(t) implies a.contains(t) || t == x by {
            let i = choose|i: int| 0 <= i < a.len() + 1 && a.push(x)[i] == t;
            if i < a.len() {
                assert(a[i] == t);
            }
        }
        assert forall|t: BusinessTag| b.push(x).contains(t) implies b.contains(t) || t == x by {
            let i = choose|i: int| 0 <= i < b.len() + 1 && b.push(x)[i] == t;
            if i < b.len() {
                assert(b[i] == t);
            }
        }
        assert forall|t: BusinessTag| a.contains(t) implies a.push(x).contains(t) by {
            let i = choose|i: int| 0 <= i < a.len() && a[i] == t;
            assert(a.push(x)[i] == t);
        }
        assert forall|t: BusinessTag| b.contains(t) implies b.push(x).contains(t) by {
            let i = choose|i: int| 0 <= i < b.len() && b[i] == t;
            assert(b.push(x)[i] == t);
        }
        assert(a.push(x)[a.len() as int] == x);
        assert(b.push(x)[b.len() as int] == x);
    }
}

/// Where values are not checked (no strict mode, no `Strict` whitelist), the
/// violations are one "BLOCKED" message per blocked tag, in order.
pub proof fn law_standard_mode_reports_each_blocked_tag(
    v: TagValidator,
    tags: Seq<BusinessTag>,
    base: Map<Seq<char>, Seq<char>>,
)
    requires
        !v.checks_values(),
    ensures
        v.violations_of(tags, base) == v.blocked_of(tags).map_values(
            |t: BusinessTag| blocked_message(t, false),
        ),
    decreases tags.len(),
{
    reveal(Seq::filter);
    if tags.len() > 0 {
        let pre = tags.drop_last();
        law_standard_mode_reports_each_blocked_tag(v, pre, base);
        assert(pre.push(tags.last()) =~= tags);
        let f = |t: BusinessTag| blocked_message(t, false);
        assert(v.blocked_of(pre).push(tags.last()).map_values(f) =~= v.blocked_of(pre).map_values(f).push(
            f(tags.last()),
        ));
        assert(v.violations_of(pre, base) + seq![f(tags.last())] =~= v.violations_of(pre, base).push(
            f(tags.last()),
        ));
        assert(v.violations_of(pre, base) + seq![] =~= v.violations_of(pre, base));
    }
}

/// Where values are checked (strict mode or a `Strict` whitelist) there is a
/// violation exactly when some tag is blocked or differs from the base
/// layer's value.
pub proof fn law_value_checks_violation_iff_blocked_or_mismatch(
    v: TagValidator,
    tags: Seq<BusinessTag>,
    base: Map<Seq<char>, Seq<char>>,
)
    requires
        v.checks_values(),
    ensures
        v.violations_of(tags, base).len() != 0 <==> exists|i: int|
            0 <= i < tags.len() && (!v.passes(#[trigger] tags[i]) || v.mismatches(tags[i], base)),
    decreases tags.len(),
{
    if tags.len() > 0 {
        let pre = tags.drop_last();
        law_value_checks_violation_iff_blocked_or_mismatch(v, pre, base);
        let x = tags.last();
        if exists|i: int| 0 <= i < pre.len() && (!v.passes(#[trigger] pre[i]) || v.mismatches(pre[i], base)) {
            let i = choose|i: int| 0 <= i < pre.len() && (!v.passes(#[trigger] pre[i]) || v.mismatches(pre[i], base));
            assert(tags[i] == pre[i]);
        }
        if exists|i: int| 0 <= i < tags.len() && (!v.passes(#[trigger] tags[i]) || v.mismatches(tags[i], base)) {
            let i = choose|i: int| 0 <= i < tags.len() && (!v.passes(#[trigger] tags[i]) || v.mismatches(tags[i], base));
            if i < pre.len() {
                assert(pre[i] == tags[i]);
            }
        }
    }
}

} // verus!
