//! The data types each SQL dialect declares, looked up by dialect name.

use vstd::prelude::*;

use crate::text::{lemma_string_views_push, str_eq, string_views};

verus! {

/// Declared data types per dialect, keyed by the dialect's name.
pub struct DialectRegistry {
    entries: Vec<(String, Vec<String>)>,
}

/// The type names registered under `name` in `entries`, if any; the first
/// entry with that name counts.
pub open spec fn lookup(entries: Seq<(Seq<char>, Seq<Seq<char>>)>, name: Seq<char>) -> Option<Seq<Seq<char>>>
    decreases entries.len(),
{
    if entries.len() == 0 {
        None
    } else if entries[0].0 == name {
        Some(entries[0].1)
    } else {
        lookup(entries.drop_first(), name)
    }
}

pub open spec fn entry_view(e: (String, Vec<String>)) -> (Seq<char>, Seq<Seq<char>>) {
    (e.0@, string_views(e.1@))
}

impl View for DialectRegistry {
    type V = Seq<(Seq<char>, Seq<Seq<char>>)>;

    closed spec fn view(&self) -> Seq<(Seq<char>, Seq<Seq<char>>)> {
        self.entries@.map_values(|e: (String, Vec<String>)| entry_view(e))
    }
}

proof fn lemma_lookup_skip(entries: Seq<(Seq<char>, Seq<Seq<char>>)>, name: Seq<char>, i: int)
    requires
        0 <= i < entries.len(),
        entries[i].0 != name,
    ensures
        lookup(entries.subrange(i, entries.len() as int), name) == lookup(
            entries.subrange(i + 1, entries.len() as int),
            name,
        ),
{
    assert(entries.subrange(i, entries.len() as int).drop_first() =~= entries.subrange(i + 1, entries.len() as int));
}

proof fn lemma_lookup_update(entries: Seq<(Seq<char>, Seq<Seq<char>>)>, k: int, v: Seq<Seq<char>>, name: Seq<char>)
    requires
        0 <= k < entries.len(),
        forall|j: int| 0 <= j < k ==> entries[j].0 != entries[k].0,
    ensures
        lookup(entries.update(k, (entries[k].0, v)), name) == if name == entries[k].0 {
            Some(v)
        } else {
            lookup(entries, name)
        },
    decreases k,
{
    let updated = entries.update(k, (entries[k].0, v));
    if k == 0 {
        assert(updated.drop_first() =~= entries.drop_first());
    } else {
        assert(updated.drop_first() =~= entries.drop_first().update(k - 1, (entries[k].0, v)));
        lemma_lookup_update(entries.drop_first(), k - 1, v, name);
    }
}

proof fn lemma_lookup_push(entries: Seq<(Seq<char>, Seq<Seq<char>>)>, e: (Seq<char>, Seq<Seq<char>>), name: Seq<char>)
    requires
        forall|j: int| 0 <= j < entries.len() ==> entries[j].0 != e.0,
    ensures
        lookup(entries.push(e), name) == if name == e.0 {
            Some(e.1)
        } else {
            lookup(entries, name)
        },
    decreases entries.len(),
{
    if entries.len() > 0 {
        assert(entries.push(e)[0] == entries[0]);
        assert(entries.push(e).drop_first() =~= entries.drop_first().push(e));
        lemma_lookup_push(entries.drop_first(), e, name);
    } else {
        assert(entries.push(e)[0] == e);
        assert(entries.push(e).drop_first() =~= Seq::<(Seq<char>, Seq<Seq<char>>)>::empty());
        assert(lookup(entries.push(e).drop_first(), name) is None);
    }
}

proof fn lemma_lookup_prefix_absent(entries: Seq<(Seq<char>, Seq<Seq<char>>)>, name: Seq<char>, stop: int)
    requires
        0 <= stop <= entries.len(),
        forall|m: int| 0 <= m < stop ==> entries[m].0 != name,
    ensures
        lookup(entries, name) == lookup(entries.subrange(stop, entries.len() as int), name),
    decreases stop,
{
    if stop == 0 {
        assert(entries.subrange(0, entries.len() as int) =~= entries);
    } else {
        lemma_lookup_prefix_absent(entries, name, stop - 1);
        lemma_lookup_skip(entries, name, stop - 1);
    }
}

impl DialectRegistry {
    /// A registry with no dialect.
    pub fn new() -> (r: DialectRegistry)
        ensures
            r@ == Seq::<(Seq<char>, Seq<Seq<char>>)>::empty(),
    {
        let r = DialectRegistry { entries: Vec::new() };
        assert(r@ =~= Seq::<(Seq<char>, Seq<Seq<char>>)>::empty());
        r
    }

    /// The number of registered dialects.
    pub fn len(&self) -> (r: usize)
        ensures
            r == self@.len(),
    {
        self.entries.len()
    }

    /// Position of the first entry named `name`, if any.
    fn position(&self, name: &str) -> (r: Option<usize>)
        ensures
            match r {
                Some(k) => k < self@.len() && self@[k as int].0 == name@ && forall|j: int|
                    0 <= j < k ==> self@[j].0 != name@,
                None => forall|j: int| 0 <= j < self@.len() ==> self@[j].0 != name@,
            },
    {
        let mut i: usize = 0;
        while i < self.entries.len()
            invariant
                i <= self.entries.len(),
                self@.len() == self.entries.len(),
                forall|j: int| 0 <= j < i ==> self@[j].0 != name@,
            decreases self.entries.len() - i,
        {
            if str_eq(self.entries[i].0.as_str(), name) {
                return Some(i);
            }
            i = i + 1;
        }
        None
    }

    /// The type names registered for `dialect_name`, if it is registered.
    pub fn get(&self, dialect_name: &str) -> (r: Option<&Vec<String>>)
        ensures
            match r {
                Some(v) => lookup(self@, dialect_name@) == Some(string_views(v@)),
                None => lookup(self@, dialect_name@) is None,
            },
    {
        let found = self.position(dialect_name);
        proof {
            let stop = match found {
                Some(k) => k as int,
                None => self@.len() as int,
            };
            lemma_lookup_prefix_absent(self@, dialect_name@, stop);
            if let Some(k) = found {
                assert(self@.subrange(k as int, self@.len() as int)[0] == self@[k as int]);
            }
        }
        match found {
            Some(k) => Some(&self.entries[k].1),
            None => None,
        }
    }

    /// Registers `type_names` for `dialect_name`, replacing what was there.
    pub fn register(&mut self, dialect_name: &str, type_names: Vec<String>)
        ensures
            forall|name: Seq<char>| #[trigger]
                lookup(final(self)@, name) == if name == dialect_name@ {
                    Some(string_views(type_names@))
                } else {
                    lookup(old(self)@, name)
                },
    {
        let found = self.position(dialect_name);
        let entry = (String::from_str(dialect_name), type_names);
        let ghost old_view = self@;
        match found {
            Some(k) => {
                self.entries.set(k, entry);
                assert(self@ =~= old_view.update(k as int, (old_view[k as int].0, string_views(type_names@))));
                assert forall|name: Seq<char>| #[trigger]
                    lookup(self@, name) == if name == dialect_name@ {
                        Some(string_views(type_names@))
                    } else {
                        lookup(old_view, name)
                    } by {
                    lemma_lookup_update(old_view, k as int, string_views(type_names@), name);
                }
            },
            None => {
                self.entries.push(entry);
                assert(self@ =~= old_view.push((dialect_name@, string_views(type_names@))));
                assert forall|name: Seq<char>| #[trigger]
                    lookup(self@, name) == if name == dialect_name@ {
                        Some(string_views(type_names@))
                    } else {
                        lookup(old_view, name)
                    } by {
                    lemma_lookup_push(old_view, (dialect_name@, string_views(type_names@)), name);
                }
            },
        }
    }
}

/// The names of the data types `registry` declares for `dialect_name`, in
/// declaration order; none for a dialect it does not know.
pub fn list_dialect_type_names_in(dialect_name: &str, registry: &DialectRegistry) -> (r: Vec<String>)
    ensures
        string_views(r@) == match lookup(registry@, dialect_name@) {
            Some(types) => types,
            None => Seq::empty(),
        },
{
    match registry.get(dialect_name) {
        Some(types) => {
            let mut out: Vec<String> = Vec::new();
            let mut i: usize = 0;
            while i < types.len()
                invariant
                    i <= types.len(),
                    string_views(out@) == string_views(types@).subrange(0, i as int),
                decreases types.len() - i,
            {
                let t = types[i].clone();
                proof {
                    lemma_string_views_push(out@, t);
                }
                out.push(t);
                assert(string_views(out@) =~= string_views(types@).subrange(0, i + 1));
                i = i + 1;
            }
            assert(string_views(types@).subrange(0, types.len() as int) =~= string_views(types@));
            out
        },
        None => {
            let out: Vec<String> = Vec::new();
            assert(string_views(out@) =~= Seq::<Seq<char>>::empty());
            out
        },
    }
}

/// Listing a dialect right after registering it gives back exactly the
/// registered type names; registering leaves other dialects untouched.
pub proof fn law_register_then_list(
    before: Seq<(Seq<char>, Seq<Seq<char>>)>,
    after: Seq<(Seq<char>, Seq<Seq<char>>)>,
    dialect: Seq<char>,
    types: Seq<Seq<char>>,
    other: Seq<char>,
)
    requires
        forall|name: Seq<char>| #[trigger]
            lookup(after, name) == if name == dialect {
                Some(types)
            } else {
                lookup(before, name)
            },
    ensures
        lookup(after, dialect) == Some(types),
        other != dialect ==> lookup(after, other) == lookup(before, other),
{
    assert(lookup(after, dialect) == Some(types));
    assert(lookup(after, other) == if other == dialect { Some(types) } else { lookup(before, other) });
}

/// The query of the data-types endpoint: which dialect to list.
pub struct DialectDataTypesQuery {
    pub dialect_name: String,
}

} // verus!
