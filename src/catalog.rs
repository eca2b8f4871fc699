//! The transformation catalog: the album's named sets, plus a built-in
//! `"default"` set when the album declares none under that name.

use vstd::prelude::*;
use crate::album::{copy_operations, entries_of, FailureModel, NamedSet, ResolveError, SetEntry, Transformation};

verus! {

/// The name of the set used by images that name none.
pub open spec fn default_name() -> Seq<char> {
    seq!['d', 'e', 'f', 'a', 'u', 'l', 't']
}

/// The operations of the built-in default set.
pub open spec fn default_operations() -> Seq<Transformation> {
    seq![
        Transformation::Size { width: 1920, height: 1080 },
        Transformation::Normalize,
        Transformation::Enhance,
        Transformation::Unsharp { radius: 3 },
    ]
}

/// The operations of the first entry from index `i` on that is named `name`.
pub open spec fn lookup_from(sets: Seq<SetEntry>, name: Seq<char>, i: int) -> Option<Seq<Transformation>>
    decreases sets.len() - i,
{
    if i < 0 || i >= sets.len() {
        None
    } else if sets[i].0 == name {
        Some(sets[i].1)
    } else {
        lookup_from(sets, name, i + 1)
    }
}

/// The operations of the first entry named `name`.
pub open spec fn lookup(sets: Seq<SetEntry>, name: Seq<char>) -> Option<Seq<Transformation>> {
    lookup_from(sets, name, 0)
}

/// No two entries share a name, as in a map from names to sets.
pub open spec fn unique_names(sets: Seq<SetEntry>) -> bool {
    forall|i: int, j: int| 0 <= i < j < sets.len() ==> (#[trigger] sets[i]).0 != (#[trigger] sets[j]).0
}

proof fn lemma_lookup_from_absent(sets: Seq<SetEntry>, name: Seq<char>, i: int, j: int)
    requires
        0 <= i <= j < sets.len(),
        lookup_from(sets, name, i) is None,
    ensures
        sets[j].0 != name,
    decreases j - i,
{
    if i < j {
        lemma_lookup_from_absent(sets, name, i + 1, j);
    }
}

proof fn lemma_lookup_from_entry(sets: Seq<SetEntry>, name: Seq<char>, i: int, j: int)
    requires
        unique_names(sets),
        0 <= i <= j < sets.len(),
        sets[j].0 == name,
    ensures
        lookup_from(sets, name, i) == Some(sets[j].1),
    decreases j - i,
{
    if i < j {
        assert(sets[i].0 != sets[j].0);
        lemma_lookup_from_entry(sets, name, i + 1, j);
    }
}

/// With unique names the order of the entries does not matter: a name
/// resolves to the operations of the one entry that carries it.
pub proof fn lemma_lookup_unique(sets: Seq<SetEntry>, j: int)
    requires
        unique_names(sets),
        0 <= j < sets.len(),
    ensures
        lookup(sets, sets[j].0) == Some(sets[j].1),
{
    lemma_lookup_from_entry(sets, sets[j].0, 0, j);
}

/// What `name` resolves to, given the sets that an album declares: the
/// declared set of that name, else the built-in default for `"default"`.
pub open spec fn resolve_set(declared: Seq<SetEntry>, name: Seq<char>) -> Option<Seq<Transformation>> {
    match lookup(declared, name) {
        Some(ops) => Some(ops),
        None => if name == default_name() {
            Some(default_operations())
        } else {
            None
        },
    }
}

proof fn lemma_lookup_from_push(sets: Seq<SetEntry>, e: SetEntry, name: Seq<char>, i: int)
    requires
        0 <= i <= sets.len(),
    ensures
        lookup_from(sets.push(e), name, i) == match lookup_from(sets, name, i) {
            Some(ops) => Some(ops),
            None => if e.0 == name { Some(e.1) } else { None },
        },
    decreases sets.len() - i,
{
    if i < sets.len() {
        assert(sets.push(e)[i] == sets[i]);
        lemma_lookup_from_push(sets, e, name, i + 1);
    } else {
        assert(sets.push(e)[i] == e);
        assert(lookup_from(sets.push(e), name, i + 1) == None::<Seq<Transformation>>);
    }
}

/// The sets that images can be resolved against.
pub struct Catalog {
    sets: Vec<NamedSet>,
}

impl View for Catalog {
    type V = Seq<SetEntry>;

    closed spec fn view(&self) -> Seq<SetEntry> {
        entries_of(self.sets@)
    }
}

fn builtin_default() -> (r: NamedSet)
    ensures
        r.name@ == default_name(),
        r.operations@ == default_operations(),
{
    proof { reveal_strlit("default"); }
    let operations = vec![
        Transformation::Size { width: 1920, height: 1080 },
        Transformation::Normalize,
        Transformation::Enhance,
        Transformation::Unsharp { radius: 3 },
    ];
    let r = NamedSet { name: String::from_str("default"), operations };
    assert(r.name@ =~= default_name());
    assert(r.operations@ =~= default_operations());
    r
}

fn find(sets: &Vec<NamedSet>, name: &String) -> (r: Option<usize>)
    ensures
        match r {
            Some(i) => i < sets.len() && lookup(entries_of(sets@), name@) == Some(sets@[i as int].operations@),
            None => lookup(entries_of(sets@), name@) is None,
        },
{
    let ghost entries = entries_of(sets@);
    let mut i: usize = 0;
    while i < sets.len()
        invariant
            i <= sets.len(),
            entries == entries_of(sets@),
            lookup(entries, name@) == lookup_from(entries, name@, i as int),
        decreases sets.len() - i,
    {
        if sets[i].name == *name {
            return Some(i);
        }
        i = i + 1;
    }
    None
}

impl Catalog {
    /// The catalog of an album's declared sets (none when absent), with the
    /// built-in default added when no set is named `"default"`. The
    /// declared sets themselves are left untouched. Where two declared sets
    /// share a name, the first of them wins; declared sets with unique names
    /// give a catalog with unique names.
    pub fn new(declared: &Option<Vec<NamedSet>>) -> (c: Catalog)
        ensures
            unique_names(
                match declared {
                    Some(v) => entries_of(v@),
                    None => Seq::empty(),
                },
            ) ==> unique_names(c@),
            forall|name: Seq<char>| #[trigger] lookup(c@, name) == resolve_set(
                match declared {
                    Some(v) => entries_of(v@),
                    None => Seq::empty(),
                },
                name,
            ),
    {
        let ghost declared_entries = match declared {
            Some(v) => entries_of(v@),
            None => Seq::<SetEntry>::empty(),
        };
        let mut sets: Vec<NamedSet> = Vec::new();
        match declared {
            Some(v) => {
                let mut i: usize = 0;
                while i < v.len()
                    invariant
                        i <= v.len(),
                        sets.len() == i,
                        entries_of(sets@) =~= entries_of(v@).subrange(0, i as int),
                    decreases v.len() - i,
                {
                    let entry = NamedSet {
                        name: v[i].name.clone(),
                        operations: copy_operations(&v[i].operations),
                    };
                    let ghost before = sets@;
                    sets.push(entry);
                    assert(sets@ == before.push(entry));
                    assert forall|j: int| 0 <= j <= i implies #[trigger] entries_of(sets@)[j] == entries_of(v@)[j] by {
                        if j < i {
                            assert(entries_of(before)[j] == entries_of(v@).subrange(0, i as int)[j]);
                            assert(sets@[j] == before[j]);
                        }
                    }
                    assert(entries_of(sets@) =~= entries_of(v@).subrange(0, i + 1));
                    i = i + 1;
                }
                assert(entries_of(sets@) =~= entries_of(v@));
            },
            None => {
                assert(entries_of(sets@) =~= Seq::<SetEntry>::empty());
            },
        }
        proof { reveal_strlit("default"); }
        let default_name_str = String::from_str("default");
        assert(default_name_str@ =~= default_name());
        if find(&sets, &default_name_str).is_none() {
            let ghost before = entries_of(sets@);
            let d = builtin_default();
            sets.push(d);
            assert(entries_of(sets@) =~= before.push((d.name@, d.operations@)));
            proof {
                if unique_names(declared_entries) {
                    assert forall|i: int, j: int| 0 <= i < j < entries_of(sets@).len() implies
                        (#[trigger] entries_of(sets@)[i]).0 != (#[trigger] entries_of(sets@)[j]).0 by {
                        if j == before.len() {
                            lemma_lookup_from_absent(before, default_name(), 0, i);
                        } else {
                            assert(entries_of(sets@)[i] == before[i]);
                            assert(entries_of(sets@)[j] == before[j]);
                        }
                    }
                }
            }
            assert forall|name: Seq<char>| #[trigger] lookup(entries_of(sets@), name) == resolve_set(declared_entries, name) by {
                assert(entries_of(sets@) =~= before.push((d.name@, d.operations@)));
                lemma_lookup_from_push(before, (d.name@, d.operations@), name, 0);
            }
        }
        Catalog { sets }
    }

    /// The operations of the set named `name`, as a fresh copy.
    pub fn resolve(&self, name: &String) -> (r: Result<Vec<Transformation>, ResolveError>)
        ensures
            match r {
                Ok(ops) => lookup(self@, name@) == Some(ops@),
                Err(e) => lookup(self@, name@) is None && e.model() == FailureModel::UnknownSet(name@),
            },
    {
        match find(&self.sets, name) {
            Some(i) => Ok(copy_operations(&self.sets[i].operations)),
            None => Err(ResolveError::UnknownTransformationSet(name.clone())),
        }
    }
}

} // verus!
