//! A header map: names to values, case kept as given, last write wins.
use vstd::prelude::*;

use crate::text::bytes_eq;

verus! {

/// A header as a name and a value.
pub type HeaderSpec = (Seq<u8>, Seq<u8>);

/// No name occurs twice among the entries.
pub open spec fn names_unique(e: Seq<HeaderSpec>) -> bool {
    forall|i: int, j: int| 0 <= i < j < e.len() ==> #[trigger] e[i].0 != #[trigger] e[j].0
}

/// The mapping that a sequence of headers gives, later entries overriding
/// earlier ones.
pub open spec fn map_of(e: Seq<HeaderSpec>) -> Map<Seq<u8>, Seq<u8>>
    decreases e.len(),
{
    if e.len() == 0 {
        Map::empty()
    } else {
        map_of(e.drop_last()).insert(e.last().0, e.last().1)
    }
}

/// The position of the entry named `name`, if one is.
pub open spec fn index_of(e: Seq<HeaderSpec>, name: Seq<u8>) -> Option<int> {
    if exists|i: int| 0 <= i < e.len() && #[trigger] e[i].0 == name {
        Some(choose|i: int| 0 <= i < e.len() && #[trigger] e[i].0 == name)
    } else {
        None
    }
}

/// The entries after setting `name` to `value`: an entry of that name is
/// overwritten in place, otherwise the pair is appended.
pub open spec fn set_entry(e: Seq<HeaderSpec>, name: Seq<u8>, value: Seq<u8>) -> Seq<HeaderSpec> {
    match index_of(e, name) {
        Some(i) => e.update(i, (name, value)),
        None => e.push((name, value)),
    }
}

/// The keys of `map_of(e)` are the names of `e`, and with unique names each
/// name maps to the value beside it.
pub proof fn lemma_map_of(e: Seq<HeaderSpec>)
    ensures
        forall|k: Seq<u8>|
            #[trigger] map_of(e).contains_key(k) <==> exists|i: int|
                0 <= i < e.len() && #[trigger] e[i].0 == k,
        names_unique(e) ==> forall|i: int|
            0 <= i < e.len() ==> #[trigger] map_of(e)[e[i].0] == e[i].1,
    decreases e.len(),
{
    if e.len() > 0 {
        let init = e.drop_last();
        lemma_map_of(init);
        assert forall|k: Seq<u8>| #[trigger] map_of(e).contains_key(k) <==> exists|i: int|
            0 <= i < e.len() && #[trigger] e[i].0 == k by {
            assert(map_of(e) == map_of(init).insert(e.last().0, e.last().1));
            if map_of(e).contains_key(k) && k != e.last().0 {
                assert(map_of(init).contains_key(k));
                let i = choose|i: int| 0 <= i < init.len() && #[trigger] init[i].0 == k;
                assert(e[i].0 == k);
            }
            if exists|i: int| 0 <= i < e.len() && #[trigger] e[i].0 == k {
                let i = choose|i: int| 0 <= i < e.len() && #[trigger] e[i].0 == k;
                if i < e.len() - 1 {
                    assert(init[i].0 == k);
                }
            }
        }
        if names_unique(e) {
            assert(names_unique(init));
            assert(map_of(e) == map_of(init).insert(e.last().0, e.last().1));
            assert forall|i: int| 0 <= i < e.len() implies #[trigger] map_of(e)[e[i].0] == e[i].1 by {
                if i < e.len() - 1 {
                    assert(init[i] == e[i]);
                    assert(map_of(init)[init[i].0] == init[i].1);
                    assert(e[i].0 != e[e.len() - 1].0);
                }
            }
        }
    }
}

/// With unique names there is one entry per key of the mapping: the
/// entries are as many as the keys, so a mapping fixes which header lines a
/// map writes.
pub proof fn lemma_entries_count(e: Seq<HeaderSpec>)
    requires
        names_unique(e),
    ensures
        map_of(e).dom().finite(),
        map_of(e).dom().len() == e.len(),
    decreases e.len(),
{
    if e.len() > 0 {
        let init = e.drop_last();
        assert(names_unique(init));
        lemma_entries_count(init);
        lemma_map_of(init);
        if map_of(init).contains_key(e.last().0) {
            let i = choose|i: int| 0 <= i < init.len() && #[trigger] init[i].0 == e.last().0;
            assert(e[i].0 == e[e.len() - 1].0);
        }
        assert(map_of(e).dom() == map_of(init).dom().insert(e.last().0));
    }
}

/// Setting a header changes the mapping as `Map::insert` does and keeps the
/// names unique.
pub proof fn lemma_set_entry(e: Seq<HeaderSpec>, name: Seq<u8>, value: Seq<u8>)
    requires
        names_unique(e),
    ensures
        names_unique(set_entry(e, name, value)),
        map_of(set_entry(e, name, value)) == map_of(e).insert(name, value),
    decreases e.len(),
{
    match index_of(e, name) {
        Some(k) => {
            lemma_update_entry(e, k, value);
        },
        None => {
            let e2 = e.push((name, value));
            assert(e2.drop_last() =~= e);
            assert forall|i: int, j: int| 0 <= i < j < e2.len() implies #[trigger] e2[i].0
                != #[trigger] e2[j].0 by {
                if j == e.len() {
                    assert(e[i].0 == e2[i].0);
                }
            }
        },
    }
}

/// Overwriting the value of the entry at `k` overwrites it in the mapping.
pub proof fn lemma_update_entry(e: Seq<HeaderSpec>, k: int, value: Seq<u8>)
    requires
        names_unique(e),
        0 <= k < e.len(),
    ensures
        names_unique(e.update(k, (e[k].0, value))),
        map_of(e.update(k, (e[k].0, value))) == map_of(e).insert(e[k].0, value),
    decreases e.len(),
{
    let name = e[k].0;
    let e2 = e.update(k, (name, value));
    assert forall|i: int, j: int| 0 <= i < j < e2.len() implies #[trigger] e2[i].0
        != #[trigger] e2[j].0 by {
        assert(e2[i].0 == e[i].0 && e2[j].0 == e[j].0);
    }
    let init = e.drop_last();
    if k == e.len() - 1 {
        assert(e2.drop_last() =~= init);
        assert(map_of(e2) =~= map_of(e).insert(name, value));
    } else {
        assert(names_unique(init));
        lemma_update_entry(init, k, value);
        assert(e2.drop_last() =~= init.update(k, (name, value)));
        assert(e.last().0 != name);
        assert(map_of(e2) =~= map_of(e).insert(name, value));
    }
}

/// A mapping from header names to values. Names are compared byte for byte,
/// so case is kept as given; setting a name that is present replaces its value.
pub struct HeaderMap {
    entries: Vec<(Vec<u8>, Vec<u8>)>,
}

impl View for HeaderMap {
    type V = Map<Seq<u8>, Seq<u8>>;

    open spec fn view(&self) -> Map<Seq<u8>, Seq<u8>> {
        map_of(self.entries())
    }
}

impl HeaderMap {
    /// The headers in the order in which they are written out.
    pub closed spec fn entries(&self) -> Seq<HeaderSpec> {
        self.entries@.map_values(|p: (Vec<u8>, Vec<u8>)| (p.0@, p.1@))
    }

    #[verifier::type_invariant]
    closed spec fn inv(&self) -> bool {
        names_unique(self.entries())
    }

    /// An empty header map.
    pub fn new() -> (r: HeaderMap)
        ensures
            r.entries() == Seq::<HeaderSpec>::empty(),
            r@ == Map::<Seq<u8>, Seq<u8>>::empty(),
    {
        let r = HeaderMap { entries: Vec::new() };
        assert(r.entries() =~= Seq::<HeaderSpec>::empty());
        r
    }

    /// The number of headers. Every header map names each header once.
    pub fn len(&self) -> (r: usize)
        ensures
            r == self.entries().len(),
            names_unique(self.entries()),
    {
        proof {
            use_type_invariant(self);
        }
        self.entries.len()
    }

    /// The name and value of the header at position `i`.
    pub fn entry_at(&self, i: usize) -> (r: (&Vec<u8>, &Vec<u8>))
        requires
            i < self.entries().len(),
        ensures
            (r.0@, r.1@) == self.entries()[i as int],
    {
        let e = &self.entries[i];
        (&e.0, &e.1)
    }

    /// The position of the header named `name`, if there is one.
    fn find(&self, name: &[u8]) -> (r: Option<usize>)
        ensures
            match r {
                Some(i) => index_of(self.entries(), name@) == Some(i as int) && i
                    < self.entries().len() && self.entries()[i as int].0 == name@,
                None => index_of(self.entries(), name@) is None,
            },
    {
        proof {
            use_type_invariant(self);
        }
        let mut i: usize = 0;
        while i < self.entries.len()
            invariant
                i <= self.entries().len(),
                self.entries().len() == self.entries@.len(),
                names_unique(self.entries()),
                forall|j: int| 0 <= j < i ==> #[trigger] self.entries()[j].0 != name@,
            decreases self.entries@.len() - i,
        {
            if bytes_eq(self.entries[i].0.as_slice(), name) {
                assert(self.entries()[i as int].0 == name@);
                let ghost e = self.entries();
                assert(names_unique(e));
                assert(index_of(e, name@) == Some(i as int)) by {
                    let c = choose|c: int| 0 <= c < e.len() && #[trigger] e[c].0 == name@;
                    if c != i {
                        if c < i {
                            assert(e[c].0 != name@);
                        } else {
                            assert(e[i as int].0 != e[c].0);
                        }
                    }
                }
                return Some(i);
            }
            i += 1;
        }
        Option::None
    }

    /// The value of the header named `name`, if there is one.
    pub fn get(&self, name: &[u8]) -> (r: Option<&Vec<u8>>)
        ensures
            r.is_some() == self@.contains_key(name@),
            r matches Some(v) ==> v@ == self@[name@],
    {
        proof {
            use_type_invariant(self);
            lemma_map_of(self.entries());
        }
        match self.find(name) {
            Some(i) => {
                assert(self.entries()[i as int].0 == name@);
                Some(&self.entries[i].1)
            },
            Option::None => Option::None,
        }
    }

    /// Sets the header `name` to `value`, replacing a value that it had.
    pub fn insert(&mut self, name: Vec<u8>, value: Vec<u8>)
        ensures
            final(self).entries() == set_entry(old(self).entries(), name@, value@),
            final(self)@ == old(self)@.insert(name@, value@),
    {
        proof {
            use_type_invariant(&*self);
            lemma_set_entry(self.entries(), name@, value@);
        }
        let ghost e = self.entries();
        let ghost name_view = name@;
        let ghost value_view = value@;
        let found = self.find(name.as_slice());
        let mut entries: Vec<(Vec<u8>, Vec<u8>)> = Vec::new();
        std::mem::swap(&mut entries, &mut self.entries);
        match found {
            Some(i) => {
                entries.set(i, (name, value));
            },
            Option::None => {
                entries.push((name, value));
            },
        }
        let ghost new_entries = entries@.map_values(|p: (Vec<u8>, Vec<u8>)| (p.0@, p.1@));
        assert(new_entries =~= set_entry(e, name_view, value_view));
        self.entries = entries;
    }
}

} // verus!
