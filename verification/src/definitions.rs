//! A table of definitions: each name stands for one value, and a new
//! definition of a name replaces the earlier one.

use vstd::prelude::*;

verus! {

/// The value of the entries `d`: each name maps to its value.
pub open spec fn entries_view<E>(d: Seq<(String, E)>) -> Map<Seq<char>, E> {
    Map::new(
        |k: Seq<char>| exists|i: int| 0 <= i < d.len() && (#[trigger] d[i]).0@ == k,
        |k: Seq<char>| d[choose|i: int| 0 <= i < d.len() && (#[trigger] d[i]).0@ == k].1,
    )
}

/// No name occurs twice among the entries `d`.
pub open spec fn names_unique<E>(d: Seq<(String, E)>) -> bool {
    forall|i: int, j: int|
        0 <= i < d.len() && 0 <= j < d.len() && i != j ==> (#[trigger] d[i]).0@ != (#[trigger] d[j]).0@
}

/// Among entries without repeated names, the entry of a name gives its value.
proof fn lemma_entries_view_at<E>(d: Seq<(String, E)>, i: int)
    requires
        names_unique(d),
        0 <= i < d.len(),
    ensures
        entries_view(d).contains_key(d[i].0@),
        entries_view(d)[d[i].0@] == d[i].1,
{
    let k = d[i].0@;
    assert(exists|j: int| 0 <= j < d.len() && (#[trigger] d[j]).0@ == k);
    let j = choose|j: int| 0 <= j < d.len() && (#[trigger] d[j]).0@ == k;
    assert(j == i);
}

/// A table of definitions, kept as a list of entries in which no name occurs
/// twice.
#[derive(Debug)]
pub struct Definitions<E> {
    entries: Vec<(String, E)>,
}

impl<E> Definitions<E> {
    /// The table's invariant: no name occurs twice.
    pub closed spec fn wf(&self) -> bool {
        names_unique(self.entries@)
    }

    /// The definitions as a map from names to values.
    pub closed spec fn map(&self) -> Map<Seq<char>, E> {
        entries_view(self.entries@)
    }

    /// A table with no definitions.
    pub fn new() -> (r: Self)
        ensures
            r.wf(),
            r.map() == Map::<Seq<char>, E>::empty(),
    {
        let r = Definitions { entries: Vec::new() };
        assert(r.map() =~= Map::<Seq<char>, E>::empty());
        r
    }

    /// The position of the entry of `name`, if there is one.
    fn position(&self, name: &String) -> (r: Option<usize>)
        requires
            self.wf(),
        ensures
            r matches Some(i) ==> i < self.entries@.len() && self.entries@[i as int].0@ == name@,
            r is None ==> !self.map().contains_key(name@),
    {
        let mut i: usize = 0;
        while i < self.entries.len()
            invariant
                i <= self.entries.len(),
                forall|j: int| 0 <= j < i ==> (#[trigger] self.entries@[j]).0@ != name@,
            decreases self.entries.len() - i,
        {
            if self.entries[i].0 == *name {
                return Some(i);
            }
            i = i + 1;
        }
        None
    }

    /// The value that `name` stands for, if it is defined.
    pub fn get(&self, name: &String) -> (r: Option<&E>)
        requires
            self.wf(),
        ensures
            match r {
                Some(v) => self.map().contains_key(name@) && self.map()[name@] == *v,
                None => !self.map().contains_key(name@),
            },
    {
        match self.position(name) {
            Some(i) => {
                proof { lemma_entries_view_at(self.entries@, i as int); }
                Some(&self.entries[i].1)
            },
            None => None,
        }
    }

    /// Defines `name` as `value`, replacing an earlier definition.
    pub fn define(&mut self, name: String, value: E)
        requires
            old(self).wf(),
        ensures
            final(self).wf(),
            final(self).map() == old(self).map().insert(name@, value),
    {
        let ghost k = name@;
        let ghost v = value;
        let ghost d0 = self.entries@;
        match self.position(&name) {
            Some(i) => {
                self.entries.set(i, (name, value));
                proof {
                    let d = self.entries@;
                    assert(names_unique(d)) by {
                        assert forall|a: int, b: int|
                            0 <= a < d.len() && 0 <= b < d.len() && a != b implies (#[trigger] d[a]).0@
                            != (#[trigger] d[b]).0@ by {
                            if a != i && b != i {
                                assert(d[a] == d0[a] && d[b] == d0[b]);
                            } else if a == i {
                                assert(d0[i as int].0@ == k);
                                assert(d[b] == d0[b]);
                            } else {
                                assert(d0[i as int].0@ == k);
                                assert(d[a] == d0[a]);
                            }
                        }
                    }
                    assert(entries_view(d) =~= entries_view(d0).insert(k, v)) by {
                        assert forall|key: Seq<char>| #[trigger] entries_view(d).contains_key(key)
                            <==> entries_view(d0).insert(k, v).contains_key(key) by {
                            if entries_view(d0).contains_key(key) && key != k {
                                let j = choose|j: int| 0 <= j < d0.len() && (#[trigger] d0[j]).0@ == key;
                                assert(d[j] == d0[j]);
                            }
                            if key == k {
                                lemma_entries_view_at(d, i as int);
                            }
                            if entries_view(d).contains_key(key) && key != k {
                                let j = choose|j: int| 0 <= j < d.len() && (#[trigger] d[j]).0@ == key;
                                assert(d[j] == d0[j]);
                            }
                        }
                        assert forall|key: Seq<char>| #[trigger] entries_view(d).contains_key(key)
                            implies entries_view(d)[key] == entries_view(d0).insert(k, v)[key] by {
                            if key == k {
                                lemma_entries_view_at(d, i as int);
                            } else {
                                let j = choose|j: int| 0 <= j < d.len() && (#[trigger] d[j]).0@ == key;
                                assert(d[j] == d0[j]);
                                lemma_entries_view_at(d, j);
                                lemma_entries_view_at(d0, j);
                            }
                        }
                    }
                }
            },
            None => {
                self.entries.push((name, value));
                proof {
                    let d = self.entries@;
                    let n = d0.len() as int;
                    assert(names_unique(d)) by {
                        assert forall|a: int, b: int|
                            0 <= a < d.len() && 0 <= b < d.len() && a != b implies (#[trigger] d[a]).0@
                            != (#[trigger] d[b]).0@ by {
                            if a < n && b < n {
                                assert(d[a] == d0[a] && d[b] == d0[b]);
                            } else if a == n {
                                assert(d[b] == d0[b]);
                                if d0[b].0@ == k {
                                    assert(entries_view(d0).contains_key(k));
                                }
                            } else {
                                assert(d[a] == d0[a]);
                                if d0[a].0@ == k {
                                    assert(entries_view(d0).contains_key(k));
                                }
                            }
                        }
                    }
                    assert(entries_view(d) =~= entries_view(d0).insert(k, v)) by {
                        assert forall|key: Seq<char>| #[trigger] entries_view(d).contains_key(key)
                            <==> entries_view(d0).insert(k, v).contains_key(key) by {
                            if entries_view(d0).contains_key(key) {
                                let j = choose|j: int| 0 <= j < d0.len() && (#[trigger] d0[j]).0@ == key;
                                assert(d[j] == d0[j]);
                            }
                            if key == k {
                                lemma_entries_view_at(d, n);
                            }
                            if entries_view(d).contains_key(key) && key != k {
                                let j = choose|j: int| 0 <= j < d.len() && (#[trigger] d[j]).0@ == key;
                                assert(j < n);
                                assert(d[j] == d0[j]);
                            }
                        }
                        assert forall|key: Seq<char>| #[trigger] entries_view(d).contains_key(key)
                            implies entries_view(d)[key] == entries_view(d0).insert(k, v)[key] by {
                            if key == k {
                                lemma_entries_view_at(d, n);
                            } else {
                                let j = choose|j: int| 0 <= j < d.len() && (#[trigger] d[j]).0@ == key;
                                assert(j < n);
                                assert(d[j] == d0[j]);
                                lemma_entries_view_at(d, j);
                                lemma_entries_view_at(d0, j);
                            }
                        }
                    }
                }
            },
        }
    }
}

} // verus!
