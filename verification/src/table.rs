//! A table that finds values by name.

use vstd::prelude::*;

verus! {

/// The finite map that a list of named values stands for; where a name comes twice, the later
/// value counts.
pub open spec fn entries_map<T>(entries: Seq<(String, T)>) -> Map<Seq<char>, T>
    decreases entries.len(),
{
    if entries.len() == 0 {
        Map::empty()
    } else {
        entries_map(entries.drop_last()).insert(entries.last().0@, entries.last().1)
    }
}

/// No name occurs twice.
pub open spec fn distinct_names<T>(entries: Seq<(String, T)>) -> bool {
    forall|i: int, j: int| 0 <= i < j < entries.len() ==> entries[i].0@ != entries[j].0@
}

/// A list of distinctly named values maps each name to its value, and holds no other name.
pub proof fn entries_map_holds<T>(entries: Seq<(String, T)>)
    requires
        distinct_names(entries),
    ensures
        forall|i: int|
            0 <= i < entries.len() ==> entries_map(entries).dom().contains(
                (#[trigger] entries[i]).0@,
            ) && entries_map(entries)[entries[i].0@] == entries[i].1,
        forall|k: Seq<char>|
            #[trigger]
            entries_map(entries).dom().contains(k) ==> exists|i: int|
                0 <= i < entries.len() && (#[trigger] entries[i]).0@ == k,
    decreases entries.len(),
{
    if entries.len() > 0 {
        let front = entries.drop_last();
        entries_map_holds(front);
        assert forall|i: int| 0 <= i < entries.len() implies entries_map(entries).dom().contains(
            (#[trigger] entries[i]).0@,
        ) && entries_map(entries)[entries[i].0@] == entries[i].1 by {
            if i < front.len() {
                assert(front[i] == entries[i]);
                assert(entries[i].0@ != entries.last().0@);
            }
        }
        assert forall|k: Seq<char>| #[trigger]
            entries_map(entries).dom().contains(k) implies exists|i: int|
            0 <= i < entries.len() && (#[trigger] entries[i]).0@ == k by {
            if k == entries.last().0@ {
                assert(entries[entries.len() - 1].0@ == k);
            } else {
                assert(entries_map(front).dom().contains(k));
                let i = choose|i: int| 0 <= i < front.len() && (#[trigger] front[i]).0@ == k;
                assert(entries[i].0@ == k);
            }
        }
    }
}

/// Values by name, each name at most once.
pub struct Table<T> {
    entries: Vec<(String, T)>,
}

impl<T> View for Table<T> {
    type V = Map<Seq<char>, T>;

    closed spec fn view(&self) -> Map<Seq<char>, T> {
        entries_map(self.entries@)
    }
}

impl<T> Table<T> {
    #[verifier::type_invariant]
    spec fn distinct(self) -> bool {
        distinct_names(self.entries@)
    }

    /// An empty table.
    pub fn new() -> (r: Self)
        ensures
            r@ == Map::<Seq<char>, T>::empty(),
    {
        Table { entries: Vec::new() }
    }

    /// The table of a list of values under distinct names.
    pub fn from_entries(entries: Vec<(String, T)>) -> (r: Self)
        requires
            distinct_names(entries@),
        ensures
            r@ == entries_map(entries@),
    {
        Table { entries }
    }

    /// Where a name stands in the list.
    fn position(&self, name: &String) -> (r: Option<usize>)
        ensures
            match r {
                Some(i) => i < self.entries@.len() && self.entries@[i as int].0@ == name@
                    && self@.dom().contains(name@) && self@[name@] == self.entries@[i as int].1,
                None => !self@.dom().contains(name@) && forall|j: int|
                    0 <= j < self.entries@.len() ==> (#[trigger] self.entries@[j]).0@ != name@,
            },
    {
        proof {
            use_type_invariant(self);
            entries_map_holds(self.entries@);
        }
        let mut i: usize = 0;
        while i < self.entries.len()
            invariant
                i <= self.entries@.len(),
                forall|j: int| 0 <= j < i ==> (#[trigger] self.entries@[j]).0@ != name@,
                forall|j: int|
                    0 <= j < self.entries@.len() ==> entries_map(self.entries@).dom().contains(
                        (#[trigger] self.entries@[j]).0@,
                    ) && entries_map(self.entries@)[self.entries@[j].0@] == self.entries@[j].1,
            decreases self.entries@.len() - i,
        {
            if self.entries[i].0 == *name {
                return Some(i);
            }
            i = i + 1;
        }
        None
    }

    /// The value under a name.
    pub fn get(&self, name: &String) -> (r: Option<&T>)
        ensures
            r == (if self@.dom().contains(name@) {
                Some(&self@[name@])
            } else {
                None
            }),
    {
        match self.position(name) {
            Some(i) => Some(&self.entries[i].1),
            None => None,
        }
    }

    /// Is there a value under this name?
    pub fn contains(&self, name: &String) -> (r: bool)
        ensures
            r == self@.dom().contains(name@),
    {
        match self.position(name) {
            Some(_) => true,
            None => false,
        }
    }

    /// Puts a value under a name; an earlier value under that name goes.
    pub fn insert(&mut self, name: String, value: T)
        ensures
            final(self)@ == old(self)@.insert(name@, value),
    {
        let at: Option<usize> = self.position(&name);
        let mut entries: Vec<(String, T)> = Vec::new();
        proof {
            use_type_invariant(&*self);
        }
        let ghost before = self.entries@;
        std::mem::swap(&mut entries, &mut self.entries);
        match at {
            Some(i) => {
                entries.remove(i);
            },
            None => {},
        }
        let ghost middle = entries@;
        entries.push((name, value));
        proof {
            assert(distinct_names(entries@)) by {
                assert forall|i: int, j: int|
                    0 <= i < j < entries@.len() implies entries@[i].0@ != entries@[j].0@ by {
                    match at {
                        Some(p) => {
                            let a = if i < p {
                                i
                            } else {
                                i + 1
                            };
                            assert(entries@[i] == before[a]);
                            if j == entries@.len() - 1 {
                                assert(before[a].0@ != before[p as int].0@);
                            } else {
                                let b = if j < p {
                                    j
                                } else {
                                    j + 1
                                };
                                assert(entries@[j] == before[b]);
                            }
                        },
                        None => {
                            assert(entries@[i] == before[i]);
                        },
                    }
                }
            }
            assert(entries@.drop_last() =~= middle);
            assert(distinct_names(middle)) by {
                assert forall|i: int, j: int| 0 <= i < j < middle.len() implies middle[i].0@
                    != middle[j].0@ by {
                    assert(entries@[i] == middle[i] && entries@[j] == middle[j]);
                }
            }
            entries_map_holds(before);
            entries_map_holds(middle);
            let was = entries_map(before).insert(name@, value);
            let now = entries_map(middle).insert(name@, value);
            assert forall|k: Seq<char>|
                #![trigger was.dom().contains(k)]
                #![trigger now.dom().contains(k)]
                #![trigger was[k]]
                was.dom().contains(k) == now.dom().contains(k) && (was.dom().contains(k) ==> was[k]
                    == now[k]) by {
                if k != name@ {
                    if entries_map(before).dom().contains(k) {
                        let i = choose|i: int| 0 <= i < before.len() && (#[trigger] before[i]).0@ == k;
                        match at {
                            Some(p) => {
                                let a = if i < p {
                                    i
                                } else {
                                    i - 1
                                };
                                assert(middle[a] == before[i]);
                            },
                            None => {
                                assert(middle[i] == before[i]);
                            },
                        }
                    }
                    if entries_map(middle).dom().contains(k) {
                        let i = choose|i: int| 0 <= i < middle.len() && (#[trigger] middle[i]).0@ == k;
                        match at {
                            Some(p) => {
                                let a = if i < p {
                                    i
                                } else {
                                    i + 1
                                };
                                assert(middle[i] == before[a]);
                            },
                            None => {
                                assert(middle[i] == before[i]);
                            },
                        }
                    }
                }
            }
            assert(was.dom() =~= now.dom());
            assert(was =~= now);
        }
        self.entries = entries;
    }

    /// The number of entries.
    pub fn len(&self) -> (r: usize)
        ensures
            r == self.listed().len(),
            forall|k: Seq<char>|
                #[trigger]
                self@.dom().contains(k) ==> exists|i: int|
                    0 <= i < r && (#[trigger] self.listed()[i]).0 == k,
    {
        proof {
            use_type_invariant(self);
            entries_map_holds(self.entries@);
            assert forall|k: Seq<char>| #[trigger] self@.dom().contains(k) implies exists|i: int|
                0 <= i < self.entries@.len() && (#[trigger] self.listed()[i]).0 == k by {
                let i = choose|i: int|
                    0 <= i < self.entries@.len() && (#[trigger] self.entries@[i]).0@ == k;
                assert(self.listed()[i].0 == k);
            }
        }
        self.entries.len()
    }

    /// The entries in the order in which they are kept.
    pub closed spec fn listed(&self) -> Seq<(Seq<char>, T)> {
        self.entries@.map_values(|e: (String, T)| (e.0@, e.1))
    }

    /// The entry at a place of that order.
    pub fn entry(&self, i: usize) -> (r: (&String, &T))
        requires
            i < self.listed().len(),
        ensures
            (r.0@, *r.1) == self.listed()[i as int],
            self@.dom().contains(r.0@),
            self@[r.0@] == *r.1,
    {
        proof {
            use_type_invariant(self);
            entries_map_holds(self.entries@);
            assert(self.entries@[i as int].0@ == self.listed()[i as int].0);
        }
        (&self.entries[i].0, &self.entries[i].1)
    }
}

} // verus!
