//! Maps from names.
use crate::text::same_text;
use vstd::prelude::*;

verus! {

/// A map from names to values, in the order in which the names first came.
pub struct NameMap<V> {
    entries: Vec<(String, V)>,
}

impl<V> View for NameMap<V> {
    type V = Map<Seq<char>, V>;

    closed spec fn view(&self) -> Map<Seq<char>, V> {
        Map::new(
            |name: Seq<char>| self.position(name) is Some,
            |name: Seq<char>| self.entries@[self.position(name)->0].1,
        )
    }
}

impl<V> NameMap<V> {
    spec fn stands_at(self, name: Seq<char>, i: int) -> bool {
        0 <= i < self.entries@.len() && self.entries@[i].0@ == name
    }

    spec fn position(self, name: Seq<char>) -> Option<int> {
        if exists|i: int| self.stands_at(name, i) {
            Some(choose|i: int| self.stands_at(name, i))
        } else {
            None
        }
    }

    /// The names, in the order in which they first came.
    pub closed spec fn names(self) -> Seq<Seq<char>> {
        self.entries@.map_values(|entry: (String, V)| entry.0@)
    }

    /// No name occurs twice.
    pub closed spec fn wf(self) -> bool {
        forall|i: int, j: int|
            0 <= i < j < self.entries@.len() ==> #[trigger] self.entries@[i].0@
                != #[trigger] self.entries@[j].0@
    }

    proof fn lemma_position(self, name: Seq<char>, i: int)
        requires
            self.wf(),
            self.stands_at(name, i),
        ensures
            self.position(name) == Some(i),
    {
        let j = choose|j: int| self.stands_at(name, j);
        assert(self.stands_at(name, j));
    }

    pub fn new() -> (names: Self)
        ensures
            names.wf(),
            names@ == Map::<Seq<char>, V>::empty(),
            names.names() == Seq::<Seq<char>>::empty(),
    {
        let names = NameMap { entries: Vec::new() };
        assert(names@ =~= Map::<Seq<char>, V>::empty());
        names
    }

    fn find(&self, name: &str) -> (found: Option<usize>)
        requires
            self.wf(),
        ensures
            match found {
                Some(i) => self.stands_at(name@, i as int) && self.position(name@) == Some(i as int),
                None => self.position(name@) is None,
            },
    {
        let mut i: usize = 0;
        while i < self.entries.len()
            invariant
                self.wf(),
                i <= self.entries.len(),
                forall|k: int| 0 <= k < i ==> self.entries@[k].0@ != name@,
            decreases self.entries.len() - i,
        {
            if same_text(self.entries[i].0.as_str(), name) {
                proof {
                    self.lemma_position(name@, i as int);
                }
                return Some(i);
            }
            i = i + 1;
        }
        None
    }

    /// Gives `name` the value `value`, in place of the one that it has. A name that is new comes
    /// after all others.
    pub fn insert(&mut self, name: &str, value: V)
        requires
            old(self).wf(),
        ensures
            final(self).wf(),
            final(self)@ == old(self)@.insert(name@, value),
            final(self).names() == if old(self)@.contains_key(name@) {
                old(self).names()
            } else {
                old(self).names().push(name@)
            },
    {
        match self.find(name) {
            Some(i) => {
                let entry = (name.to_owned(), value);
                self.entries.set(i, entry);
            },
            None => {
                self.entries.push((name.to_owned(), value));
            },
        }
        proof {
            let before = *old(self);
            let at: int = match before.position(name@) {
                Some(i) => i,
                None => before.entries@.len() as int,
            };
            assert forall|i: int, j: int|
                0 <= i < j < self.entries@.len() implies #[trigger] self.entries@[i].0@
                != #[trigger] self.entries@[j].0@ by {
                if before.position(name@) is None {
                    assert(!before.stands_at(name@, i));
                } else {
                    assert(before.entries@[i].0@ != before.entries@[j].0@);
                }
            }
            assert(self.stands_at(name@, at));
            self.lemma_position(name@, at);
            assert forall|other: Seq<char>| other != name@ implies self.position(other)
                == before.position(other) by {
                if exists|i: int| before.stands_at(other, i) {
                    let i = choose|i: int| before.stands_at(other, i);
                    assert(self.stands_at(other, i));
                    self.lemma_position(other, i);
                    before.lemma_position(other, i);
                } else if exists|i: int| self.stands_at(other, i) {
                    let i = choose|i: int| self.stands_at(other, i);
                    assert(before.stands_at(other, i));
                }
            }
            assert(self@ =~= before@.insert(name@, value));
            assert(self.names() =~= if before@.contains_key(name@) {
                before.names()
            } else {
                before.names().push(name@)
            });
        }
    }

    /// The value that `name` has.
    pub fn get(&self, name: &str) -> (value: Option<&V>)
        requires
            self.wf(),
        ensures
            match value {
                Some(value) => self@.contains_key(name@) && self@[name@] == *value,
                None => !self@.contains_key(name@),
            },
    {
        match self.find(name) {
            Some(i) => Some(&self.entries[i].1),
            None => None,
        }
    }

    /// The names with their values, in the order in which the names first came, each once.
    pub fn entries(&self) -> (entries: &Vec<(String, V)>)
        requires
            self.wf(),
        ensures
            entries@.map_values(|entry: (String, V)| entry.0@) == self.names(),
            self.names().no_duplicates(),
            forall|i: int|
                0 <= i < entries@.len() ==> self@.contains_key(#[trigger] entries@[i].0@)
                    && self@[entries@[i].0@] == entries@[i].1,
            forall|name: Seq<char>|
                #[trigger] self@.contains_key(name) ==> exists|i: int|
                    0 <= i < entries@.len() && #[trigger] entries@[i].0@ == name,
    {
        proof {
            assert forall|i: int| 0 <= i < self.entries@.len() implies self@.contains_key(
                #[trigger] self.entries@[i].0@,
            ) && self@[self.entries@[i].0@] == self.entries@[i].1 by {
                assert(self.stands_at(self.entries@[i].0@, i));
                self.lemma_position(self.entries@[i].0@, i);
            }
            assert forall|name: Seq<char>| #[trigger] self@.contains_key(name) implies exists|
                i: int,
            |
                0 <= i < self.entries@.len() && #[trigger] self.entries@[i].0@ == name by {
                let i = choose|i: int| self.stands_at(name, i);
                assert(self.stands_at(name, i));
                assert(self.entries@[i].0@ == name);
            }
        }
        &self.entries
    }
}

} // verus!
