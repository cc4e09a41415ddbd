//! A table from names to integers.

use vstd::prelude::*;

verus! {

/// A finite table from names to integers. Each name is held at most once.
#[derive(Debug)]
pub struct Bindings {
    entries: Vec<(String, i32)>,
}

impl View for Bindings {
    type V = Map<Seq<char>, i32>;

    /// The table as a map from each bound name to its value.
    closed spec fn view(&self) -> Map<Seq<char>, i32> {
        Map::new(
            |name: Seq<char>| self.position(name) is Some,
            |name: Seq<char>| self.entries[self.position(name).unwrap()].1,
        )
    }
}

impl Bindings {
    #[verifier::type_invariant]
    spec fn distinct_names(self) -> bool {
        forall|i: int, j: int|
            0 <= i < j < self.entries.len() ==> self.entries[i].0@ != self.entries[j].0@
    }

    /// Where `name` is held, if it is bound.
    spec fn position(self, name: Seq<char>) -> Option<int> {
        if exists|i: int| 0 <= i < self.entries.len() && self.entries[i].0@ == name {
            Some(choose|i: int| 0 <= i < self.entries.len() && self.entries[i].0@ == name)
        } else {
            None
        }
    }

    /// The table that binds no name.
    pub fn new() -> (table: Self)
        ensures
            table@ == Map::<Seq<char>, i32>::empty(),
    {
        let table = Bindings { entries: Vec::new() };
        assert(table@ =~= Map::<Seq<char>, i32>::empty());
        table
    }

    /// The index at which `name` is held.
    fn find(&self, name: &String) -> (found: Option<usize>)
        ensures
            match found {
                Some(i) => i < self.entries.len() && self.position(name@) == Some(i as int),
                None => self.position(name@) is None,
            },
    {
        proof {
            use_type_invariant(self);
        }
        let mut i: usize = 0;
        while i < self.entries.len()
            invariant
                i <= self.entries.len(),
                self.distinct_names(),
                forall|k: int| 0 <= k < i ==> self.entries[k].0@ != name@,
            decreases self.entries.len() - i,
        {
            if self.entries[i].0 == *name {
                return Some(i);
            }
            i += 1;
        }
        None
    }

    /// The value bound to `name`, if there is one.
    pub fn get(&self, name: &String) -> (value: Option<i32>)
        ensures
            value == (if self@.contains_key(name@) {
                Some(self@[name@])
            } else {
                None
            }),
    {
        match self.find(name) {
            Some(i) => Some(self.entries[i].1),
            None => None,
        }
    }

    /// Whether `name` is bound.
    pub fn contains_key(&self, name: &String) -> (bound: bool)
        ensures
            bound == self@.contains_key(name@),
    {
        self.find(name).is_some()
    }

    /// Binds `name` to `value`, in place of what it was bound to before.
    pub fn insert(&mut self, name: String, value: i32)
        ensures
            final(self)@ == old(self)@.insert(name@, value),
    {
        proof {
            use_type_invariant(&*self);
        }
        let ghost before = *self;
        let ghost key = name@;
        let found = self.find(&name);
        // The entries leave the table while they change, so that the table
        // holds distinct names at every moment.
        let mut entries: Vec<(String, i32)> = Vec::new();
        core::mem::swap(&mut self.entries, &mut entries);
        match found {
            Some(i) => {
                entries.set(i, (name, value));
            },
            None => {
                entries.push((name, value));
            },
        }
        self.entries = entries;
        proof {
            assert forall|other: Seq<char>| self.position(other) is Some <==> (other == key
                || before.position(other) is Some) by {
                if before.position(other) is Some {
                    let k: int = before.position(other).unwrap();
                    assert(self.entries[k].0@ == other);
                }
                if other == key {
                    let k: int = if before.position(key) is Some {
                        before.position(key).unwrap()
                    } else {
                        before.entries.len() as int
                    };
                    assert(self.entries[k].0@ == key);
                }
            }
            assert forall|other: Seq<char>| self.position(other) is Some implies self.entries[self.position(
                other,
            ).unwrap()].1 == (if other == key {
                value
            } else {
                before.entries[before.position(other).unwrap()].1
            }) by {
                let k: int = self.position(other).unwrap();
                if other != key {
                    let b: int = before.position(other).unwrap();
                    assert(before.entries[k].0@ == other);
                    assert(k == b);
                }
            }
            assert(self@ =~= before@.insert(key, value));
        }
    }
}

} // verus!
