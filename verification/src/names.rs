//! Sets and maps of names.
use crate::text::same_text;
use vstd::prelude::*;

verus! {

/// A set of names.
#[derive(Debug)]
pub struct NameSet {
    pub names: Vec<String>,
}

impl View for NameSet {
    type V = Set<Seq<char>>;

    open spec fn view(&self) -> Set<Seq<char>> {
        Set::new(
            |name: Seq<char>|
                exists|i: int| 0 <= i < self.names@.len() && (#[trigger] self.names@[i])@ == name,
        )
    }
}

impl NameSet {
    /// The empty set.
    pub fn new() -> (r: NameSet)
        ensures
            r@ == Set::<Seq<char>>::empty(),
    {
        let r = NameSet { names: Vec::new() };
        proof {
            assert(r@ =~= Set::<Seq<char>>::empty());
        }
        r
    }

    /// Adds a name.
    pub fn insert(&mut self, name: String)
        ensures
            final(self)@ == old(self)@.insert(name@),
    {
        let ghost before = self.names@;
        self.names.push(name);
        proof {
            assert(self.names@ == before.push(name));
            assert forall|n: Seq<char>| self@.contains(n) == old(self)@.insert(
                name@,
            ).contains(n) by {
                if old(self)@.contains(n) {
                    let i = choose|i: int|
                        0 <= i < before.len() && (#[trigger] before[i])@ == n;
                    assert(self.names@[i]@ == n);
                }
                if n == name@ {
                    assert(self.names@[before.len() as int]@ == n);
                }
                if self@.contains(n) {
                    let i = choose|i: int|
                        0 <= i < self.names@.len() && (#[trigger] self.names@[i])@ == n;
                    if i < before.len() {
                        assert(before[i]@ == n);
                    }
                }
            }
            assert(self@ =~= old(self)@.insert(name@));
        }
    }

    /// Whether a name is in the set.
    pub fn contains(&self, name: &str) -> (r: bool)
        ensures
            r == self@.contains(name@),
    {
        let mut i: usize = 0;
        while i < self.names.len()
            invariant
                i <= self.names@.len(),
                forall|j: int| 0 <= j < i ==> (#[trigger] self.names@[j])@ != name@,
            decreases self.names@.len() - i,
        {
            if same_text(self.names[i].as_str(), name) {
                return true;
            }
            i = i + 1;
        }
        false
    }
}

/// A value for each of some names.
#[derive(Debug)]
pub struct NameMap<V> {
    pub entries: Vec<(String, V)>,
}

/// Whether an entry is for the given name.
pub open spec fn is_entry_for<V>(entries: Seq<(String, V)>, name: Seq<char>, i: int) -> bool {
    0 <= i < entries.len() && entries[i].0@ == name
}

impl<V> View for NameMap<V> {
    type V = Map<Seq<char>, V>;

    open spec fn view(&self) -> Map<Seq<char>, V> {
        Map::new(
            |name: Seq<char>| exists|i: int| is_entry_for(self.entries@, name, i),
            |name: Seq<char>|
                self.entries@[choose|i: int| is_entry_for(self.entries@, name, i)].1,
        )
    }
}

impl<V: Copy> NameMap<V> {
    /// No name has two entries.
    pub open spec fn wf(&self) -> bool {
        forall|i: int, j: int|
            0 <= i < j < self.entries@.len() ==> (#[trigger] self.entries@[i]).0@ != (
            #[trigger] self.entries@[j]).0@
    }

    /// An entry for a name is what the name's value is read from.
    proof fn entry_is_the_value(&self, i: int)
        requires
            self.wf(),
            0 <= i < self.entries@.len(),
        ensures
            self@.contains_key(self.entries@[i].0@),
            self@[self.entries@[i].0@] == self.entries@[i].1,
    {
        let name = self.entries@[i].0@;
        assert(is_entry_for(self.entries@, name, i));
        let j = choose|j: int| is_entry_for(self.entries@, name, j);
        assert(is_entry_for(self.entries@, name, j));
        assert(i == j);
    }

    /// The empty map.
    pub fn new() -> (r: NameMap<V>)
        ensures
            r.wf(),
            r@ == Map::<Seq<char>, V>::empty(),
    {
        let r = NameMap { entries: Vec::new() };
        proof {
            assert(r@ =~= Map::<Seq<char>, V>::empty());
        }
        r
    }

    /// The position of a name's entry.
    fn find(&self, name: &str) -> (r: Option<usize>)
        ensures
            match r {
                Some(i) => is_entry_for(self.entries@, name@, i as int),
                None => forall|i: int| !is_entry_for(self.entries@, name@, i),
            },
    {
        let mut i: usize = 0;
        while i < self.entries.len()
            invariant
                i <= self.entries@.len(),
                forall|j: int| 0 <= j < i ==> !is_entry_for(self.entries@, name@, j),
            decreases self.entries@.len() - i,
        {
            if same_text(self.entries[i].0.as_str(), name) {
                return Some(i);
            }
            i = i + 1;
        }
        None
    }

    /// The value of a name, if it has one.
    pub fn get(&self, name: &str) -> (r: Option<V>)
        requires
            self.wf(),
        ensures
            r == (if self@.contains_key(name@) {
                Some(self@[name@])
            } else {
                None
            }),
    {
        match self.find(name) {
            Some(i) => {
                proof {
                    self.entry_is_the_value(i as int);
                }
                Some(self.entries[i].1)
            },
            None => None,
        }
    }

    /// Gives a name a value.
    pub fn insert(&mut self, name: &str, value: V)
        requires
            old(self).wf(),
        ensures
            final(self).wf(),
            final(self)@ == old(self)@.insert(name@, value),
    {
        let ghost before = *self;
        match self.find(name) {
            Some(k) => {
                let same = self.entries[k].0.clone();
                self.entries.set(k, (same, value));
            },
            None => {
                self.entries.push((name.to_owned(), value));
            },
        }
        proof {
            assert forall|i: int, j: int| 0 <= i < j < self.entries@.len() implies (
            #[trigger] self.entries@[i]).0@ != (#[trigger] self.entries@[j]).0@ by {
                if j == before.entries@.len() {
                    assert(!is_entry_for(before.entries@, name@, i));
                } else {
                    assert(before.entries@[i].0@ != before.entries@[j].0@);
                }
            }
            let target = before@.insert(name@, value);
            assert forall|n: Seq<char>| #[trigger]
                self@.dom().contains(n) == target.dom().contains(n) by {
                if self@.dom().contains(n) {
                    let i = choose|i: int| is_entry_for(self.entries@, n, i);
                    if i < before.entries@.len() {
                        assert(is_entry_for(before.entries@, n, i));
                    }
                }
                if before@.dom().contains(n) {
                    let i = choose|i: int| is_entry_for(before.entries@, n, i);
                    assert(is_entry_for(self.entries@, n, i));
                }
                if n == name@ {
                    if before@.dom().contains(n) {
                        let i = choose|i: int| is_entry_for(before.entries@, n, i);
                        assert(is_entry_for(self.entries@, n, i));
                    } else {
                        assert(is_entry_for(self.entries@, n, before.entries@.len() as int));
                    }
                }
            }
            assert forall|n: Seq<char>| target.dom().contains(n) implies #[trigger] self@[n]
                == target[n] by {
                assert(self@.dom().contains(n));
                let i = choose|i: int| is_entry_for(self.entries@, n, i);
                self.entry_is_the_value(i);
                if n != name@ {
                    assert(before.entries@[i] == self.entries@[i]);
                    before.entry_is_the_value(i);
                } else if i < before.entries@.len() {
                    before.entry_is_the_value(i);
                    assert(is_entry_for(before.entries@, n, i));
                    assert(self.entries@[i].1 == value);
                }
            }
            assert(self@ =~= target);
        }
    }
}

} // verus!
