//! Values kept under a name, the later of two with the same name replacing
//! the earlier.

use std::sync::Arc;
use vstd::prelude::*;

verus! {

/// A shared value with its name.
pub struct Named<T> {
    pub name: String,
    pub value: Arc<T>,
}

/// The values of a table by name.
pub struct Table<T> {
    entries: Vec<Named<T>>,
}

/// Whether no two of `entries` have the same name.
pub open spec fn distinct_names<T>(entries: Seq<Named<T>>) -> bool {
    forall|i: int, j: int|
        0 <= i < entries.len() && 0 <= j < entries.len() && i != j ==> (#[trigger] entries[i]).name@
            != (#[trigger] entries[j]).name@
}

/// Whether one of `entries` is called `name`.
pub open spec fn has_name<T>(entries: Seq<Named<T>>, name: Seq<char>) -> bool {
    exists|i: int| 0 <= i < entries.len() && (#[trigger] entries[i]).name@ == name
}

/// The map from each name in `entries` to the view of its value.
pub open spec fn by_name<T: View>(entries: Seq<Named<T>>) -> Map<Seq<char>, T::V> {
    Map::new(
        |name: Seq<char>| has_name(entries, name),
        |name: Seq<char>|
            {
                let i = choose|i: int|
                    0 <= i < entries.len() && (#[trigger] entries[i]).name@ == name;
                entries[i].value@
            },
    )
}

impl<T: View> View for Table<T> {
    type V = Map<Seq<char>, T::V>;

    closed spec fn view(&self) -> Map<Seq<char>, T::V> {
        by_name(self.entries@)
    }
}

impl<T: View> Table<T> {
    /// Whether every name stands in the table once.
    pub closed spec fn wf(&self) -> bool {
        distinct_names(self.entries@)
    }

    /// A table without entries.
    pub fn new() -> (table: Self)
        ensures
            table.wf(),
            table@ == Map::<Seq<char>, T::V>::empty(),
    {
        let table = Table { entries: Vec::new() };
        assert(table@ =~= Map::<Seq<char>, T::V>::empty());
        table
    }

    /// Where the entry called `name` stands, if there is one.
    fn position(&self, name: &String) -> (found: Option<usize>)
        ensures
            match found {
                Some(i) => i < self.entries@.len() && self.entries@[i as int].name@ == name@,
                None => forall|i: int|
                    0 <= i < self.entries@.len() ==> (#[trigger] self.entries@[i]).name@ != name@,
            },
    {
        let mut i: usize = 0;
        while i < self.entries.len()
            invariant
                i <= self.entries@.len(),
                forall|j: int| 0 <= j < i ==> (#[trigger] self.entries@[j]).name@ != name@,
            decreases self.entries@.len() - i,
        {
            if self.entries[i].name == *name {
                return Some(i);
            }
            i += 1;
        }
        None
    }

    /// The value called `name`, if there is one.
    pub fn get(&self, name: &String) -> (found: Option<&Arc<T>>)
        requires
            self.wf(),
        ensures
            match found {
                Some(value) => self@.contains_key(name@) && self@[name@] == value@,
                None => !self@.contains_key(name@),
            },
    {
        match self.position(name) {
            Some(i) => {
                assert(self@.contains_key(name@));
                Some(&self.entries[i].value)
            },
            None => None,
        }
    }

    /// Puts `value` under `name`, in place of what stood there before.
    pub fn insert(&mut self, name: String, value: Arc<T>)
        requires
            old(self).wf(),
        ensures
            final(self).wf(),
            final(self)@ == old(self)@.insert(name@, value@),
    {
        let ghost before = self.entries@;
        let ghost at: int;
        match self.position(&name) {
            Some(i) => {
                self.entries[i] = Named { name, value };
                proof {
                    at = i as int;
                }
            },
            None => {
                self.entries.push(Named { name, value });
                proof {
                    at = before.len() as int;
                }
            },
        }
        proof {
            let after = self.entries@;
            assert(after[at].name@ == name@ && after[at].value == value);
            assert(forall|i: int|
                0 <= i < before.len() && i != at ==> after[i] == #[trigger] before[i]);
            assert(distinct_names(after));
            let expected = by_name(before).insert(name@, value@);
            assert forall|key: Seq<char>| #[trigger]
                by_name(after).contains_key(key) <==> expected.contains_key(key) by {
                if by_name(after).contains_key(key) {
                    let i = choose|i: int|
                        0 <= i < after.len() && (#[trigger] after[i]).name@ == key;
                    if key != name@ {
                        assert(before[i].name@ == key);
                    }
                }
                if expected.contains_key(key) && key != name@ {
                    let i = choose|i: int|
                        0 <= i < before.len() && (#[trigger] before[i]).name@ == key;
                    assert(after[i].name@ == key);
                }
            }
            assert forall|key: Seq<char>| #[trigger]
                by_name(after).contains_key(key) implies by_name(after)[key] == expected[key] by {
                let i = choose|i: int| 0 <= i < after.len() && (#[trigger] after[i]).name@ == key;
                if key != name@ {
                    let j = choose|j: int|
                        0 <= j < before.len() && (#[trigger] before[j]).name@ == key;
                    assert(before[i].name@ == key);
                    assert(i == j);
                } else {
                    assert(i == at);
                }
            }
            assert(by_name(after) =~= expected);
        }
    }

    /// The entries: every name of the table once, with its value.
    pub fn into_entries(self) -> (entries: Vec<Named<T>>)
        requires
            self.wf(),
        ensures
            distinct_names(entries@),
            by_name(entries@) == self@,
    {
        self.entries
    }
}

} // verus!
