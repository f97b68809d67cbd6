//! Values by name.
use vstd::prelude::*;

verus! {

/// Values bound to names, at most one value per name.
#[derive(Debug, Clone)]
pub struct Bindings<T> {
    pub(crate) entries: Vec<(String, T)>,
}

/// The value of the first entry with the name.
pub open spec fn find<T>(entries: Seq<(String, T)>, name: Seq<char>) -> Option<T>
    decreases entries.len(),
{
    if entries.len() == 0 {
        None
    } else {
        match find(entries.drop_last(), name) {
            Some(v) => Some(v),
            None => if entries.last().0@ == name {
                Some(entries.last().1)
            } else {
                None
            },
        }
    }
}

proof fn lemma_find_at<T>(entries: Seq<(String, T)>, name: Seq<char>, i: int)
    requires
        0 <= i < entries.len(),
        entries[i].0@ == name,
        forall|j: int| 0 <= j < i ==> (#[trigger] entries[j]).0@ != name,
    ensures
        find(entries, name) == Some(entries[i].1),
    decreases entries.len(),
{
    if i == entries.len() - 1 {
        lemma_find_none(entries.drop_last(), name);
    } else {
        lemma_find_at(entries.drop_last(), name, i);
    }
}

proof fn lemma_find_none<T>(entries: Seq<(String, T)>, name: Seq<char>)
    requires
        forall|j: int| 0 <= j < entries.len() ==> (#[trigger] entries[j]).0@ != name,
    ensures
        find(entries, name) is None,
    decreases entries.len(),
{
    if entries.len() > 0 {
        lemma_find_none(entries.drop_last(), name);
    }
}

/// A listed name has a value.
proof fn lemma_find_listed<T>(entries: Seq<(String, T)>, i: int)
    requires
        0 <= i < entries.len(),
    ensures
        find(entries, entries[i].0@) is Some,
    decreases entries.len(),
{
    if i < entries.len() - 1 {
        lemma_find_listed(entries.drop_last(), i);
    }
}

/// Replacing the value of an entry changes no other name.
proof fn lemma_find_update<T>(
    entries: Seq<(String, T)>,
    i: int,
    entry: (String, T),
    name: Seq<char>,
)
    requires
        0 <= i < entries.len(),
        entry.0@ == entries[i].0@,
        name != entry.0@,
    ensures
        find(entries.update(i, entry), name) == find(entries, name),
    decreases entries.len(),
{
    let updated = entries.update(i, entry);
    if i < entries.len() - 1 {
        lemma_find_update(entries.drop_last(), i, entry, name);
        assert(updated.drop_last() =~= entries.drop_last().update(i, entry));
    } else {
        assert(updated.drop_last() =~= entries.drop_last());
    }
}

/// Returns whether two texts are equal.
pub fn same_text(a: &str, b: &str) -> (r: bool)
    ensures
        r == (a@ == b@),
{
    let x = String::from_str(a);
    let y = String::from_str(b);
    x == y
}

impl<T> Bindings<T> {
    /// The value bound to a name.
    pub open(crate) spec fn lookup(self, name: Seq<char>) -> Option<T> {
        find(self.entries@, name)
    }

    /// The names in the order in which they were first bound.
    pub open(crate) spec fn names(self) -> Seq<Seq<char>> {
        self.entries@.map_values(|e: (String, T)| e.0@)
    }

    /// Returns bindings without entries.
    pub fn new() -> (r: Self)
        ensures
            forall|name: Seq<char>| #[trigger] r.lookup(name) is None,
            r.names().len() == 0,
    {
        Bindings { entries: Vec::new() }
    }

    /// Returns the number of names.
    pub fn len(&self) -> (r: usize)
        ensures
            r == self.names().len(),
    {
        self.entries.len()
    }

    /// Returns the name at a place, which is bound.
    pub fn name(&self, i: usize) -> (r: &str)
        requires
            i < self.names().len(),
        ensures
            r@ == self.names()[i as int],
            self.lookup(r@) is Some,
    {
        proof {
            lemma_find_listed(self.entries@, i as int);
        }
        self.entries[i].0.as_str()
    }

    /// Returns the value bound to `name`.
    pub fn get(&self, name: &str) -> (r: Option<&T>)
        ensures
            match r {
                Some(v) => self.lookup(name@) == Some(*v),
                None => self.lookup(name@) is None,
            },
    {
        let mut i: usize = 0;
        while i < self.entries.len()
            invariant
                i <= self.entries@.len(),
                forall|j: int| 0 <= j < i ==> (#[trigger] self.entries@[j]).0@ != name@,
            decreases self.entries@.len() - i,
        {
            if same_text(self.entries[i].0.as_str(), name) {
                proof {
                    lemma_find_at(self.entries@, name@, i as int);
                }
                return Some(&self.entries[i].1);
            }
            i += 1;
        }
        proof {
            lemma_find_none(self.entries@, name@);
        }
        None
    }

    /// Binds `name` to `value`, in place of what it was bound to.
    pub fn insert(&mut self, name: String, value: T)
        ensures
            final(self).lookup(name@) == Some(value),
            forall|other: Seq<char>|
                other != name@ ==> #[trigger] final(self).lookup(other) == old(self).lookup(other),
            final(self).names() == (if old(self).lookup(name@) is Some {
                old(self).names()
            } else {
                old(self).names().push(name@)
            }),
    {
        let ghost before = self.entries@;
        let mut i: usize = 0;
        while i < self.entries.len()
            invariant
                i <= self.entries@.len(),
                self.entries@ == before,
                before == old(self).entries@,
                forall|j: int| 0 <= j < i ==> (#[trigger] self.entries@[j]).0@ != name@,
            decreases self.entries@.len() - i,
        {
            if same_text(self.entries[i].0.as_str(), name.as_str()) {
                let ghost entry = (name, value);
                self.entries.set(i, (name, value));
                proof {
                    lemma_find_at(before, name@, i as int);
                    lemma_find_at(self.entries@, name@, i as int);
                    assert forall|other: Seq<char>| other != name@ implies #[trigger] find(
                        self.entries@,
                        other,
                    ) == find(before, other) by {
                        lemma_find_update(before, i as int, entry, other);
                    }
                    assert(self.names() =~= old(self).names());
                }
                return;
            }
            i += 1;
        }
        proof {
            lemma_find_none(before, name@);
        }
        let ghost entry = (name, value);
        self.entries.push((name, value));
        proof {
            assert(self.entries@.drop_last() =~= before);
            assert(self.names() =~= old(self).names().push(name@));
        }
    }
}

} // verus!
