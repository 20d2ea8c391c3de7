//! Name interning: a table that gives each distinct name one stable handle.

use vstd::prelude::*;

verus! {

/// A table of distinct names. The handle of a name is its position in the
/// table, which never changes once the name is in it.
///
/// The table grows with every new name and never shrinks.
pub struct NameCache {
    names: Vec<String>,
}

impl NameCache {
    /// The names of the table, each at the position that is its handle.
    pub closed spec fn names(&self) -> Seq<Seq<char>> {
        Seq::new(self.names@.len(), |i: int| self.names@[i]@)
    }

    /// Whether no name stands twice in the table. Every table that this
    /// module hands out is well formed, and its methods keep it so.
    pub open spec fn well_formed(&self) -> bool {
        self.names().no_duplicates()
    }

    /// An empty table.
    pub fn new() -> (cache: Self)
        ensures
            cache.names() == Seq::<Seq<char>>::empty(),
            cache.well_formed(),
    {
        let cache = NameCache { names: Vec::new() };
        assert(cache.names() =~= Seq::<Seq<char>>::empty());
        cache
    }

    /// How many names the table holds.
    pub fn len(&self) -> (len: usize)
        ensures
            len == self.names().len(),
    {
        self.names.len()
    }

    /// The handle of `name`, if the table holds it.
    pub fn lookup(&self, name: &String) -> (handle: Option<usize>)
        ensures
            match handle {
                Some(h) => h < self.names().len() && self.names()[h as int] == name@,
                None => !self.names().contains(name@),
            },
    {
        let mut i: usize = 0;
        while i < self.names.len()
            invariant
                i <= self.names.len(),
                forall|j: int| 0 <= j < i ==> self.names()[j] != name@,
            decreases self.names.len() - i,
        {
            if self.names[i] == *name {
                return Some(i);
            }
            i += 1;
        }
        None
    }

    /// The handle of `name`: the one it has where the table holds it
    /// already, and otherwise a new one, the name being added at the end of
    /// the table. No name ever has two handles, so asking again for the same
    /// name gives the same handle and leaves the table as it is.
    pub fn intern(&mut self, name: String) -> (handle: usize)
        requires
            old(self).well_formed(),
        ensures
            final(self).well_formed(),
            handle < final(self).names().len(),
            final(self).names()[handle as int] == name@,
            old(self).names().contains(name@) ==> final(self).names() == old(self).names(),
            !old(self).names().contains(name@) ==> final(self).names() == old(self).names().push(
                name@,
            ) && handle == old(self).names().len(),
    {
        match self.lookup(&name) {
            Some(handle) => handle,
            None => {
                let handle = self.names.len();
                let ghost before = self.names();
                self.names.push(name);
                proof {
                    assert(self.names() =~= before.push(name@));
                    assert forall|i: int, j: int|
                        0 <= i < self.names().len() && 0 <= j < self.names().len() && i
                            != j implies self.names()[i] != self.names()[j] by {
                        if i < handle {
                            assert(before.contains(before[i]));
                        }
                        if j < handle {
                            assert(before.contains(before[j]));
                        }
                    }
                }
                handle
            },
        }
    }

    /// The name that `handle` stands for.
    pub fn resolve(&self, handle: usize) -> (name: &String)
        requires
            handle < self.names().len(),
        ensures
            name@ == self.names()[handle as int],
    {
        &self.names[handle]
    }
}

} // verus!
