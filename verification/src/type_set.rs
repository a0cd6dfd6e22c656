//! Sets of SELinux type names.

use vstd::hash_set::StringHashSet;
use vstd::prelude::*;

verus! {

/// A set of type names.
pub struct TypeSet {
    names: StringHashSet,
}

impl View for TypeSet {
    type V = Set<Seq<char>>;

    closed spec fn view(&self) -> Set<Seq<char>> {
        self.names@
    }
}

impl TypeSet {
    /// The empty set.
    pub fn new() -> (r: Self)
        ensures
            r@ == Set::<Seq<char>>::empty(),
    {
        TypeSet { names: StringHashSet::new() }
    }

    /// Adds a name.
    pub fn insert(&mut self, name: &str)
        ensures
            final(self)@ == old(self)@.insert(name@),
    {
        self.names.insert(name.to_owned());
    }

    /// Whether `name` is in the set.
    pub fn contains(&self, name: &str) -> (r: bool)
        ensures
            r == self@.contains(name@),
    {
        self.names.contains(name)
    }
}

} // verus!
