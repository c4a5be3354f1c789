//! A set of dependency identities.

use vstd::prelude::*;
use crate::dependency::{Dependency, DependencyView};

verus! {

/// The mathematical values of a list of identities.
pub open spec fn identities(items: Seq<Dependency>) -> Seq<DependencyView> {
    items.map_values(|dependency: Dependency| dependency@)
}

/// `list` with `dependency` added at the end, unless `list` holds it
/// already.
pub open spec fn with_identity(list: Seq<DependencyView>, dependency: DependencyView) -> Seq<
    DependencyView,
> {
    if list.contains(dependency) {
        list
    } else {
        list.push(dependency)
    }
}

/// Adding an identity keeps a list free of duplicates, and adds that
/// identity to what the list holds and nothing else.
pub proof fn lemma_with_identity(list: Seq<DependencyView>, dependency: DependencyView)
    requires
        list.no_duplicates(),
    ensures
        with_identity(list, dependency).no_duplicates(),
        with_identity(list, dependency).to_set() == list.to_set().insert(dependency),
{
    let after = with_identity(list, dependency);
    assert forall|d: DependencyView| after.contains(d) <==> (list.contains(d) || d == dependency) by {
        if list.contains(dependency) {
        } else {
            if after.contains(d) {
                let i = choose|i: int| 0 <= i < after.len() && after[i] == d;
                if i < list.len() {
                    assert(list[i] == d);
                }
            }
            if list.contains(d) {
                let i = choose|i: int| 0 <= i < list.len() && list[i] == d;
                assert(after[i] == d);
            }
            assert(after[list.len() as int] == dependency);
        }
    }
    assert(after.to_set() =~= list.to_set().insert(dependency));
}

/// A set of identities. It holds no identity twice, and keeps the
/// identities in the order in which they were first inserted.
#[derive(Debug)]
pub struct DependencySet {
    items: Vec<Dependency>,
}

impl View for DependencySet {
    type V = Seq<DependencyView>;

    closed spec fn view(&self) -> Seq<DependencyView> {
        identities(self.items@)
    }
}

impl DependencySet {
    /// The invariant of the type: no identity stands in the set twice.
    pub open spec fn wf(&self) -> bool {
        self@.no_duplicates()
    }

    /// The empty set.
    pub fn new() -> (set: Self)
        ensures
            set.wf(),
            set@ == Seq::<DependencyView>::empty(),
    {
        let set = DependencySet { items: Vec::new() };
        proof {
            assert(set@ =~= Seq::<DependencyView>::empty());
        }
        set
    }

    /// The number of identities.
    pub fn len(&self) -> (count: usize)
        ensures
            count == self@.len(),
    {
        self.items.len()
    }

    /// Whether the set holds no identity.
    pub fn is_empty(&self) -> (empty: bool)
        ensures
            empty == (self@.len() == 0),
    {
        self.items.len() == 0
    }

    /// Whether the set holds `dependency`.
    pub fn contains(&self, dependency: &Dependency) -> (found: bool)
        ensures
            found == self@.contains(dependency@),
    {
        let mut i: usize = 0;
        while i < self.items.len()
            invariant
                i <= self.items.len(),
                forall|k: int| 0 <= k < i ==> #[trigger] self@[k] != dependency@,
            decreases self.items.len() - i,
        {
            if self.items[i] == *dependency {
                proof {
                    assert(self@[i as int] == dependency@);
                }
                return true;
            }
            i += 1;
        }
        false
    }

    /// Inserts `dependency`, unless the set holds it already. Returns
    /// whether it was inserted.
    pub fn insert(&mut self, dependency: Dependency) -> (fresh: bool)
        requires
            old(self).wf(),
        ensures
            final(self).wf(),
            final(self)@ == with_identity(old(self)@, dependency@),
            fresh == !old(self)@.contains(dependency@),
    {
        proof {
            lemma_with_identity(self@, dependency@);
        }
        if self.contains(&dependency) {
            false
        } else {
            let ghost before = self@;
            self.items.push(dependency);
            proof {
                assert(self@ =~= before.push(dependency@));
            }
            true
        }
    }

    /// The identity at index `index`, in the order of insertion.
    pub fn get(&self, index: usize) -> (dependency: Option<&Dependency>)
        ensures
            match dependency {
                Some(found) => index < self@.len() && found@ == self@[index as int],
                None => index >= self@.len(),
            },
    {
        if index < self.items.len() {
            Some(&self.items[index])
        } else {
            None
        }
    }

    /// The identities, in the order of insertion.
    pub fn to_vec(&self) -> (items: Vec<Dependency>)
        ensures
            identities(items@) == self@,
    {
        let mut items: Vec<Dependency> = Vec::new();
        let mut i: usize = 0;
        while i < self.items.len()
            invariant
                i <= self.items.len(),
                identities(items@) == self@.take(i as int),
            decreases self.items.len() - i,
        {
            let ghost before = identities(items@);
            let copy = self.items[i].clone();
            items.push(copy);
            proof {
                assert(identities(items@) =~= before.push(copy@));
                assert(identities(items@) =~= self@.take(i + 1));
            }
            i += 1;
        }
        proof {
            assert(self@.take(self.items.len() as int) =~= self@);
        }
        items
    }
}

} // verus!
