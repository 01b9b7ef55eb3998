//! Atoms of authority and sets of them.
//!
//! No atom implies another: a set holds exactly the atoms that were put into it.

use vstd::prelude::*;

verus! {

/// One atom of authority that an agent session can hold.
#[derive(Clone, Copy, Debug, PartialEq, Eq, Structural)]
pub enum Capability {
    /// See windows, workspaces and outputs.
    ObserveStructure,
    /// See window titles.
    ObserveTitles,
    /// See the accessibility tree.
    ObserveAccessibility,
    /// Activate windows.
    ManageActivate,
    /// Move and resize windows.
    ManageGeometry,
    /// Drive the pointer.
    InputPointer,
    /// Any other atom, by the number that the protocol gives it.
    Other(u32),
}

/// A set of atoms.
#[derive(Debug, Eq)]
pub struct CapabilitySet {
    atoms: Vec<Capability>,
}

impl View for CapabilitySet {
    type V = Set<Capability>;

    closed spec fn view(&self) -> Set<Capability> {
        Set::new(|atom: Capability| self.atoms@.contains(atom))
    }
}

impl Default for CapabilitySet {
    /// The empty set.
    fn default() -> (set: Self)
        ensures
            set@ == Set::<Capability>::empty(),
    {
        CapabilitySet::empty()
    }
}

impl Clone for CapabilitySet {
    fn clone(&self) -> (copied: Self)
        ensures
            copied@ == self@,
    {
        let empty = CapabilitySet::empty();
        let copied = empty.union(self);
        assert(copied@ =~= self@);
        copied
    }
}

impl PartialEq for CapabilitySet {
    fn eq(&self, other: &Self) -> (r: bool) {
        let same = self.is_subset_of(other) && other.is_subset_of(self);
        assert(same ==> self@ =~= other@);
        same
    }
}

impl vstd::std_specs::cmp::PartialEqSpecImpl for CapabilitySet {
    open spec fn obeys_eq_spec() -> bool {
        true
    }

    open spec fn eq_spec(&self, other: &Self) -> bool {
        self@ == other@
    }
}

/// The atoms of a list.
pub open spec fn atom_set(atoms: Seq<Capability>) -> Set<Capability> {
    Set::new(|atom: Capability| atoms.contains(atom))
}

impl CapabilitySet {
    /// The set without atoms.
    #[must_use]
    pub fn empty() -> (set: Self)
        ensures
            set@ == Set::<Capability>::empty(),
    {
        let set = CapabilitySet { atoms: Vec::new() };
        assert(set@ =~= Set::empty());
        set
    }

    /// The set of the given atoms.
    #[must_use]
    pub fn of(atoms: &[Capability]) -> (set: Self)
        ensures
            set@ == atom_set(atoms@),
    {
        let mut set = CapabilitySet::empty();
        let mut index: usize = 0;
        assert(set@ =~= atom_set(atoms@.take(0)));
        while index < atoms.len()
            invariant
                index <= atoms.len(),
                set@ == atom_set(atoms@.take(index as int)),
            decreases atoms.len() - index,
        {
            set.insert(atoms[index]);
            proof {
                let before = atoms@.take(index as int);
                let now = atoms@.take(index + 1);
                assert(now =~= before.push(atoms@[index as int]));
                assert forall|atom: Capability| now.contains(atom) <==> before.contains(atom)
                    || atom == atoms@[index as int] by {
                    if before.contains(atom) {
                        let i = choose|i: int| 0 <= i < before.len() && before[i] == atom;
                        assert(now[i] == atom);
                    }
                    assert(now[index as int] == atoms@[index as int]);
                }
                assert(set@ =~= atom_set(now));
            }
            index = index + 1;
        }
        assert(atoms@.take(index as int) =~= atoms@);
        set
    }

    /// Whether the set has no atoms.
    #[must_use]
    pub fn is_empty(&self) -> (r: bool)
        ensures
            r == (self@ == Set::<Capability>::empty()),
    {
        proof {
            if self.atoms@.len() > 0 {
                assert(self.atoms@.contains(self.atoms@[0]));
                assert(self@.contains(self.atoms@[0]));
            } else {
                assert(self@ =~= Set::empty());
            }
        }
        self.atoms.len() == 0
    }

    /// Whether an atom is in the set.
    #[must_use]
    pub fn holds(&self, wanted: Capability) -> (r: bool)
        ensures
            r == self@.contains(wanted),
    {
        let mut index: usize = 0;
        while index < self.atoms.len()
            invariant
                index <= self.atoms.len(),
                forall|i: int| 0 <= i < index ==> self.atoms@[i] != wanted,
            decreases self.atoms.len() - index,
        {
            if self.atoms[index] == wanted {
                assert(self.atoms@.contains(wanted));
                return true;
            }
            index = index + 1;
        }
        false
    }

    fn insert(&mut self, atom: Capability)
        ensures
            final(self)@ == old(self)@.insert(atom),
    {
        if self.holds(atom) {
            assert(self@ =~= self@.insert(atom));
            return;
        }
        let ghost before = self.atoms@;
        self.atoms.push(atom);
        proof {
            assert forall|other: Capability| self.atoms@.contains(other) <==> before.contains(other)
                || other == atom by {
                if before.contains(other) {
                    let i = choose|i: int| 0 <= i < before.len() && before[i] == other;
                    assert(self.atoms@[i] == other);
                }
                assert(self.atoms@[before.len() as int] == atom);
            }
            assert(self@ =~= old(self)@.insert(atom));
        }
    }

    /// The set with one more atom.
    #[must_use]
    pub fn with(self, atom: Capability) -> (set: Self)
        ensures
            set@ == self@.insert(atom),
    {
        let mut set = self;
        set.insert(atom);
        set
    }

    /// The atoms of either set.
    #[must_use]
    pub fn union(&self, other: &Self) -> (set: Self)
        ensures
            set@ == self@.union(other@),
    {
        let mut set = CapabilitySet::of(self.atoms.as_slice());
        assert(set@ =~= self@);
        let mut index: usize = 0;
        assert(set@ =~= self@.union(atom_set(other.atoms@.take(0))));
        while index < other.atoms.len()
            invariant
                index <= other.atoms.len(),
                set@ == self@.union(atom_set(other.atoms@.take(index as int))),
            decreases other.atoms.len() - index,
        {
            set.insert(other.atoms[index]);
            proof {
                let before = other.atoms@.take(index as int);
                let now = other.atoms@.take(index + 1);
                assert(now =~= before.push(other.atoms@[index as int]));
                assert forall|atom: Capability| now.contains(atom) <==> before.contains(atom)
                    || atom == other.atoms@[index as int] by {
                    if before.contains(atom) {
                        let i = choose|i: int| 0 <= i < before.len() && before[i] == atom;
                        assert(now[i] == atom);
                    }
                    assert(now[index as int] == other.atoms@[index as int]);
                }
                assert(set@ =~= self@.union(atom_set(now)));
            }
            index = index + 1;
        }
        assert(other.atoms@.take(index as int) =~= other.atoms@);
        assert(atom_set(other.atoms@) =~= other@);
        set
    }

    /// Whether every atom of this set is in the other.
    #[must_use]
    pub fn is_subset_of(&self, other: &Self) -> (r: bool)
        ensures
            r == self@.subset_of(other@),
    {
        let mut index: usize = 0;
        while index < self.atoms.len()
            invariant
                index <= self.atoms.len(),
                forall|i: int| 0 <= i < index ==> other@.contains(#[trigger] self.atoms@[i]),
            decreases self.atoms.len() - index,
        {
            if !other.holds(self.atoms[index]) {
                proof {
                    let atom = self.atoms@[index as int];
                    assert(self.atoms@.contains(atom));
                    assert(self@.contains(atom));
                }
                return false;
            }
            index = index + 1;
        }
        assert forall|atom: Capability| self@.contains(atom) implies other@.contains(atom) by {
            let i = choose|i: int| 0 <= i < self.atoms@.len() && self.atoms@[i] == atom;
            assert(other@.contains(self.atoms@[i]));
        }
        true
    }

    /// Returns the atoms of the set.
    #[must_use]
    pub fn atoms(&self) -> (atoms: &[Capability])
        ensures
            atom_set(atoms@) == self@,
    {
        assert(atom_set(self.atoms@) =~= self@);
        self.atoms.as_slice()
    }
}

} // verus!
