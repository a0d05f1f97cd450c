//! Symbols: one per binding occurrence, told apart by a number and carrying
//! the spelling of the binder for diagnostics.

use vstd::prelude::*;

verus! {

/// A symbol. Two symbols denote the same binding occurrence exactly when
/// their `id`s agree; `name` is kept only for diagnostics.
#[derive(Debug)]
pub struct Name {
    pub name: String,
    pub id: u64,
}

/// The mathematical value of a [`Name`].
pub struct NameView {
    pub name: Seq<char>,
    pub id: nat,
}

impl View for Name {
    type V = NameView;

    open spec fn view(&self) -> NameView {
        NameView { name: self.name@, id: self.id as nat }
    }
}

impl Clone for Name {
    fn clone(&self) -> (x: Name)
        ensures
            x == *self,
    {
        Name { name: self.name.clone(), id: self.id }
    }
}

impl Name {
    /// The symbol with spelling `s` and identity `id`.
    pub fn create(s: String, id: u64) -> (x: Name)
        ensures
            x.name == s,
            x.id == id,
            x@ == (NameView { name: s@, id: id as nat }),
    {
        Name { name: s, id }
    }
}

impl PartialEq for Name {
    /// Whether two symbols denote the same binding occurrence.
    fn eq(&self, other: &Name) -> (b: bool) {
        self.id == other.id
    }
}

impl vstd::std_specs::cmp::PartialEqSpecImpl for Name {
    open spec fn obeys_eq_spec() -> bool {
        true
    }

    open spec fn eq_spec(&self, other: &Name) -> bool {
        self.id == other.id
    }
}

impl Eq for Name {}

/// A source of symbols that never hands out the same identity twice.
#[derive(Debug)]
pub struct Supply {
    pub next: u64,
}

impl Supply {
    /// A supply whose first symbol has identity 0.
    pub fn new() -> (s: Supply)
        ensures
            s.next == 0,
    {
        Supply { next: 0 }
    }

    /// A supply whose first symbol has identity `first`.
    pub fn starting_at(first: u64) -> (s: Supply)
        ensures
            s.next == first,
    {
        Supply { next: first }
    }

    /// How many more symbols the supply can hand out.
    pub fn remaining(&self) -> (n: u64)
        ensures
            n == u64::MAX - self.next,
    {
        u64::MAX - self.next
    }

    /// A symbol spelled `s` whose identity no earlier symbol of this supply has.
    pub fn fresh(&mut self, s: String) -> (x: Name)
        requires
            old(self).next < u64::MAX,
        ensures
            x@ == (NameView { name: s@, id: old(self).next as nat }),
            final(self).next == old(self).next + 1,
    {
        let id: u64 = self.next;
        self.next = id + 1;
        Name::create(s, id)
    }
}

} // verus!
