//! Identifiers of players and the counter that issues them.

use vstd::prelude::*;

verus! {

/// Handle of a player, unique within the world whose authority issued it.
#[derive(Clone, Copy, Debug, PartialEq, Eq, Hash, Structural)]
pub struct Id(usize);

impl Id {
    /// The number behind the handle.
    pub closed spec fn spec_raw(&self) -> usize {
        self.0
    }

    /// The handle with the given number behind it.
    pub closed spec fn spec_from_raw(raw: usize) -> Id {
        Id(raw)
    }

    /// The number behind the handle.
    #[verifier::when_used_as_spec(spec_raw)]
    pub fn raw(&self) -> (r: usize)
        ensures
            r == self.spec_raw(),
    {
        self.0
    }

    /// Rebuilds the handle that travelled as the number `raw`.
    #[verifier::when_used_as_spec(spec_from_raw)]
    pub fn from_raw(raw: usize) -> (id: Id)
        ensures
            id == Id::spec_from_raw(raw),
            id.spec_raw() == raw,
    {
        Id(raw)
    }

    /// A handle is its number: the number of a rebuilt handle is the number
    /// it was built from, and rebuilding from a handle's number gives that
    /// handle back.
    pub proof fn lemma_raw_roundtrip(id: Id, raw: usize)
        ensures
            Id::spec_from_raw(raw).spec_raw() == raw,
            Id::spec_from_raw(id.spec_raw()) == id,
    {
    }
}

/// Source of fresh identifiers. A world has exactly one.
#[derive(Debug)]
pub struct IdGen {
    next_id: usize,
}

impl Clone for IdGen {
    /// A counter that goes on where this one stands. Two counters that both
    /// issue identifiers for one world issue the same ones: a copy is for a
    /// snapshot of the world, not for a second authority.
    fn clone(&self) -> (copy: IdGen)
        ensures
            copy.next() == self.next(),
    {
        IdGen { next_id: self.next_id }
    }
}

impl IdGen {
    /// The number of the identifier that is issued next. Every identifier
    /// issued so far has a smaller number.
    pub closed spec fn next(&self) -> usize {
        self.next_id
    }

    /// Whether the counter has run out of numbers.
    pub open spec fn is_exhausted(&self) -> bool {
        self.next() == usize::MAX
    }

    /// The identifiers that `n` calls of `gen` issue, in order.
    pub open spec fn issued(&self, n: nat) -> Seq<Id> {
        Seq::new(n, |i: int| Id::spec_from_raw((self.next() + i) as usize))
    }

    /// A counter that has issued nothing.
    pub fn new() -> (g: IdGen)
        ensures
            g.next() == 0,
    {
        IdGen { next_id: 0 }
    }

    /// A counter that goes on from `next`.
    pub fn resume(next: usize) -> (g: IdGen)
        ensures
            g.next() == next,
    {
        IdGen { next_id: next }
    }

    /// The number of the identifier that is issued next.
    pub fn peek(&self) -> (r: usize)
        ensures
            r == self.next(),
    {
        self.next_id
    }

    /// Tests whether the counter has run out of numbers.
    pub fn exhausted(&self) -> (r: bool)
        ensures
            r == self.is_exhausted(),
    {
        self.next_id == usize::MAX
    }

    /// Issues the next identifier and steps the counter.
    pub fn gen(&mut self) -> (id: Id)
        requires
            !old(self).is_exhausted(),
        ensures
            id == Id::spec_from_raw(old(self).next()),
            id.spec_raw() == old(self).next(),
            final(self).next() == old(self).next() + 1,
    {
        let id = Id(self.next_id);
        self.next_id += 1;
        id
    }

    /// Identifiers issued one after another are strictly increasing, and
    /// therefore pairwise distinct.
    pub proof fn lemma_issued_increase(&self, n: nat)
        requires
            self.next() + n <= usize::MAX,
        ensures
            self.issued(n).len() == n,
            forall|i: int, j: int|
                0 <= i < j < n ==> (#[trigger] self.issued(n)[i]).spec_raw() < (
                #[trigger] self.issued(n)[j]).spec_raw(),
            forall|i: int, j: int|
                0 <= i < n && 0 <= j < n && i != j ==> #[trigger] self.issued(n)[i]
                    != #[trigger] self.issued(n)[j],
    {
    }

    /// Issuing `n + 1` identifiers issues `n` of them, then what `gen`
    /// returns on the counter as it then stands.
    pub proof fn lemma_issued_step(&self, n: nat)
        requires
            self.next() + n < usize::MAX,
        ensures
            self.issued(n + 1) == self.issued(n).push(
                Id::spec_from_raw((self.next() + n) as usize),
            ),
    {
        assert(self.issued(n + 1) =~= self.issued(n).push(
            Id::spec_from_raw((self.next() + n) as usize),
        ));
    }
}

} // verus!
