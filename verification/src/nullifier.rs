//! The nullifier registry: an insertion-ordered set of single-use spend
//! identifiers with a configured capacity ceiling. Registering a nullifier
//! is the spend record; a second registration of the same value is the
//! double-spend signal.

use vstd::prelude::*;
use crate::errors::ErrorCode;
use crate::hash::{bytes32_eq, bytes32_seq_view};

verus! {

/// When an insert must succeed: the nullifier is not yet registered and the
/// registry has room.
pub open spec fn insert_accepted(
    registered: Seq<Seq<u8>>,
    capacity: nat,
    nullifier: Seq<u8>,
) -> bool {
    !registered.contains(nullifier) && registered.len() < capacity
}

/// The registry itself: the log of registered nullifiers and its capacity.
pub struct NullifierSet {
    pub nullifiers: Vec<[u8; 32]>,
    pub capacity: u64,
}

impl View for NullifierSet {
    type V = Seq<Seq<u8>>;

    open spec fn view(&self) -> Seq<Seq<u8>> {
        bytes32_seq_view(self.nullifiers@)
    }
}

impl NullifierSet {
    /// No nullifier appears twice, and the log never exceeds the capacity.
    pub open spec fn wf(&self) -> bool {
        &&& forall|i: int, j: int| 0 <= i < j < self@.len() ==> self@[i] != self@[j]
        &&& self@.len() <= self.capacity
    }

    /// An empty registry with the given capacity ceiling.
    pub fn new(capacity: u64) -> (registry: NullifierSet)
        ensures
            registry.wf(),
            registry@ == Seq::<Seq<u8>>::empty(),
            registry.capacity == capacity,
    {
        let registry = NullifierSet { nullifiers: Vec::new(), capacity };
        proof {
            assert(registry@ =~= Seq::<Seq<u8>>::empty());
        }
        registry
    }

    /// Membership test; a pure read with no side effect.
    pub fn contains(&self, nullifier: &[u8; 32]) -> (found: bool)
        ensures
            found == self@.contains(nullifier@),
    {
        let n = self.nullifiers.len();
        let mut i: usize = 0;
        while i < n
            invariant
                i <= n,
                n == self.nullifiers@.len(),
                forall|j: int| 0 <= j < i ==> self@[j] != nullifier@,
            decreases n - i,
        {
            if bytes32_eq(&self.nullifiers[i], nullifier) {
                assert(self@[i as int] == nullifier@);
                return true;
            }
            assert(self@[i as int] == self.nullifiers@[i as int]@);
            i = i + 1;
        }
        assert forall|j: int| 0 <= j < self@.len() implies self@[j] != nullifier@ by {}
        assert(!self@.contains(nullifier@));
        false
    }

    /// Registers a nullifier: rejected as a double spend if already present,
    /// rejected as full at the capacity ceiling, appended otherwise. The
    /// registry is unchanged on every rejection.
    pub fn insert(&mut self, nullifier: [u8; 32]) -> (result: Result<(), ErrorCode>)
        requires
            old(self).wf(),
        ensures
            final(self).wf(),
            final(self).capacity == old(self).capacity,
            (result is Ok) <==> insert_accepted(
                old(self)@,
                old(self).capacity as nat,
                nullifier@,
            ),
            match result {
                Ok(()) => final(self)@ == old(self)@.push(nullifier@),
                Err(e) => {
                    &&& *final(self) == *old(self)
                    &&& (e == ErrorCode::DoubleSpend <==> old(self)@.contains(nullifier@))
                    &&& (e == ErrorCode::RegistryFull <==> !old(self)@.contains(nullifier@)
                        && old(self)@.len() >= old(self).capacity)
                    &&& (e == ErrorCode::DoubleSpend || e == ErrorCode::RegistryFull)
                },
            },
    {
        if self.contains(&nullifier) {
            return Err(ErrorCode::DoubleSpend);
        }
        if self.nullifiers.len() as u64 >= self.capacity {
            return Err(ErrorCode::RegistryFull);
        }
        let ghost before = self@;
        self.nullifiers.push(nullifier);
        proof {
            assert(self@ =~= before.push(nullifier@));
            assert forall|i: int, j: int| 0 <= i < j < self@.len() implies self@[i] != self@[j] by {
                if j == self@.len() - 1 {
                    assert(before[i] == self@[i]);
                    if self@[i] == nullifier@ {
                        assert(before.contains(nullifier@));
                    }
                }
            }
        }
        Ok(())
    }
}

/// Law: once an insert of a nullifier has succeeded, a second insert of the
/// same nullifier into the resulting registry is never accepted again: it is
/// a double spend, whatever room remains. One of two inserts of the same
/// value succeeds, never both.
pub proof fn lemma_replay_rejected(registered: Seq<Seq<u8>>, capacity: nat, nullifier: Seq<u8>)
    requires
        insert_accepted(registered, capacity, nullifier),
    ensures
        registered.push(nullifier).contains(nullifier),
        !insert_accepted(registered.push(nullifier), capacity, nullifier),
{
    assert(registered.push(nullifier)[registered.len() as int] == nullifier);
}

} // verus!
