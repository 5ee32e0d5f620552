use vstd::prelude::*;

use crate::grid::{lemma_pos_key_injective, pos_key, Position};
use crate::sparse_map::SparseMap;

verus! {

/// Tick-scoped claim registry: at most one agent can claim a cell per tick.
/// The caller resets it at every tick boundary.
pub struct ReservationGate {
    claimed: SparseMap<bool>,
}

impl ReservationGate {
    pub closed spec fn wf(self) -> bool {
        self.claimed.inv()
    }

    /// Whether `pos` has been claimed since the last reset.
    pub closed spec fn is_claimed(self, pos: Position) -> bool {
        self.claimed.view().contains_key(pos_key(pos))
    }

    pub fn new() -> (r: ReservationGate)
        ensures
            r.wf(),
            forall|pos: Position| !r.is_claimed(pos),
    {
        ReservationGate { claimed: SparseMap::new() }
    }

    /// Starts the next tick: every claim is dropped.
    pub fn reset(&mut self)
        ensures
            final(self).wf(),
            forall|pos: Position| !final(self).is_claimed(pos),
    {
        self.claimed.clear();
    }

    /// Atomic check-and-set: answers whether `pos` was free, and if it was,
    /// marks it claimed for the rest of the tick in the same step.
    pub fn can_claim(&mut self, pos: Position) -> (r: bool)
        requires
            old(self).wf(),
        ensures
            final(self).wf(),
            r == !old(self).is_claimed(pos),
            final(self).is_claimed(pos),
            forall|q: Position| q != pos ==> final(self).is_claimed(q) == old(self).is_claimed(q),
            !r ==> *final(self) == *old(self),
    {
        let k = pos.key();
        match self.claimed.get(k) {
            Some(_) => false,
            None => {
                self.claimed.insert(k, true);
                proof {
                    assert forall|q: Position| q != pos implies self.is_claimed(q) == old(
                        self,
                    ).is_claimed(q) by {
                        if pos_key(q) == pos_key(pos) {
                            lemma_pos_key_injective(q, pos);
                        }
                    }
                }
                true
            },
        }
    }
}

} // verus!
