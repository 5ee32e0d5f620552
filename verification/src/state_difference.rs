use vstd::prelude::*;

use crate::grid::{lemma_pos_key_injective, pos_key, Position, Ship};
use crate::sparse_map::SparseMap;

verus! {

/// A diff to the game state: only the ships and cells that a hypothetical
/// plan changed are recorded. An absent key means "unchanged, defer to
/// ground truth" — never "empty".
pub struct StateDifference {
    ships: SparseMap<Ship>,
    // Fast access for ship_at(): packed position key -> ship id
    ship_pos: SparseMap<u64>,
    // Diff to the real resource grid: packed position key -> amount
    halite: SparseMap<u32>,
}

impl StateDifference {
    /// Changed ships, keyed by their id.
    pub closed spec fn ships_map(self) -> Map<u64, Ship> {
        self.ships.view()
    }

    /// The position index, keyed by `pos_key`.
    pub closed spec fn pos_map(self) -> Map<u64, u64> {
        self.ship_pos.view()
    }

    /// Changed resource amounts, keyed by `pos_key`.
    pub closed spec fn halite_map(self) -> Map<u64, u32> {
        self.halite.view()
    }

    /// The three backing stores keep their distinct-key discipline.
    pub closed spec fn wf(self) -> bool {
        self.ships.inv() && self.ship_pos.inv() && self.halite.inv()
    }

    /// What a point query for a ship id answers.
    pub open spec fn ship_spec(self, id: u64) -> Option<Ship> {
        if self.ships_map().contains_key(id) {
            Some(self.ships_map()[id])
        } else {
            None
        }
    }

    /// What a point query on the position index answers.
    pub open spec fn ship_at_spec(self, pos: Position) -> Option<u64> {
        if self.pos_map().contains_key(pos_key(pos)) {
            Some(self.pos_map()[pos_key(pos)])
        } else {
            None
        }
    }

    /// What a point query on the resource diff answers.
    pub open spec fn halite_spec(self, pos: Position) -> Option<u32> {
        if self.halite_map().contains_key(pos_key(pos)) {
            Some(self.halite_map()[pos_key(pos)])
        } else {
            None
        }
    }

    /// Nothing recorded: indistinguishable from a freshly constructed diff.
    pub open spec fn is_pristine(self) -> bool {
        &&& self.ships_map() == Map::<u64, Ship>::empty()
        &&& self.pos_map() == Map::<u64, u64>::empty()
        &&& self.halite_map() == Map::<u64, u32>::empty()
    }

    /// The entity map and the position index agree: every indexed cell
    /// holds the id of a recorded ship standing there, every recorded ship
    /// is indexed under its own position, and ships are keyed by their id.
    pub open spec fn index_consistent(self) -> bool {
        &&& forall|k: u64| #[trigger] self.pos_map().contains_key(k) ==> {
            let id = self.pos_map()[k];
            &&& self.ships_map().contains_key(id)
            &&& pos_key(self.ships_map()[id].position) == k
        }
        &&& forall|id: u64| #[trigger] self.ships_map().contains_key(id) ==> {
            &&& self.ships_map()[id].id == id
            &&& self.pos_map().contains_key(pos_key(self.ships_map()[id].position))
            &&& self.pos_map()[pos_key(self.ships_map()[id].position)] == id
        }
    }

    pub fn new() -> (r: StateDifference)
        ensures
            r.wf(),
            r.is_pristine(),
            r.index_consistent(),
    {
        StateDifference {
            ships: SparseMap::new(),
            ship_pos: SparseMap::new(),
            halite: SparseMap::new(),
        }
    }

    pub fn ship(&self, id: u64) -> (r: Option<Ship>)
        requires
            self.wf(),
        ensures
            r == self.ship_spec(id),
    {
        self.ships.get(id)
    }

    /// Inserts or overwrites `new` in both the entity map and the position
    /// index. When this overlay already holds an entry for `new.id`, the
    /// caller hands that prior snapshot in, so the stale position mapping is
    /// retracted first; handing in anything else is ruled out up front, as
    /// is writing a ship onto a cell another recorded ship stands on —
    /// either would break the agreement between map and index.
    pub fn set_ship(&mut self, new: Ship, prior: Option<&Ship>)
        requires
            old(self).wf(),
            old(self).index_consistent(),
            match prior {
                Some(p) => old(self).ships_map().contains_key(new.id)
                    && old(self).ships_map()[new.id] == *p,
                None => !old(self).ships_map().contains_key(new.id),
            },
            forall|id2: u64| #[trigger] old(self).ships_map().contains_key(id2) && id2 != new.id
                ==> old(self).ships_map()[id2].position != new.position,
        ensures
            final(self).wf(),
            final(self).index_consistent(),
            final(self).ships_map() == old(self).ships_map().insert(new.id, new),
            final(self).pos_map() == match prior {
                Some(p) => old(self).pos_map().remove(pos_key(p.position)).insert(
                    pos_key(new.position),
                    new.id,
                ),
                None => old(self).pos_map().insert(pos_key(new.position), new.id),
            },
            final(self).halite_map() == old(self).halite_map(),
    {
        if let Some(old_ship) = prior {
            let _ = self.ship_pos.remove(old_ship.position.key());
        }
        self.ship_pos.insert(new.position.key(), new.id);
        self.ships.insert(new.id, new);
        proof {
            lemma_set_ship_consistent(*old(self), *self, new, match prior {
                Some(p) => Some(*p),
                None => None,
            });
        }
    }

    pub fn ship_at(&self, pos: Position) -> (r: Option<u64>)
        requires
            self.wf(),
        ensures
            r == self.ship_at_spec(pos),
    {
        self.ship_pos.get(pos.key())
    }

    pub fn halite(&self, pos: &Position) -> (r: Option<u32>)
        requires
            self.wf(),
        ensures
            r == self.halite_spec(*pos),
    {
        self.halite.get(pos.key())
    }

    pub fn set_halite(&mut self, pos: Position, halite: u32)
        requires
            old(self).wf(),
        ensures
            final(self).wf(),
            final(self).halite_map() == old(self).halite_map().insert(pos_key(pos), halite),
            final(self).ships_map() == old(self).ships_map(),
            final(self).pos_map() == old(self).pos_map(),
            old(self).index_consistent() ==> final(self).index_consistent(),
    {
        self.halite.insert(pos.key(), halite);
    }

    pub fn clear(&mut self)
        ensures
            final(self).wf(),
            final(self).is_pristine(),
            final(self).index_consistent(),
    {
        self.ships.clear();
        self.ship_pos.clear();
        self.halite.clear();
    }

    /// Folds `with`'s entries into `self`, key by key and last-write-wins:
    /// every key present in `with` ends up readable from `self` with
    /// `with`'s value, keys only in `self` are untouched, and `with` is
    /// drained empty.
    pub fn extend(&mut self, with: &mut StateDifference)
        requires
            old(self).wf(),
            old(with).wf(),
        ensures
            final(self).wf(),
            final(with).wf(),
            final(with).is_pristine(),
            final(self).ships_map() == old(self).ships_map().union_prefer_right(
                old(with).ships_map(),
            ),
            final(self).pos_map() == old(self).pos_map().union_prefer_right(old(with).pos_map()),
            final(self).halite_map() == old(self).halite_map().union_prefer_right(
                old(with).halite_map(),
            ),
    {
        drain_into(&mut self.ships, &mut with.ships);
        drain_into(&mut self.ship_pos, &mut with.ship_pos);
        drain_into(&mut self.halite, &mut with.halite);
    }
}

/// Moves every entry of `src` into `dst`, overwriting on equal keys.
fn drain_into<V: Copy>(dst: &mut SparseMap<V>, src: &mut SparseMap<V>)
    requires
        old(dst).inv(),
        old(src).inv(),
    ensures
        final(dst).inv(),
        final(src).inv(),
        final(dst).view() == old(dst).view().union_prefer_right(old(src).view()),
        final(src).view() == Map::<u64, V>::empty(),
{
    loop
        invariant
            dst.inv(),
            src.inv(),
            dst.view().union_prefer_right(src.view()) == old(dst).view().union_prefer_right(
                old(src).view(),
            ),
        decreases src.size(),
    {
        match src.pop_entry() {
            Some(e) => {
                let ghost pre_dst = dst.view();
                let ghost pre_src = src.view().insert(e.0, e.1);
                dst.insert(e.0, e.1);
                proof {
                    assert(dst.view().union_prefer_right(src.view()) =~= pre_dst.union_prefer_right(
                        pre_src,
                    ));
                    assert(pre_src =~= src.view().insert(e.0, e.1));
                }
            },
            None => {
                proof {
                    assert(dst.view().union_prefer_right(src.view()) =~= dst.view());
                }
                return ;
            },
        }
    }
}

/// `set_ship` keeps the entity map and the position index in agreement.
proof fn lemma_set_ship_consistent(
    pre: StateDifference,
    post: StateDifference,
    new: Ship,
    prior: Option<Ship>,
)
    requires
        pre.index_consistent(),
        match prior {
            Some(p) => pre.ships_map().contains_key(new.id) && pre.ships_map()[new.id] == p,
            None => !pre.ships_map().contains_key(new.id),
        },
        forall|id2: u64| #[trigger] pre.ships_map().contains_key(id2) && id2 != new.id
            ==> pre.ships_map()[id2].position != new.position,
        post.ships_map() == pre.ships_map().insert(new.id, new),
        post.pos_map() == match prior {
            Some(p) => pre.pos_map().remove(pos_key(p.position)).insert(
                pos_key(new.position),
                new.id,
            ),
            None => pre.pos_map().insert(pos_key(new.position), new.id),
        },
    ensures
        post.index_consistent(),
{
    assert forall|k: u64| #[trigger] post.pos_map().contains_key(k) implies {
        let id = post.pos_map()[k];
        &&& post.ships_map().contains_key(id)
        &&& pos_key(post.ships_map()[id].position) == k
    } by {
        if k == pos_key(new.position) {
            assert(post.pos_map()[k] == new.id);
            assert(post.ships_map()[new.id] == new);
        } else {
            let id = pre.pos_map()[k];
            assert(pre.pos_map().contains_key(k));
            assert(pre.ships_map().contains_key(id));
            assert(pos_key(pre.ships_map()[id].position) == k);
            if id == new.id {
                match prior {
                    Some(p) => {
                        assert(pre.ships_map()[new.id] == p);
                        assert(pos_key(p.position) == k);
                        assert(!post.pos_map().contains_key(k));
                    },
                    None => {
                        assert(false);
                    },
                }
            } else {
                assert(post.ships_map()[id] == pre.ships_map()[id]);
            }
        }
    }
    assert forall|id: u64| #[trigger] post.ships_map().contains_key(id) implies {
        &&& post.ships_map()[id].id == id
        &&& post.pos_map().contains_key(pos_key(post.ships_map()[id].position))
        &&& post.pos_map()[pos_key(post.ships_map()[id].position)] == id
    } by {
        if id == new.id {
            assert(post.ships_map()[id] == new);
            assert(post.pos_map().contains_key(pos_key(new.position)));
        } else {
            assert(pre.ships_map().contains_key(id));
            let s = pre.ships_map()[id];
            assert(post.ships_map()[id] == s);
            assert(s.id == id);
            assert(pre.pos_map().contains_key(pos_key(s.position)));
            assert(pre.pos_map()[pos_key(s.position)] == id);
            if pos_key(s.position) == pos_key(new.position) {
                lemma_pos_key_injective(s.position, new.position);
                assert(s.position == new.position);
                assert(false);
            }
            match prior {
                Some(p) => {
                    if pos_key(s.position) == pos_key(p.position) {
                        assert(pre.pos_map()[pos_key(p.position)] == id);
                        assert(pre.ships_map().contains_key(new.id));
                        assert(pos_key(pre.ships_map()[new.id].position) == pos_key(p.position));
                        assert(pre.pos_map()[pos_key(p.position)] == new.id);
                        assert(false);
                    }
                },
                None => {},
            }
        }
    }
}

/// One overlay and one sequence of point writes: a cell is indexed with an
/// id exactly when the ship stored under that id stands on the cell.
pub proof fn lemma_index_entity_agreement(s: StateDifference, pos: Position, id: u64)
    requires
        s.index_consistent(),
    ensures
        s.ship_at_spec(pos) == Some(id) <==> (s.ships_map().contains_key(id)
            && s.ships_map()[id].position == pos),
{
    if s.ship_at_spec(pos) == Some(id) {
        assert(s.pos_map().contains_key(pos_key(pos)));
        assert(s.pos_map()[pos_key(pos)] == id);
        assert(pos_key(s.ships_map()[id].position) == pos_key(pos));
        lemma_pos_key_injective(s.ships_map()[id].position, pos);
    }
}

/// After a clear, every point query answers `None`.
pub proof fn lemma_cleared_lookups(s: StateDifference, id: u64, pos: Position)
    requires
        s.is_pristine(),
    ensures
        s.ship_spec(id) is None,
        s.ship_at_spec(pos) is None,
        s.halite_spec(pos) is None,
{
}

/// Merge overwrite law: after `a.extend(&mut b)` the result reads every key
/// of `b` with `b`'s value, and every key absent from `b` as `a` read it.
pub proof fn lemma_merge_overwrite(pre: StateDifference, other: StateDifference, post: StateDifference, id: u64, pos: Position)
    requires
        post.ships_map() == pre.ships_map().union_prefer_right(other.ships_map()),
        post.pos_map() == pre.pos_map().union_prefer_right(other.pos_map()),
        post.halite_map() == pre.halite_map().union_prefer_right(other.halite_map()),
    ensures
        other.ship_spec(id) is Some ==> post.ship_spec(id) == other.ship_spec(id),
        other.ship_spec(id) is None ==> post.ship_spec(id) == pre.ship_spec(id),
        other.ship_at_spec(pos) is Some ==> post.ship_at_spec(pos) == other.ship_at_spec(pos),
        other.ship_at_spec(pos) is None ==> post.ship_at_spec(pos) == pre.ship_at_spec(pos),
        other.halite_spec(pos) is Some ==> post.halite_spec(pos) == other.halite_spec(pos),
        other.halite_spec(pos) is None ==> post.halite_spec(pos) == pre.halite_spec(pos),
{
}

/// Two pristine overlays cannot be told apart by any point query: a pooled
/// and reacquired overlay reads as a freshly constructed one.
pub proof fn lemma_pristine_indistinguishable(a: StateDifference, b: StateDifference)
    requires
        a.is_pristine(),
        b.is_pristine(),
    ensures
        forall|id: u64| a.ship_spec(id) == b.ship_spec(id),
        forall|pos: Position| a.ship_at_spec(pos) == b.ship_at_spec(pos),
        forall|pos: Position| a.halite_spec(pos) == b.halite_spec(pos),
{
}

/// A reusable free list of cleared overlays, owned by the planning session
/// and handed around explicitly; it avoids repeated allocation during
/// high-frequency planning. It never shrinks below zero and never caps its
/// size.
pub struct OverlayPool {
    free: Vec<StateDifference>,
}

impl OverlayPool {
    /// Every pooled overlay is cleared and well formed.
    pub closed spec fn wf(self) -> bool {
        forall|i: int| 0 <= i < self.free@.len() ==> (#[trigger] self.free@[i]).wf()
            && self.free@[i].is_pristine()
    }

    /// How many cleared overlays are pooled for reuse.
    pub closed spec fn pooled(self) -> nat {
        self.free@.len()
    }

    pub fn new() -> (r: OverlayPool)
        ensures
            r.wf(),
            r.pooled() == 0,
    {
        OverlayPool { free: Vec::new() }
    }

    /// Pops a pooled overlay if one is there, else allocates a fresh one;
    /// either way the result reads as freshly constructed.
    pub fn acquire(&mut self) -> (r: StateDifference)
        requires
            old(self).wf(),
        ensures
            final(self).wf(),
            final(self).pooled() == if old(self).pooled() > 0 {
                (old(self).pooled() - 1) as nat
            } else {
                0
            },
            r.wf(),
            r.is_pristine(),
            r.index_consistent(),
    {
        match self.free.pop() {
            Some(d) => d,
            None => StateDifference::new(),
        }
    }

    /// Clears the overlay and puts it back for reuse.
    pub fn release(&mut self, overlay: StateDifference)
        requires
            old(self).wf(),
        ensures
            final(self).wf(),
            final(self).pooled() == old(self).pooled() + 1,
    {
        let mut overlay = overlay;
        overlay.clear();
        self.free.push(overlay);
    }
}

} // verus!
