use vstd::prelude::*;

use crate::grid::{invert_spec, offset_spec, Command, Direction, Position, Ship};
use crate::reservation::ReservationGate;

verus! {

/// Lower bound (inclusive) on the steps of a regular plan.
pub const MIN_STEPS: i32 = 11;

/// Upper bound (exclusive) on the steps of a regular plan.
pub const MAX_STEPS: i32 = 13;

/// Lower bound (inclusive) on the steps of an escape plan.
pub const ESCAPE_MIN: i32 = 2;

/// Upper bound (exclusive) on the steps of an escape plan.
pub const ESCAPE_MAX: i32 = 4;

/// Consecutive rejected moves that trigger the escape plan.
pub const STALL_THRESHOLD: u32 = 3;

/// Controller failures that escape to the caller.
#[derive(Clone, Copy, PartialEq, Eq, Structural, Debug)]
pub enum BotError {
    /// The ship with the carried id no longer exists in ground truth.
    MissingEntity(u64),
}

/// Relies on rand::random::<bool>: one draw from the thread-local
/// generator. Either outcome is possible, so nothing is promised of it.
#[verifier::external_body]
fn coin_flip() -> bool {
    rand::random::<bool>()
}

/// Relies on rand::random_range: a draw from the non-empty range
/// `lo..hi`; its documentation promises a value of that range.
#[verifier::external_body]
fn random_in_range(lo: i32, hi: i32) -> (r: i32)
    requires
        lo < hi,
    ensures
        lo <= r < hi,
{
    rand::random_range(lo..hi)
}

pub open spec fn is_vertical(d: Direction) -> bool {
    d == Direction::North || d == Direction::South
}

pub open spec fn is_horizontal(d: Direction) -> bool {
    d == Direction::East || d == Direction::West
}

/// The step a flip picks: the vertical axis on `true`, else the horizontal.
pub open spec fn step_dir(v: Direction, h: Direction, f: bool) -> Direction {
    if f {
        v
    } else {
        h
    }
}

/// The outward half of a detour: each step, then two waits.
pub open spec fn outward_legs(v: Direction, h: Direction, flips: Seq<bool>) -> Seq<Direction>
    decreases flips.len(),
{
    if flips.len() == 0 {
        Seq::empty()
    } else {
        outward_legs(v, h, flips.drop_last()) + seq![
            step_dir(v, h, flips.last()),
            Direction::Still,
            Direction::Still,
        ]
    }
}

/// The homeward half: the steps undone in reverse order, a wait after each.
pub open spec fn return_legs(v: Direction, h: Direction, flips: Seq<bool>) -> Seq<Direction>
    decreases flips.len(),
{
    if flips.len() == 0 {
        Seq::empty()
    } else {
        seq![invert_spec(step_dir(v, h, flips.last())), Direction::Still] + return_legs(
            v,
            h,
            flips.drop_last(),
        )
    }
}

/// A full randomized detour: out along one quadrant, then back.
pub open spec fn detour_queue(v: Direction, h: Direction, flips: Seq<bool>) -> Seq<Direction> {
    outward_legs(v, h, flips) + return_legs(v, h, flips)
}

/// A queue as the randomized planner loads it, with between `min`
/// (inclusive) and `max` (exclusive) steps.
pub open spec fn is_fresh_plan(q: Seq<Direction>, min: int, max: int) -> bool {
    exists|v: Direction, h: Direction, flips: Seq<bool>|
        is_vertical(v) && is_horizontal(h) && min <= flips.len() < max && q == detour_queue(
            v,
            h,
            flips,
        )
}

proof fn lemma_outward_len(v: Direction, h: Direction, flips: Seq<bool>)
    ensures
        outward_legs(v, h, flips).len() == 3 * flips.len(),
    decreases flips.len(),
{
    if flips.len() > 0 {
        lemma_outward_len(v, h, flips.drop_last());
    }
}

proof fn lemma_return_len(v: Direction, h: Direction, flips: Seq<bool>)
    ensures
        return_legs(v, h, flips).len() == 2 * flips.len(),
    decreases flips.len(),
{
    if flips.len() > 0 {
        lemma_return_len(v, h, flips.drop_last());
    }
}

/// A detour holds five queue entries per step.
pub proof fn lemma_detour_len(v: Direction, h: Direction, flips: Seq<bool>)
    ensures
        detour_queue(v, h, flips).len() == 5 * flips.len(),
{
    lemma_outward_len(v, h, flips);
    lemma_return_len(v, h, flips);
}

/// A freshly loaded plan has five entries per step, so it is never empty.
pub proof fn lemma_fresh_plan_len(q: Seq<Direction>, min: int, max: int)
    requires
        is_fresh_plan(q, min, max),
        0 <= min,
    ensures
        5 * min <= q.len() < 5 * max,
{
    let (v, h, flips) = choose|v: Direction, h: Direction, flips: Seq<bool>|
        is_vertical(v) && is_horizontal(h) && min <= flips.len() < max && q == detour_queue(
            v,
            h,
            flips,
        );
    lemma_detour_len(v, h, flips);
}

/// A per-ship planner with a queue of intended moves for the next few
/// ticks, processed last-in-first-out, and a counter of consecutive
/// rejected moves.
pub struct ShipBot {
    pub ship_id: u64,
    movement_queue: Vec<Direction>,
    not_moved: u32,
}

/// What one accepted tick did, given `q0`, the queue as it stood right
/// after plan loading: the popped instruction was emitted when its target
/// could be claimed (a wait needs no claim), and an accepted move breaks
/// the run of consecutive rejections, so it resets the stall counter. A
/// rejected instruction was pushed back for retry, counting the stall — or,
/// at the stall threshold, the whole queue was replaced by an escape plan.
pub open spec fn tick_outcome(
    pre: ShipBot,
    post: ShipBot,
    gate_pre: ReservationGate,
    gate_post: ReservationGate,
    s: Ship,
    q0: Seq<Direction>,
    r: Result<Command, BotError>,
) -> bool {
    &&& q0.len() > 0
    &&& {
        let d = q0.last();
        let rest = q0.drop_last();
        if d == Direction::Still {
            &&& r == Ok::<Command, BotError>(
                Command { ship_id: s.id, direction: Direction::Still },
            )
            &&& post.queue() == rest
            &&& post.stall_count() == pre.stall_count()
            &&& gate_post == gate_pre
        } else {
            let target = offset_spec(s.position, d);
            if !gate_pre.is_claimed(target) {
                &&& r == Ok::<Command, BotError>(Command { ship_id: s.id, direction: d })
                &&& post.queue() == rest
                &&& post.stall_count() == 0
                &&& gate_post.is_claimed(target)
                &&& forall|q: Position| q != target ==> gate_post.is_claimed(q)
                    == gate_pre.is_claimed(q)
            } else {
                &&& r == Ok::<Command, BotError>(
                    Command { ship_id: s.id, direction: Direction::Still },
                )
                &&& gate_post == gate_pre
                &&& if pre.stall_count() + 1 >= STALL_THRESHOLD {
                    &&& post.stall_count() == 0
                    &&& is_fresh_plan(post.queue(), ESCAPE_MIN as int, ESCAPE_MAX as int)
                } else {
                    &&& post.stall_count() == pre.stall_count() + 1
                    &&& post.queue() == q0
                }
            }
        }
    }
}

impl ShipBot {
    /// The pending instructions; the next one to run stands last.
    pub closed spec fn queue(self) -> Seq<Direction> {
        self.movement_queue@
    }

    /// Consecutive ticks whose intended move was rejected.
    pub closed spec fn stall_count(self) -> u32 {
        self.not_moved
    }

    /// The controlled ship's id.
    pub closed spec fn id(self) -> u64 {
        self.ship_id
    }

    pub fn generate(ship_id: u64) -> (r: ShipBot)
        ensures
            r.id() == ship_id,
            r.queue() == Seq::<Direction>::empty(),
            r.stall_count() == 0,
    {
        ShipBot { ship_id, movement_queue: Vec::new(), not_moved: 0 }
    }

    pub fn stalls(&self) -> (r: u32)
        ensures
            r == self.stall_count(),
    {
        self.not_moved
    }

    pub fn queue_len(&self) -> (r: usize)
        ensures
            r == self.queue().len(),
    {
        self.movement_queue.len()
    }

    /// Appends a randomized detour of `min_steps` to `max_steps - 1` steps:
    /// one quadrant only, so the random walk cannot cancel itself out.
    fn queue_random_movement(&mut self, min_steps: i32, max_steps: i32)
        requires
            0 <= min_steps < max_steps,
        ensures
            final(self).id() == old(self).id(),
            final(self).stall_count() == old(self).stall_count(),
            exists|v: Direction, h: Direction, flips: Seq<bool>|
                is_vertical(v) && is_horizontal(h) && min_steps as int <= flips.len() < max_steps
                    as int && final(self).queue() == old(self).queue() + detour_queue(v, h, flips),
    {
        let vertical_direction = if coin_flip() {
            Direction::North
        } else {
            Direction::South
        };
        let horizontal_direction = if coin_flip() {
            Direction::East
        } else {
            Direction::West
        };
        let num_steps = random_in_range(min_steps, max_steps);

        let mut directions: Vec<Direction> = Vec::new();
        let ghost mut flips: Seq<bool> = Seq::empty();
        let mut i: i32 = 0;
        while i < num_steps
            invariant
                0 <= i <= num_steps,
                flips.len() == i as int,
                directions@.len() == i as int,
                forall|j: int| 0 <= j < i as int ==> directions@[j] == step_dir(
                    vertical_direction,
                    horizontal_direction,
                    flips[j],
                ),
            decreases num_steps - i,
        {
            // Either go vertically or horizontally.
            if coin_flip() {
                directions.push(vertical_direction);
                proof {
                    flips = flips.push(true);
                }
            } else {
                directions.push(horizontal_direction);
                proof {
                    flips = flips.push(false);
                }
            }
            i = i + 1;
        }

        let ghost v = vertical_direction;
        let ghost h = horizontal_direction;
        let ghost q_start = self.movement_queue@;
        let n = directions.len();

        // Out first, collecting on the way.
        let mut idx: usize = 0;
        while idx < n
            invariant
                idx <= n,
                n == directions@.len(),
                flips.len() == n as int,
                forall|j: int| 0 <= j < n as int ==> directions@[j] == step_dir(v, h, flips[j]),
                self.movement_queue@ == q_start + outward_legs(v, h, flips.take(idx as int)),
                self.ship_id == old(self).ship_id,
                self.not_moved == old(self).not_moved,
            decreases n - idx,
        {
            proof {
                assert(flips.take(idx as int + 1).drop_last() =~= flips.take(idx as int));
                assert(flips.take(idx as int + 1).last() == flips[idx as int]);
            }
            self.movement_queue.push(directions[idx]);
            self.movement_queue.push(Direction::Still);
            self.movement_queue.push(Direction::Still);
            proof {
                assert(self.movement_queue@ =~= q_start + outward_legs(
                    v,
                    h,
                    flips.take(idx as int + 1),
                ));
            }
            idx = idx + 1;
        }
        proof {
            assert(flips.take(n as int) =~= flips);
        }

        // And now backwards.
        let mut j: usize = 0;
        while j < n
            invariant
                j <= n,
                n == directions@.len(),
                flips.len() == n as int,
                forall|jj: int| 0 <= jj < n as int ==> directions@[jj] == step_dir(v, h, flips[jj]),
                self.movement_queue@ + return_legs(v, h, flips.take(n as int - j as int)) == q_start
                    + outward_legs(v, h, flips) + return_legs(v, h, flips),
                self.ship_id == old(self).ship_id,
                self.not_moved == old(self).not_moved,
            decreases n - j,
        {
            let ghost m = n as int - j as int;
            proof {
                assert(flips.take(m).drop_last() =~= flips.take(m - 1));
                assert(flips.take(m).last() == flips[m - 1]);
            }
            let ghost q_pre = self.movement_queue@;
            let d = directions[n - 1 - j];
            self.movement_queue.push(d.invert_direction());
            self.movement_queue.push(Direction::Still);
            proof {
                assert(return_legs(v, h, flips.take(m)) == seq![
                    invert_spec(step_dir(v, h, flips[m - 1])),
                    Direction::Still,
                ] + return_legs(v, h, flips.take(m - 1)));
                assert(self.movement_queue@ + return_legs(v, h, flips.take(m - 1)) =~= q_pre
                    + return_legs(v, h, flips.take(m)));
            }
            j = j + 1;
        }
        proof {
            assert(flips.take(0) =~= Seq::<bool>::empty());
            assert(self.movement_queue@ + return_legs(v, h, flips.take(0)) =~= self.movement_queue@);
            assert(self.movement_queue@ =~= q_start + detour_queue(v, h, flips));
            assert(min_steps as int <= flips.len() < max_steps as int);
        }
    }

    /// Loads a regular randomized plan.
    fn calculate_ai(&mut self)
        ensures
            final(self).id() == old(self).id(),
            final(self).stall_count() == old(self).stall_count(),
            exists|v: Direction, h: Direction, flips: Seq<bool>|
                is_vertical(v) && is_horizontal(h) && MIN_STEPS as int <= flips.len() < MAX_STEPS
                    as int && final(self).queue() == old(self).queue() + detour_queue(v, h, flips),
    {
        self.queue_random_movement(MIN_STEPS, MAX_STEPS)
    }

    /// Runs one tick: pops a queued instruction (planning first when the
    /// queue is empty), asks the reservation gate before any real move, and
    /// falls back to staying still on a conflict. Returns `MissingEntity`,
    /// touching nothing, when the ship is gone from ground truth.
    pub fn next_frame(&mut self, hlt_ship: Option<&Ship>, ex_map: &mut ReservationGate) -> (r:
        Result<Command, BotError>)
        requires
            old(ex_map).wf(),
            old(self).stall_count() < STALL_THRESHOLD,
            match hlt_ship {
                Some(s) => s.id == old(self).id() && i32::MIN < s.position.x < i32::MAX
                    && i32::MIN < s.position.y < i32::MAX,
                None => true,
            },
        ensures
            final(ex_map).wf(),
            final(self).id() == old(self).id(),
            final(self).stall_count() < STALL_THRESHOLD,
            hlt_ship is None ==> r == Err::<Command, BotError>(
                BotError::MissingEntity(old(self).id()),
            ) && *final(self) == *old(self) && *final(ex_map) == *old(ex_map),
            hlt_ship matches Some(s) ==> exists|q0: Seq<Direction>|
                (if old(self).queue().len() == 0 {
                    is_fresh_plan(q0, MIN_STEPS as int, MAX_STEPS as int)
                } else {
                    q0 == old(self).queue()
                }) && #[trigger] tick_outcome(
                    *old(self),
                    *final(self),
                    *old(ex_map),
                    *final(ex_map),
                    *s,
                    q0,
                    r,
                ),
    {
        // First, find out if the ship still exists.
        let hlt_ship = match hlt_ship {
            Some(ship) => ship,
            None => {
                return Err(BotError::MissingEntity(self.ship_id));
            },
        };

        if self.movement_queue.len() == 0 {
            self.calculate_ai();
        }
        let ghost q0 = self.movement_queue@;
        proof {
            if old(self).queue().len() == 0 {
                let (v, h, flips) = choose|v: Direction, h: Direction, flips: Seq<bool>|
                    is_vertical(v) && is_horizontal(h) && MIN_STEPS as int <= flips.len()
                        < MAX_STEPS as int && q0 == old(self).queue() + detour_queue(v, h, flips);
                assert(q0 =~= detour_queue(v, h, flips));
                assert(is_fresh_plan(q0, MIN_STEPS as int, MAX_STEPS as int));
                lemma_fresh_plan_len(q0, MIN_STEPS as int, MAX_STEPS as int);
            }
            assert(q0.len() > 0);
        }

        // Pop one action per round; stay still if the move would collide.
        let mut retry: Option<Direction> = None;
        let command = match self.movement_queue.pop() {
            Some(direction) => {
                if direction == Direction::Still {
                    hlt_ship.stay_still()
                } else if ex_map.can_claim(hlt_ship.position.directional_offset(direction)) {
                    // An accepted move breaks the run of consecutive
                    // rejections.
                    self.not_moved = 0;
                    hlt_ship.move_ship(direction)
                } else {
                    retry = Some(direction);
                    self.not_moved = self.not_moved + 1;
                    hlt_ship.stay_still()
                }
            },
            None => {
                // Fail-safe: the planner handed nothing back; stay still.
                hlt_ship.stay_still()
            },
        };
        // If movement failed, try it next turn.
        match retry {
            Some(dir) => {
                self.movement_queue.push(dir);
                proof {
                    assert(self.movement_queue@ =~= q0);
                }
            },
            None => {},
        }

        // If not moved for too long, replace the plan with an escape detour.
        if self.not_moved >= STALL_THRESHOLD {
            self.not_moved = 0;
            self.movement_queue.clear();
            self.queue_random_movement(ESCAPE_MIN, ESCAPE_MAX);
            proof {
                let (v, h, flips) = choose|v: Direction, h: Direction, flips: Seq<bool>|
                    is_vertical(v) && is_horizontal(h) && ESCAPE_MIN as int <= flips.len()
                        < ESCAPE_MAX as int && self.queue() == Seq::<Direction>::empty()
                        + detour_queue(v, h, flips);
                assert(self.queue() =~= detour_queue(v, h, flips));
                assert(is_fresh_plan(self.queue(), ESCAPE_MIN as int, ESCAPE_MAX as int));
            }
        }

        proof {
            assert(tick_outcome(*old(self), *self, *old(ex_map), *ex_map, *hlt_ship, q0, Ok(
                command,
            )));
        }
        Ok(command)
    }
}

} // verus!
