//! Authoritative game state: unit attributes, the task queue manager and
//! the completion scheduler, with the invariants that tie them together.

use crate::engine::EngineError;
use crate::model::{
    Health, OrientedPoint, PlayerId, SequenceNumber, SimulatedId, Speed, TimeStamp, UnitId,
    UnitDisplayType,
};
use crate::perspective::{self, PerspectiveUpdates, PlayersGamePerspective};
use crate::scheduler::{self, Scheduler};
use crate::event::{AddressedEvent, PublishEvent, TasksUpdatedEvent};
use crate::model::{Animatable, AnimationSegment, Point, Task};
use crate::tasks::{SimulatedTask, TaskManager, TaskProgress, TaskTransition, UnitTasks};
use std::collections::HashMap;
use vstd::prelude::*;

verus! {

broadcast use vstd::std_specs::hash::group_hash_axioms;

/// A single stationary segment parking a unit at `p` from time `t` on.
pub open spec fn stationary_segment(p: OrientedPoint, t: TimeStamp) -> AnimationSegment {
    AnimationSegment {
        begin_time: t,
        begin_location: p.point,
        delta: None,
        begin_orientation: p.orientation,
        d_orientation: None,
    }
}

/// The destination a move task names.
pub open spec fn task_dest(t: Task) -> Point {
    match t {
        Task::MoveTo(d) => d,
        Task::Transfer(_) => Point { x: 0, y: 0 },
    }
}

/// The location a transition leaves the unit with: anchored to the new head
/// move, parked at the destination a completed move reached, or parked at
/// the caller-supplied position; absent when none of the three applies.
pub open spec fn transition_location(t: TaskTransition, location: Option<OrientedPoint>) -> Option<
    UnitLocation,
> {
    if (match t.to {
        Some((task, _)) => task is MoveTo,
        None => false,
    }) {
        Some(UnitLocation::ByMoveTask((t.to->Some_0).1.sim_id()))
    } else if (match t.from {
        Some((task, _, completed)) => completed && task is MoveTo,
        None => false,
    }) {
        Some(
            UnitLocation::Fixed(
                OrientedPoint { point: task_dest((t.from->Some_0).0), orientation: 0 },
            ),
        )
    } else {
        match location {
            Some(l) => Some(UnitLocation::Fixed(l)),
            None => None,
        }
    }
}

/// Where a unit is: parked at a fixed oriented point, or moving along its
/// current simulated task.
#[derive(Clone, Copy, Debug)]
pub enum UnitLocation {
    ByMoveTask(SimulatedId),
    Fixed(OrientedPoint),
}

/// Template a new unit is created from.
#[derive(Clone, Copy, Debug)]
pub struct UnitTemplate {
    pub health: Option<Health>,
    pub speed: Option<Speed>,
    pub display_type: Option<UnitDisplayType>,
}

impl Default for UnitTemplate {
    /// The default unit: full health, one meter per second, simple display.
    fn default() -> (r: Self)
        ensures
            r.health == Some(Health { current: 100u32, max: 100u32 }),
            r.speed == Some(1000u64),
            r.display_type == Some(UnitDisplayType::SimpleUnit),
    {
        UnitTemplate {
            health: Some(Health { current: 100, max: 100 }),
            speed: Some(1000),
            display_type: Some(UnitDisplayType::SimpleUnit),
        }
    }
}

/// Reserved per-unit cache record.
#[derive(Clone, Copy, Debug)]
pub struct UnitCache {
    pub unit_id: UnitId,
}

/// The single owner of all mutable game state.
pub struct GameState {
    pub next_id: u64,
    pub begin_time: TimeStamp,
    pub last_time: TimeStamp,
    pub last_wall_ms: TimeStamp,
    pub health: HashMap<UnitId, Health>,
    pub speeds: HashMap<UnitId, Speed>,
    pub owners: HashMap<UnitId, PlayerId>,
    pub locations: HashMap<UnitId, UnitLocation>,
    pub unit_display_types: HashMap<UnitId, UnitDisplayType>,
    pub tasks: TaskManager,
    pub in_progress: Scheduler,
    pub perspectives: HashMap<PlayerId, PlayersGamePerspective>,
    /// Known units, in creation order; the deterministic iteration order of
    /// every broadcast pass.
    pub units: Vec<UnitId>,
    /// Subscribed players, in join order.
    pub players: Vec<PlayerId>,
}

impl GameState {
    /// The unit list is duplicate-free and mirrors the keyed tables: every
    /// listed unit is registered everywhere it must be, and no table knows
    /// a unit that is not listed.
    pub open spec fn units_ok(self) -> bool {
        &&& (forall|i: int, j: int|
            0 <= i < j < self.units@.len() ==> (#[trigger] self.units@[i]) != (
            #[trigger] self.units@[j]))
        &&& (forall|i: int|
            0 <= i < self.units@.len() ==> {
                let u = #[trigger] self.units@[i];
                &&& self.tasks.unit_tasks@.contains_key(u)
                &&& self.locations@.contains_key(u)
                &&& self.owners@.contains_key(u)
                &&& self.speeds@.contains_key(u)
                &&& self.unit_display_types@.contains_key(u)
            })
        &&& (forall|u: UnitId|
            #[trigger] self.tasks.unit_tasks@.contains_key(u) ==> self.units@.contains(u))
        &&& (forall|u: UnitId| #[trigger] self.locations@.contains_key(u) ==> self.units@.contains(u))
        &&& (forall|u: UnitId| #[trigger] self.owners@.contains_key(u) ==> self.units@.contains(u))
        &&& (forall|u: UnitId| #[trigger] self.speeds@.contains_key(u) ==> self.units@.contains(u))
        &&& (forall|u: UnitId| #[trigger] self.health@.contains_key(u) ==> self.units@.contains(u))
        &&& (forall|u: UnitId|
            #[trigger] self.unit_display_types@.contains_key(u) ==> self.units@.contains(u))
    }

    /// A unit said to move by task is moving along its current simulation;
    /// a parked unit is parked on the map.
    pub open spec fn locations_ok(self) -> bool {
        forall|u: UnitId|
            #[trigger] self.locations@.contains_key(u) ==> match self.locations@[u] {
                UnitLocation::ByMoveTask(sid) => self.tasks.unit_tasks@.contains_key(u)
                    && self.tasks.unit_tasks@[u].current_simulation_id == Some(sid),
                UnitLocation::Fixed(p) => p.in_bounds(),
            }
    }

    /// A scheduler entry names the current simulation of its unit and is
    /// exactly that simulation's pending completion.
    pub open spec fn sched_entry_ok(self, e: TaskProgress) -> bool {
        &&& self.tasks.unit_tasks@.contains_key(e.unit_id())
        &&& self.tasks.unit_tasks@[e.unit_id()].current_simulation_id == Some(e.sim_id())
        &&& self.tasks.simulated_tasks@.contains_key(e.sim_id())
        &&& e == self.tasks.simulated_tasks@[e.sim_id()].progress
    }

    /// Every scheduler entry is sound, the queue is ordered, and no
    /// simulation is scheduled twice.
    pub open spec fn sched_sound(self) -> bool {
        &&& self.in_progress.wf()
        &&& scheduler::distinct_sims(self.in_progress@)
        &&& (forall|k: int|
            0 <= k < self.in_progress@.len() ==> self.sched_entry_ok(
                #[trigger] self.in_progress@[k],
            ))
    }

    /// Every current simulation of every unit but `skip` has its pending
    /// completion scheduled.
    pub open spec fn sched_complete_except(self, skip: UnitId) -> bool {
        forall|u: UnitId|
            #[trigger] self.tasks.unit_tasks@.contains_key(u) && u != skip
                ==> match self.tasks.unit_tasks@[u].current_simulation_id {
                Some(c) => scheduler::contains_sim(self.in_progress@, c),
                None => true,
            }
    }

    /// Every current simulation of every unit has its pending completion
    /// scheduled: exactly one entry per active head task.
    pub open spec fn sched_complete(self) -> bool {
        forall|u: UnitId|
            #[trigger] self.tasks.unit_tasks@.contains_key(u)
                ==> match self.tasks.unit_tasks@[u].current_simulation_id {
                Some(c) => scheduler::contains_sim(self.in_progress@, c),
                None => true,
            }
    }

    /// The player list is duplicate-free and mirrors the perspective table;
    /// every perspective is consistent and never records a sequence number
    /// above the unit's current one.
    pub open spec fn perspectives_ok(self) -> bool {
        &&& (forall|i: int, j: int|
            0 <= i < j < self.players@.len() ==> (#[trigger] self.players@[i]) != (
            #[trigger] self.players@[j]))
        &&& (forall|i: int|
            0 <= i < self.players@.len() ==> self.perspectives@.contains_key(
                #[trigger] self.players@[i],
            ))
        &&& (forall|p: PlayerId|
            #[trigger] self.perspectives@.contains_key(p) ==> self.players@.contains(p))
        &&& (forall|p: PlayerId|
            #[trigger] self.perspectives@.contains_key(p) ==> {
                let persp = self.perspectives@[p];
                &&& persp.wf()
                &&& (forall|u: UnitId|
                    #[trigger] perspective::persp_has(persp.last_update@, u) ==> {
                        &&& self.tasks.unit_tasks@.contains_key(u)
                        &&& perspective::persp_at(persp.last_update@, u)
                            <= self.tasks.unit_tasks@[u].sequence_number
                    })
            })
    }

    /// Identifiers are allocated below `next_id`, so a fresh id collides
    /// with nothing.
    pub open spec fn ids_ok(self) -> bool {
        &&& 1 <= self.next_id
        &&& (forall|i: int| 0 <= i < self.units@.len() ==> (#[trigger] self.units@[i]) < self.next_id)
        &&& (forall|sid: SimulatedId|
            #[trigger] self.tasks.simulated_tasks@.contains_key(sid) ==> sid < self.next_id)
    }

    /// Everything but scheduler completeness; what holds between popping a
    /// completion and applying it.
    pub open spec fn wf_core(self) -> bool {
        &&& self.tasks.wf()
        &&& self.units_ok()
        &&& self.locations_ok()
        &&& self.sched_sound()
        &&& self.perspectives_ok()
        &&& self.ids_ok()
    }

    /// The master invariant, holding between any two public operations.
    pub open spec fn wf(self) -> bool {
        &&& self.wf_core()
        &&& self.sched_complete()
    }

    pub fn new() -> (r: Self)
        ensures
            r.wf(),
            r.next_id == 1,
            r.last_time == 0,
            r.begin_time == 0,
            r.units@.len() == 0,
            r.players@.len() == 0,
            r.tasks.unit_tasks@ == Map::<UnitId, UnitTasks>::empty(),
            r.tasks.simulated_tasks@ == Map::<SimulatedId, SimulatedTask>::empty(),
            r.in_progress@.len() == 0,
            r.perspectives@ == Map::<PlayerId, PlayersGamePerspective>::empty(),
    {
        GameState {
            next_id: 1,
            begin_time: 0,
            last_time: 0,
            last_wall_ms: 0,
            health: HashMap::new(),
            speeds: HashMap::new(),
            owners: HashMap::new(),
            locations: HashMap::new(),
            unit_display_types: HashMap::new(),
            tasks: TaskManager::new(),
            in_progress: Scheduler::new(),
            perspectives: HashMap::new(),
            units: Vec::new(),
            players: Vec::new(),
        }
    }

    /// The finish time of the next pending completion, if any.
    pub fn get_next_completion(&self) -> (r: Option<TimeStamp>)
        requires
            self.wf_core(),
        ensures
            self.in_progress@.len() == 0 ==> r is None,
            self.in_progress@.len() > 0 ==> r == Some(self.in_progress@[0].finish_time),
    {
        match self.in_progress.peek() {
            Some(tp) => Some(tp.finish_time),
            None => None,
        }
    }

    /// Advances game time.  Time only moves forward.
    pub fn advance_to_time(&mut self, game_time: TimeStamp)
        ensures
            *final(self) == (GameState { last_time: game_time, ..*old(self) }),
    {
        self.last_time = game_time;
    }

    /// Allocates the next dense identifier.
    pub fn get_next_id(&mut self) -> (r: u64)
        requires
            old(self).next_id < u64::MAX,
        ensures
            r == old(self).next_id,
            *final(self) == (GameState { next_id: (old(self).next_id + 1) as u64, ..*old(self) }),
    {
        let id = self.next_id;
        self.next_id = self.next_id + 1;
        id
    }

    /// Current game time.
    pub fn get_current_time(&self) -> (r: TimeStamp)
        ensures
            r == self.last_time,
    {
        self.last_time
    }

    /// The unit's speed; `InternalError` when the unit has none.
    pub fn get_unit_speed(&self, unit_id: UnitId) -> (r: Result<Speed, EngineError>)
        ensures
            self.speeds@.contains_key(unit_id) ==> r == Ok::<Speed, EngineError>(
                self.speeds@[unit_id],
            ),
            !self.speeds@.contains_key(unit_id) ==> r == Err::<Speed, EngineError>(
                EngineError::InternalError,
            ),
    {
        match self.speeds.get(&unit_id) {
            Some(speed) => Ok(*speed),
            None => Err(EngineError::InternalError),
        }
    }

    /// Registers a subscriber with an empty perspective: it has been told
    /// nothing yet.
    pub fn add_player(&mut self, player_id: PlayerId)
        requires
            old(self).wf(),
            !old(self).perspectives@.contains_key(player_id),
        ensures
            final(self).wf(),
            final(self).perspectives@ == old(self).perspectives@.insert(
                player_id,
                final(self).perspectives@[player_id],
            ),
            final(self).perspectives@.contains_key(player_id),
            final(self).perspectives@[player_id].last_update@.len() == 0,
            final(self).players@ == old(self).players@.push(player_id),
            final(self).tasks == old(self).tasks,
            final(self).in_progress == old(self).in_progress,
            final(self).locations@ == old(self).locations@,
            final(self).units@ == old(self).units@,
            final(self).last_time == old(self).last_time,
            final(self).next_id == old(self).next_id,
    {
        self.perspectives.insert(player_id, PlayersGamePerspective::default());
        self.players.push(player_id);
        proof {
            assert forall|i: int, j: int| 0 <= i < j < self.players@.len() implies (
            #[trigger] self.players@[i]) != (#[trigger] self.players@[j]) by {
                if j < self.players@.len() - 1 {
                    assert(self.players@[i] == old(self).players@[i]);
                    assert(self.players@[j] == old(self).players@[j]);
                } else {
                    assert(self.players@[j] == player_id);
                    if i < self.players@.len() - 1 {
                        assert(old(self).perspectives@.contains_key(old(self).players@[i]));
                    }
                }
            }
            assert forall|p: PlayerId| #[trigger] self.perspectives@.contains_key(p) implies
                self.players@.contains(p) by {
                if p == player_id {
                    assert(self.players@[self.players@.len() - 1] == p);
                } else {
                    assert(old(self).perspectives@.contains_key(p));
                    let w = choose|w: int|
                        0 <= w < old(self).players@.len() && old(self).players@[w] == p;
                    assert(self.players@[w] == p);
                }
            }
        }
    }

    /// The unit's location can be evaluated at `t`: it is parked, or `t`
    /// lies within its current animation segment.
    pub open spec fn location_readable(self, unit_id: UnitId, t: TimeStamp) -> bool {
        &&& self.locations@.contains_key(unit_id)
        &&& match self.locations@[unit_id] {
            UnitLocation::Fixed(_) => true,
            UnitLocation::ByMoveTask(sid) => {
                let st = self.tasks.simulated_tasks@[sid];
                st.animation.begin_time <= t <= st.progress.finish_time
            },
        }
    }

    /// The unit's position at `t`: its parked point, or the exact
    /// interpolation along its current segment, facing as it faced when the
    /// move began.
    pub open spec fn location_at(self, unit_id: UnitId, t: TimeStamp) -> OrientedPoint {
        match self.locations@[unit_id] {
            UnitLocation::Fixed(p) => p,
            UnitLocation::ByMoveTask(sid) => {
                let st = self.tasks.simulated_tasks@[sid];
                OrientedPoint {
                    point: st.animation.place_at_spec(t as int),
                    orientation: st.animation.begin_orientation,
                }
            },
        }
    }

    /// The unit's oriented position at `at_time`.  Fails with
    /// `InternalError` when the unit has no location or `at_time` lies
    /// outside its current segment.
    pub fn get_unit_location(&self, unit_id: UnitId, at_time: TimeStamp) -> (r: Result<
        OrientedPoint,
        EngineError,
    >)
        requires
            self.wf_core(),
        ensures
            r is Ok <==> self.location_readable(unit_id, at_time),
            r matches Ok(p) ==> p == self.location_at(unit_id, at_time) && p.in_bounds(),
            r is Err ==> r == Err::<OrientedPoint, EngineError>(EngineError::InternalError),
    {
        match self.locations.get(&unit_id) {
            Some(UnitLocation::Fixed(pos)) => Ok(*pos),
            Some(UnitLocation::ByMoveTask(sid)) => {
                proof {
                    assert(self.locations@.contains_key(unit_id));
                    assert(self.tasks.unit_tasks@.contains_key(unit_id));
                    assert(self.tasks.queue_ok(unit_id));
                    let ut = self.tasks.unit_tasks@[unit_id];
                    assert(ut.tasks@.len() > 0 && ut.tasks@[0] == *sid);
                    assert(self.tasks.simulated_tasks@.contains_key(*sid));
                }
                let st = match self.tasks.simulated_tasks.get(sid) {
                    Some(st) => *st,
                    None => {
                        proof {
                            assert(false);
                        }
                        return Err(EngineError::InternalError);
                    },
                };
                if at_time < st.animation.begin_time || at_time > st.progress.finish_time {
                    return Err(EngineError::InternalError);
                }
                let p = st.animation.place_at(at_time);
                proof {
                    match st.task {
                        crate::model::Task::MoveTo(dest) => {
                            crate::model::lemma_place_at_in_bounds(
                                st.animation,
                                dest,
                                at_time as int,
                            );
                        },
                        _ => {
                            assert(false);
                        },
                    }
                }
                Ok(OrientedPoint { point: p, orientation: st.animation.begin_orientation })
            },
            None => Err(EngineError::InternalError),
        }
    }

    /// Position along `seg` at `at_time`, paired with the segment's
    /// orientation; positions before the segment's start are clamped to it.
    pub fn eval_animation_segment(&self, seg: &crate::model::AnimationSegment, at_time: TimeStamp)
        -> (r: Result<OrientedPoint, EngineError>)
        requires
            seg.wf(),
            seg.begin_time <= at_time <= seg.end_time(),
        ensures
            r == Ok::<OrientedPoint, EngineError>(
                OrientedPoint {
                    point: seg.place_at_spec(at_time as int),
                    orientation: seg.begin_orientation,
                },
            ),
    {
        let p = seg.place_at(at_time);
        Ok(OrientedPoint { point: p, orientation: seg.begin_orientation })
    }

    /// The simulation queued directly after `simulation_id` on this unit,
    /// if any.
    pub fn get_next_task(&self, unit_id: UnitId, simulation_id: SimulatedId) -> (r: Option<
        SimulatedId,
    >)
        requires
            self.wf_core(),
        ensures
            r matches Some(n) ==> exists|idx: int|
                0 <= idx < self.tasks.queue_of(unit_id).len() - 1 && self.tasks.queue_of(unit_id)[idx]
                    == simulation_id && n == #[trigger] self.tasks.queue_of(unit_id)[idx + 1],
            r is None ==> (!self.tasks.unit_tasks@.contains_key(unit_id) || !self.tasks.queue_of(
                unit_id,
            ).contains(simulation_id) || self.tasks.queue_of(unit_id).last() == simulation_id),
    {
        let ut = match self.tasks.unit_tasks.get(&unit_id) {
            Some(ut) => ut,
            None => {
                return None;
            },
        };
        let mut idx: usize = 0;
        while idx < ut.tasks.len()
            invariant
                idx <= ut.tasks@.len(),
                ut == self.tasks.unit_tasks@[unit_id],
                self.tasks.unit_tasks@.contains_key(unit_id),
                forall|j: int| 0 <= j < idx ==> (#[trigger] ut.tasks@[j]) != simulation_id,
            decreases ut.tasks@.len() - idx,
        {
            if ut.tasks[idx] == simulation_id {
                if idx + 1 < ut.tasks.len() {
                    proof {
                        assert(self.tasks.queue_of(unit_id)[idx as int] == simulation_id);
                        assert(#[trigger] self.tasks.queue_of(unit_id)[idx as int + 1]
                            == ut.tasks@[idx as int + 1]);
                    }
                    return Some(ut.tasks[idx + 1]);
                } else {
                    proof {
                        assert(ut.tasks@.last() == simulation_id);
                    }
                    return None;
                }
            }
            idx += 1;
        }
        None
    }

    /// Pops the pending completion that fires first.  The caller must apply
    /// it with `task_completed` to restore full consistency; until then the
    /// popped unit's current task has no scheduler entry.
    pub fn remove_completed_task(&mut self) -> (r: Result<TaskProgress, EngineError>)
        requires
            old(self).wf(),
        ensures
            old(self).in_progress@.len() == 0 ==> r == Err::<TaskProgress, EngineError>(
                EngineError::InternalError,
            ) && *final(self) == *old(self),
            old(self).in_progress@.len() > 0 ==> {
                let e = old(self).in_progress@[0];
                &&& r == Ok::<TaskProgress, EngineError>(e)
                &&& final(self).in_progress@ == old(self).in_progress@.subrange(
                    1,
                    old(self).in_progress@.len() as int,
                )
                &&& final(self).tasks == old(self).tasks
                &&& final(self).locations@ == old(self).locations@
                &&& final(self).perspectives@ == old(self).perspectives@
                &&& final(self).units@ == old(self).units@
                &&& final(self).players@ == old(self).players@
                &&& final(self).next_id == old(self).next_id
                &&& final(self).last_time == old(self).last_time
                &&& final(self).wf_core()
                &&& final(self).sched_complete_except(e.unit_id())
                &&& old(self).sched_entry_ok(e)
                &&& !scheduler::contains_sim(final(self).in_progress@, e.sim_id())
                &&& (forall|k: int|
                    0 <= k < final(self).in_progress@.len() ==> e.le(
                        #[trigger] final(self).in_progress@[k],
                    ))
            },
    {
        if self.in_progress.len() == 0 {
            return Err(EngineError::InternalError);
        }
        let e = self.in_progress.pop();
        proof {
            let post = *self;
            let pre = *old(self);
            assert forall|k: int| 0 <= k < post.in_progress@.len() implies post.sched_entry_ok(
                #[trigger] post.in_progress@[k],
            ) by {
                assert(post.in_progress@[k] == pre.in_progress@[k + 1]);
                assert(pre.sched_entry_ok(pre.in_progress@[k + 1]));
            }
            if scheduler::contains_sim(post.in_progress@, e.sim_id()) {
                let k = choose|k: int|
                    0 <= k < post.in_progress@.len() && (#[trigger] post.in_progress@[k]).sim_id()
                        == e.sim_id();
                assert(post.in_progress@[k] == pre.in_progress@[k + 1]);
                assert(pre.in_progress@[0].sim_id() == pre.in_progress@[k + 1].sim_id());
                assert(false);
            }
            assert forall|u: UnitId|
                #[trigger] post.tasks.unit_tasks@.contains_key(u) && u != e.unit_id() implies
                match post.tasks.unit_tasks@[u].current_simulation_id {
                    Some(c) => scheduler::contains_sim(post.in_progress@, c),
                    None => true,
                } by {
                match post.tasks.unit_tasks@[u].current_simulation_id {
                    Some(c) => {
                        assert(scheduler::contains_sim(pre.in_progress@, c));
                        let k = choose|k: int|
                            0 <= k < pre.in_progress@.len() && (
                            #[trigger] pre.in_progress@[k]).sim_id() == c;
                        assert(pre.sched_entry_ok(pre.in_progress@[k]));
                        if k == 0 {
                            assert(pre.in_progress@[0].unit_id() == u);
                            assert(pre.sched_entry_ok(e));
                            assert(false);
                        }
                        assert(post.in_progress@[k - 1].sim_id() == c);
                    },
                    None => {},
                }
            }
        }
        Ok(e)
    }

    /// What the task queue manager left behind, just before a transition is
    /// applied: the manager is consistent, the scheduler is ordered and
    /// duplicate-free, every entry is sound except the departing task's
    /// stale one, every other unit's current task is still scheduled, the
    /// unit's new current task is not scheduled yet, and the transition
    /// mirrors the manager's new state.
    pub open spec fn transition_pre(
        self,
        unit_id: UnitId,
        t: TaskTransition,
        location: Option<OrientedPoint>,
    ) -> bool {
        &&& t.unit_id == unit_id
        &&& self.tasks.wf()
        &&& self.units_ok()
        &&& self.perspectives_ok()
        &&& self.ids_ok()
        &&& self.in_progress.wf()
        &&& scheduler::distinct_sims(self.in_progress@)
        &&& self.tasks.unit_tasks@.contains_key(unit_id)
        &&& (forall|k: int|
            0 <= k < self.in_progress@.len() ==> (self.sched_entry_ok(
                #[trigger] self.in_progress@[k],
            ) || (match t.from {
                Some((_, sid, completed)) => !completed && self.in_progress@[k].sim_id() == sid
                    && self.in_progress@[k].unit_id() == unit_id,
                None => false,
            })))
        &&& (forall|u: UnitId|
            #[trigger] self.tasks.unit_tasks@.contains_key(u) && u != unit_id
                ==> match self.tasks.unit_tasks@[u].current_simulation_id {
                Some(c) => scheduler::contains_sim(self.in_progress@, c),
                None => true,
            })
        &&& (match self.tasks.unit_tasks@[unit_id].current_simulation_id {
            Some(c) => !scheduler::contains_sim(self.in_progress@, c),
            None => true,
        })
        &&& (match t.to {
            Some((task, progress)) => {
                &&& self.tasks.unit_tasks@[unit_id].current_simulation_id == Some(
                    progress.sim_id(),
                )
                &&& progress.unit_id() == unit_id
                &&& self.tasks.simulated_tasks@.contains_key(progress.sim_id())
                &&& progress == self.tasks.simulated_tasks@[progress.sim_id()].progress
                &&& task == self.tasks.simulated_tasks@[progress.sim_id()].task
            },
            None => self.tasks.unit_tasks@[unit_id].current_simulation_id is None,
        })
        &&& (match t.from {
            Some((task, sid, completed)) => {
                &&& (completed ==> !scheduler::contains_sim(self.in_progress@, sid))
                &&& !self.tasks.simulated_tasks@.contains_key(sid)
                &&& (match task {
                    Task::MoveTo(dest) => dest.in_bounds(),
                    _ => true,
                })
            },
            None => true,
        })
        &&& self.locations@.contains_key(unit_id)
        &&& (forall|u: UnitId|
            #[trigger] self.locations@.contains_key(u) && u != unit_id
                ==> match self.locations@[u] {
                UnitLocation::ByMoveTask(sid) => self.tasks.unit_tasks@.contains_key(u)
                    && self.tasks.unit_tasks@[u].current_simulation_id == Some(sid),
                UnitLocation::Fixed(p) => p.in_bounds(),
            })
        &&& (match location {
            Some(l) => l.in_bounds(),
            None => true,
        })
    }

    /// Applies the location rule of a task transition: a unit whose new
    /// head task is a move is anchored to that simulation; otherwise it is
    /// parked — at the destination it just reached when the departing move
    /// completed, else at the caller-supplied position.
    pub fn locations_transition(
        &mut self,
        unit_id: UnitId,
        transition: &TaskTransition,
        location: Option<OrientedPoint>,
    ) -> (r: Result<(), EngineError>)
        requires
            old(self).transition_pre(unit_id, *transition, location),
        ensures
            *final(self) == (GameState { locations: final(self).locations, ..*old(self) }),
            r is Ok <==> transition_location(*transition, location) is Some,
            r is Err ==> r == Err::<(), EngineError>(EngineError::InternalError)
                && final(self).locations@ == old(self).locations@,
            r is Ok ==> final(self).locations@ == old(self).locations@.insert(
                unit_id,
                transition_location(*transition, location)->Some_0,
            ),
    {
        let next_moving_sim_id: Option<SimulatedId> = match &transition.to {
            Some((Task::MoveTo(_), progress)) => Some(crate::scheduler::entry_sim_id(progress)),
            _ => None,
        };
        if let Some(sid) = next_moving_sim_id {
            self.locations.insert(unit_id, UnitLocation::ByMoveTask(sid));
            Ok(())
        } else {
            match &transition.from {
                Some((Task::MoveTo(destination), _, true)) => {
                    self.finished_moving(unit_id, *destination);
                    Ok(())
                },
                _ => match location {
                    Some(l) => {
                        self.locations.insert(unit_id, UnitLocation::Fixed(l));
                        Ok(())
                    },
                    None => Err(EngineError::InternalError),
                },
            }
        }
    }

    /// Applies a task transition in full: the location rule, then the
    /// scheduler rule — stale entries of a replaced task leave, the new
    /// head's completion enters, and a unit with no tasks left keeps no
    /// entries at all.
    pub fn handle_task_transition(
        &mut self,
        unit_id: UnitId,
        transition: &TaskTransition,
        location: Option<OrientedPoint>,
    ) -> (r: Result<(), EngineError>)
        requires
            old(self).transition_pre(unit_id, *transition, location),
        ensures
            final(self).tasks == old(self).tasks,
            final(self).perspectives@ == old(self).perspectives@,
            final(self).units@ == old(self).units@,
            final(self).players@ == old(self).players@,
            final(self).next_id == old(self).next_id,
            final(self).last_time == old(self).last_time,
            r is Ok <==> transition_location(*transition, location) is Some,
            r is Err ==> (r == Err::<(), EngineError>(EngineError::InternalError)
                && final(self).locations@ == old(self).locations@
                && final(self).in_progress == old(self).in_progress),
            r is Ok ==> {
                &&& final(self).wf()
                &&& final(self).locations@ == old(self).locations@.insert(
                    unit_id,
                    transition_location(*transition, location)->Some_0,
                )
                &&& (forall|s: SimulatedId|
                    scheduler::contains_sim(final(self).in_progress@, s) <==> ((
                    scheduler::contains_sim(old(self).in_progress@, s) && !(match transition.from {
                        Some((_, fsid, completed)) => !completed && s == fsid,
                        None => false,
                    })) || (match transition.to {
                        Some((_, p)) => s == p.sim_id(),
                        None => false,
                    })))
            },
    {
        let r = self.locations_transition(unit_id, transition, location);
        if let Err(e) = r {
            return Err(e);
        }
        let ghost located = *self;
        if let Some((_, simulation_id, completed)) = &transition.from {
            if !*completed {
                self.clear_upcoming_by_simulation_id(*simulation_id);
            }
        }
        let ghost cleared = *self;
        match &transition.to {
            Some((_, progress)) => {
                self.in_progress.push(*progress);
            },
            None => {
                self.clear_upcoming_by_unit(unit_id);
            },
        }
        proof {
            let pre = *old(self);
            let post = *self;
            let t = *transition;
            let presched = pre.in_progress@;
            let midsched = cleared.in_progress@;
            let postsched = post.in_progress@;
            // which simulation the departing, not-completed task had
            let stale = match t.from {
                Some((_, sid, completed)) => if !completed {
                    Some(sid)
                } else {
                    None::<SimulatedId>
                },
                None => None::<SimulatedId>,
            };
            // entries that survived the stale clear are sound entries of the
            // pre state
            assert forall|k: int| 0 <= k < midsched.len() implies presched.contains(
                #[trigger] midsched[k],
            ) && pre.sched_entry_ok(midsched[k]) && (match stale {
                Some(fsid) => midsched[k].sim_id() != fsid,
                None => true,
            }) by {
                assert(presched.contains(midsched[k]));
                let j = choose|j: int| 0 <= j < presched.len() && presched[j] == midsched[k];
            }
            // conversely, every pre entry outside the stale simulation
            // survives into the cleared state
            assert(located.in_progress@ == presched);
            assert forall|k: int|
                0 <= k < presched.len() && (match stale {
                    Some(fsid) => (#[trigger] presched[k]).sim_id() != fsid,
                    None => true,
                }) implies midsched.contains(presched[k]) by {
                match stale {
                    Some(fsid) => {
                        assert(located.in_progress@[k] == presched[k]);
                    },
                    None => {
                        assert(midsched == presched);
                        assert(midsched[k] == presched[k]);
                    },
                }
            }
            // the unit's new current simulation is not scheduled in the
            // cleared state
            assert(match cleared.tasks.unit_tasks@[unit_id].current_simulation_id {
                Some(c) => !scheduler::contains_sim(midsched, c),
                None => true,
            }) by {
                match pre.tasks.unit_tasks@[unit_id].current_simulation_id {
                    Some(c) => {
                        if scheduler::contains_sim(midsched, c) {
                            let k = choose|k: int|
                                0 <= k < midsched.len() && (#[trigger] midsched[k]).sim_id() == c;
                            assert(presched.contains(midsched[k]));
                        }
                    },
                    None => {},
                }
            }
            // soundness of every entry after the final scheduler step
            assert forall|k: int| 0 <= k < postsched.len() implies post.sched_entry_ok(
                #[trigger] postsched[k],
            ) by {
                match t.to {
                    Some((_, p)) => {
                        let pos = choose|pos: int|
                            0 <= pos <= midsched.len() && postsched == midsched.insert(pos, p);
                        if k < pos {
                            assert(postsched[k] == midsched[k]);
                        } else if k > pos {
                            assert(postsched[k] == midsched[k - 1]);
                        } else {
                            assert(postsched[k] == p);
                        }
                    },
                    None => {
                        assert(midsched.contains(postsched[k]) && postsched[k].unit_id()
                            != unit_id);
                        let j = choose|j: int| 0 <= j < midsched.len() && midsched[j] == postsched[k];
                    },
                }
            }
            // distinctness after the final step
            assert(scheduler::distinct_sims(postsched)) by {
                match t.to {
                    Some((_, p)) => {},
                    None => {},
                }
            }
            // completeness: every unit's current simulation is scheduled
            assert forall|u: UnitId| #[trigger] post.tasks.unit_tasks@.contains_key(u) implies
                match post.tasks.unit_tasks@[u].current_simulation_id {
                Some(c) => scheduler::contains_sim(postsched, c),
                None => true,
            } by {
                match post.tasks.unit_tasks@[u].current_simulation_id {
                    Some(c) => {
                        if u == unit_id {
                            match t.to {
                                Some((_, p)) => {
                                    assert(c == p.sim_id());
                                    assert(scheduler::contains_sim(postsched, c));
                                },
                                None => {
                                    assert(false);
                                },
                            }
                        } else {
                            // the entry for c survives both scheduler steps
                            assert(scheduler::contains_sim(presched, c));
                            let k = choose|k: int|
                                0 <= k < presched.len() && (#[trigger] presched[k]).sim_id() == c;
                            let e = presched[k];
                            // c is in u's queue, hence in the table, hence
                            // distinct from the departing simulation
                            assert(pre.tasks.queue_ok(u));
                            assert(pre.tasks.unit_tasks@[u].tasks@[0] == c);
                            assert(pre.tasks.simulated_tasks@.contains_key(c));
                            assert(match stale {
                                Some(fsid) => c != fsid,
                                None => true,
                            });
                            assert(pre.sched_entry_ok(e)) by {
                                if !pre.sched_entry_ok(e) {
                                    assert(match t.from {
                                        Some((_, sid, completed)) => !completed && e.sim_id()
                                            == sid && e.unit_id() == unit_id,
                                        None => false,
                                    });
                                }
                            }
                            assert(e.unit_id() == u) by {
                                assert(pre.tasks.unit_tasks@[e.unit_id()].current_simulation_id
                                    == Some(c));
                                assert(pre.tasks.queue_ok(e.unit_id()));
                                let q2 = pre.tasks.unit_tasks@[e.unit_id()].tasks@;
                                assert(q2.len() > 0 && q2[0] == c);
                                assert(pre.tasks.simulated_tasks@[c].unit_id() == e.unit_id());
                                assert(pre.tasks.simulated_tasks@[c].unit_id() == u);
                            }
                            assert(midsched.contains(e));
                            let j = choose|j: int| 0 <= j < midsched.len() && midsched[j] == e;
                            match t.to {
                                Some((_, p)) => {
                                    assert(scheduler::contains_sim(midsched, c));
                                    assert(scheduler::contains_sim(postsched, c));
                                },
                                None => {
                                    assert(postsched.contains(e));
                                    let w = choose|w: int|
                                        0 <= w < postsched.len() && postsched[w] == e;
                                    assert(postsched[w].sim_id() == c);
                                },
                            }
                        }
                    },
                    None => {},
                }
            }
            // the membership bookkeeping the ensures states
            assert forall|s: SimulatedId| scheduler::contains_sim(postsched, s) implies ((
            scheduler::contains_sim(presched, s) && !(match t.from {
                Some((_, fsid, completed)) => !completed && s == fsid,
                None => false,
            })) || (match t.to {
                Some((_, p)) => s == p.sim_id(),
                None => false,
            })) by {
                let k = choose|k: int|
                    0 <= k < postsched.len() && (#[trigger] postsched[k]).sim_id() == s;
                let e = postsched[k];
                match t.to {
                    Some((_, p)) => {
                        if e != p {
                            let pos = choose|pos: int|
                                0 <= pos <= midsched.len() && postsched == midsched.insert(pos, p);
                            let j = if k < pos {
                                k
                            } else {
                                k - 1
                            };
                            assert(midsched[j] == e);
                            assert(presched.contains(e));
                            let w = choose|w: int| 0 <= w < presched.len() && presched[w] == e;
                        }
                    },
                    None => {
                        assert(midsched.contains(e));
                        let j = choose|j: int| 0 <= j < midsched.len() && midsched[j] == e;
                        assert(presched.contains(e));
                        let w = choose|w: int| 0 <= w < presched.len() && presched[w] == e;
                    },
                }
            }
            assert forall|s: SimulatedId|
                ((scheduler::contains_sim(presched, s) && !(match t.from {
                    Some((_, fsid, completed)) => !completed && s == fsid,
                    None => false,
                })) || (match t.to {
                    Some((_, p)) => s == p.sim_id(),
                    None => false,
                })) implies scheduler::contains_sim(postsched, s) by {
                if (match t.to {
                    Some((_, p)) => s == p.sim_id(),
                    None => false,
                }) {
                    let p = (t.to->Some_0).1;
                    assert(scheduler::contains_sim(postsched, s)) by {
                        let pos = choose|pos: int|
                            0 <= pos <= midsched.len() && postsched == midsched.insert(pos, p);
                        assert(postsched[pos].sim_id() == s);
                    }
                } else {
                    let k = choose|k: int|
                        0 <= k < presched.len() && (#[trigger] presched[k]).sim_id() == s;
                    let e = presched[k];
                    assert(pre.sched_entry_ok(e)) by {
                        if !pre.sched_entry_ok(e) {
                            assert(match t.from {
                                Some((_, sid, completed)) => !completed && e.sim_id() == sid,
                                None => false,
                            });
                        }
                    }
                    assert(midsched.contains(e));
                    let j = choose|j: int| 0 <= j < midsched.len() && midsched[j] == e;
                    match t.to {
                        Some((_, p)) => {
                            let pos = choose|pos: int|
                                0 <= pos <= midsched.len() && postsched == midsched.insert(pos, p);
                            let w = if j < pos {
                                j
                            } else {
                                j + 1
                            };
                            assert(postsched[w] == e);
                        },
                        None => {
                            // an entry of another unit survives the by-unit
                            // clear
                            assert(e.unit_id() != unit_id) by {
                                assert(pre.tasks.unit_tasks@[e.unit_id()].current_simulation_id
                                    == Some(s));
                                if e.unit_id() == unit_id {
                                    assert(pre.tasks.unit_tasks@[unit_id].current_simulation_id
                                        is None);
                                }
                            }
                            assert(postsched.contains(e));
                            let w = choose|w: int| 0 <= w < postsched.len() && postsched[w] == e;
                        },
                    }
                }
            }
            // locations stay linked: only the unit's own entry changed, and
            // it changed to what the transition dictates
            assert(post.locations@.dom() =~= pre.locations@.dom());
            assert forall|u: UnitId| #[trigger] post.locations@.contains_key(u) implies match post
                .locations@[u] {
                UnitLocation::ByMoveTask(sid) => post.tasks.unit_tasks@.contains_key(u)
                    && post.tasks.unit_tasks@[u].current_simulation_id == Some(sid),
                UnitLocation::Fixed(p) => p.in_bounds(),
            } by {
                if u != unit_id {
                    assert(pre.locations@.contains_key(u));
                    assert(post.locations@[u] == pre.locations@[u]);
                }
            }
            // the unit tables did not change, so the remaining clauses of
            // the master invariant carry over
            assert(post.units_ok()) by {
                assert forall|u: UnitId| #[trigger] post.locations@.contains_key(u) implies post
                    .units@.contains(u) by {
                    assert(pre.locations@.contains_key(u));
                }
                assert forall|i: int| 0 <= i < post.units@.len() implies {
                    let u = #[trigger] post.units@[i];
                    &&& post.tasks.unit_tasks@.contains_key(u)
                    &&& post.locations@.contains_key(u)
                    &&& post.owners@.contains_key(u)
                    &&& post.speeds@.contains_key(u)
                    &&& post.unit_display_types@.contains_key(u)
                } by {
                    assert(pre.locations@.contains_key(pre.units@[i]));
                }
            }
        }
        Ok(())
    }

    /// Replaces the unit's task queue by the given pre-simulated executions,
    /// atomically: on any failure nothing is changed.  The unit's location
    /// becomes the new head move, or freezes where the unit stands at
    /// `time` when the new queue is empty; stale scheduler entries of the
    /// replaced queue leave and the new head's completion is scheduled.
    ///
    /// Fails with `InvalidUnitId` for an unknown unit and `InternalError`
    /// when the unit's position cannot be read at `time` or its sequence
    /// number cannot advance.
    pub fn set_task_queue_requested(
        &mut self,
        unit_id: UnitId,
        time: TimeStamp,
        tasks: Vec<SimulatedTask>,
    ) -> (r: Result<(), EngineError>)
        requires
            old(self).wf(),
            forall|i: int| 0 <= i < tasks@.len() ==> (#[trigger] tasks@[i]).wf(),
            forall|i: int| 0 <= i < tasks@.len() ==> (#[trigger] tasks@[i]).unit_id() == unit_id,
            forall|i: int|
                0 <= i < tasks@.len() ==> !old(self).tasks.simulated_tasks@.contains_key(
                    (#[trigger] tasks@[i]).id,
                ),
            forall|i: int| 0 <= i < tasks@.len() ==> (#[trigger] tasks@[i]).id < old(self).next_id,
            forall|i: int, j: int|
                0 <= i < j < tasks@.len() ==> (#[trigger] tasks@[i]).id != (
                #[trigger] tasks@[j]).id,
        ensures
            r is Ok <==> (old(self).tasks.unit_tasks@.contains_key(unit_id) && old(
                self,
            ).location_readable(unit_id, time) && (crate::tasks::set_queue_changed(
                old(self).tasks.unit_tasks@[unit_id],
                tasks@,
            ) ==> old(self).tasks.unit_tasks@[unit_id].sequence_number < u64::MAX)),
            r matches Err(e) ==> {
                &&& final(self).tasks.unit_tasks@ == old(self).tasks.unit_tasks@
                &&& final(self).tasks.simulated_tasks@ == old(self).tasks.simulated_tasks@
                &&& final(self).locations@ == old(self).locations@
                &&& final(self).in_progress == old(self).in_progress
                &&& final(self).perspectives@ == old(self).perspectives@
                &&& final(self).units@ == old(self).units@
                &&& final(self).players@ == old(self).players@
                &&& final(self).next_id == old(self).next_id
                &&& final(self).last_time == old(self).last_time
                &&& final(self).wf()
                &&& (e == EngineError::InvalidUnitId <==> !old(self).tasks.unit_tasks@.contains_key(
                    unit_id,
                ))
                &&& (e == EngineError::InvalidUnitId || e == EngineError::InternalError)
            },
            r is Ok ==> {
                let oldut = old(self).tasks.unit_tasks@[unit_id];
                let changed = crate::tasks::set_queue_changed(oldut, tasks@);
                &&& final(self).wf()
                &&& final(self).tasks.unit_tasks@.dom() == old(self).tasks.unit_tasks@.dom()
                &&& final(self).tasks.unit_tasks@[unit_id].tasks@ == crate::tasks::ids_of(tasks@)
                &&& final(self).tasks.unit_tasks@[unit_id].sequence_number == oldut.sequence_number
                    + if changed {
                    1int
                } else {
                    0int
                }
                &&& final(self).tasks.unit_tasks@[unit_id].current_simulation_id == (if tasks@.len()
                    > 0 {
                    Some(tasks@[0].id)
                } else {
                    None::<SimulatedId>
                })
                &&& (forall|u: UnitId|
                    u != unit_id && #[trigger] old(self).tasks.unit_tasks@.contains_key(u)
                        ==> final(self).tasks.unit_tasks@[u] == old(self).tasks.unit_tasks@[u])
                &&& (forall|i: int|
                    0 <= i < tasks@.len() ==> final(self).tasks.simulated_tasks@.contains_key(
                        (#[trigger] tasks@[i]).id,
                    ) && final(self).tasks.simulated_tasks@[tasks@[i].id] == tasks@[i])
                &&& final(self).locations@ == old(self).locations@.insert(
                    unit_id,
                    if tasks@.len() > 0 {
                        UnitLocation::ByMoveTask(tasks@[0].id)
                    } else {
                        UnitLocation::Fixed(old(self).location_at(unit_id, time))
                    },
                )
                &&& (forall|s: SimulatedId|
                    scheduler::contains_sim(final(self).in_progress@, s) <==> ((
                    scheduler::contains_sim(old(self).in_progress@, s) && !(match oldut
                        .current_simulation_id {
                        Some(c) => s == c,
                        None => false,
                    })) || (tasks@.len() > 0 && s == tasks@[0].id)))
                &&& final(self).perspectives@ == old(self).perspectives@
                &&& final(self).units@ == old(self).units@
                &&& final(self).players@ == old(self).players@
                &&& final(self).next_id == old(self).next_id
                &&& final(self).last_time == old(self).last_time
            },
    {
        if !self.tasks.unit_tasks.contains_key(&unit_id) {
            return Err(EngineError::InvalidUnitId);
        }
        let current_location = match self.get_unit_location(unit_id, time) {
            Ok(l) => l,
            Err(e) => {
                return Err(e);
            },
        };
        let ghost sims = tasks@;
        let transition = match self.tasks.set_task_queue_requested(unit_id, tasks, self.last_time)
        {
            Ok(t) => t,
            Err(e) => {
                proof {
                    assert(e != EngineError::InvalidUnitId);
                    assert(self.wf()) by {
                        assert(self.tasks.unit_tasks@ == old(self).tasks.unit_tasks@);
                        assert(self.tasks.simulated_tasks@ == old(self).tasks.simulated_tasks@);
                    }
                }
                return Err(e);
            },
        };
        proof {
            let pre = *old(self);
            let mid = *self;
            let t = transition;
            let oldut = pre.tasks.unit_tasks@[unit_id];
            assert(mid.units_ok()) by {
                assert forall|i: int| 0 <= i < mid.units@.len() implies {
                    let u = #[trigger] mid.units@[i];
                    &&& mid.tasks.unit_tasks@.contains_key(u)
                    &&& mid.locations@.contains_key(u)
                    &&& mid.owners@.contains_key(u)
                    &&& mid.speeds@.contains_key(u)
                    &&& mid.unit_display_types@.contains_key(u)
                } by {
                    assert(pre.tasks.unit_tasks@.contains_key(mid.units@[i]));
                }
                assert forall|u: UnitId| #[trigger] mid.tasks.unit_tasks@.contains_key(u) implies
                    mid.units@.contains(u) by {
                    assert(pre.tasks.unit_tasks@.contains_key(u));
                }
            }
            assert(mid.perspectives_ok()) by {
                assert forall|p: PlayerId| #[trigger] mid.perspectives@.contains_key(p) implies {
                    let persp = mid.perspectives@[p];
                    &&& persp.wf()
                    &&& (forall|u: UnitId|
                        #[trigger] perspective::persp_has(persp.last_update@, u) ==> {
                            &&& mid.tasks.unit_tasks@.contains_key(u)
                            &&& perspective::persp_at(persp.last_update@, u)
                                <= mid.tasks.unit_tasks@[u].sequence_number
                        })
                } by {
                    assert(pre.perspectives@.contains_key(p));
                    let persp = mid.perspectives@[p];
                    assert(persp == pre.perspectives@[p]);
                    assert forall|u: UnitId|
                        #[trigger] perspective::persp_has(persp.last_update@, u) implies {
                        &&& mid.tasks.unit_tasks@.contains_key(u)
                        &&& perspective::persp_at(persp.last_update@, u)
                            <= mid.tasks.unit_tasks@[u].sequence_number
                    } by {
                        assert(pre.tasks.unit_tasks@.contains_key(u));
                        if u != unit_id {
                            assert(mid.tasks.unit_tasks@[u] == pre.tasks.unit_tasks@[u]);
                        }
                    }
                }
            }
            assert(mid.ids_ok()) by {
                assert forall|sid: SimulatedId|
                    #[trigger] mid.tasks.simulated_tasks@.contains_key(sid) implies sid
                    < mid.next_id by {
                    if crate::tasks::ids_of(sims).contains(sid) {
                        let j = choose|j: int|
                            0 <= j < crate::tasks::ids_of(sims).len() && crate::tasks::ids_of(
                                sims,
                            )[j] == sid;
                        assert(sims[j].id == sid);
                    }
                }
            }
            // scheduler entries: sound, or the stale entry of the replaced
            // current task
            assert forall|k: int| 0 <= k < mid.in_progress@.len() implies (mid.sched_entry_ok(
                #[trigger] mid.in_progress@[k],
            ) || (match t.from {
                Some((_, sid, completed)) => !completed && mid.in_progress@[k].sim_id() == sid
                    && mid.in_progress@[k].unit_id() == unit_id,
                None => false,
            })) by {
                let e = mid.in_progress@[k];
                assert(pre.in_progress@[k] == e);
                assert(pre.sched_entry_ok(e));
                assert(pre.tasks.queue_ok(e.unit_id()));
                assert(pre.tasks.unit_tasks@[e.unit_id()].tasks@[0] == e.sim_id());
                assert(pre.tasks.simulated_tasks@[e.sim_id()].unit_id() == e.unit_id());
                match oldut.current_simulation_id {
                    Some(c) => {
                        if e.sim_id() == c {
                            assert(pre.tasks.queue_ok(unit_id));
                            assert(pre.tasks.unit_tasks@[unit_id].tasks@[0] == c);
                            assert(pre.tasks.simulated_tasks@[c].unit_id() == unit_id);
                            assert(e.unit_id() == unit_id);
                        } else {
                            assert(e.unit_id() != unit_id);
                            assert(mid.tasks.unit_tasks@[e.unit_id()] == pre.tasks.unit_tasks@[e.unit_id()]);
                            assert(!oldut.tasks@.contains(e.sim_id())) by {
                                if oldut.tasks@.contains(e.sim_id()) {
                                    let w = choose|w: int|
                                        0 <= w < oldut.tasks@.len() && oldut.tasks@[w] == e.sim_id();
                                    assert(pre.tasks.queue_ok(unit_id));
                                    assert(pre.tasks.simulated_tasks@[oldut.tasks@[w]].unit_id()
                                        == unit_id);
                                }
                            }
                            assert(mid.tasks.simulated_tasks@.contains_key(e.sim_id()));
                            assert(mid.tasks.simulated_tasks@[e.sim_id()]
                                == pre.tasks.simulated_tasks@[e.sim_id()]);
                        }
                    },
                    None => {
                        assert(e.unit_id() != unit_id);
                        assert(mid.tasks.unit_tasks@[e.unit_id()] == pre.tasks.unit_tasks@[e.unit_id()]);
                        assert(!oldut.tasks@.contains(e.sim_id())) by {
                            if oldut.tasks@.contains(e.sim_id()) {
                                let w = choose|w: int|
                                    0 <= w < oldut.tasks@.len() && oldut.tasks@[w] == e.sim_id();
                                assert(pre.tasks.queue_ok(unit_id));
                                assert(pre.tasks.simulated_tasks@[oldut.tasks@[w]].unit_id()
                                    == unit_id);
                            }
                        }
                        assert(mid.tasks.simulated_tasks@.contains_key(e.sim_id()));
                        assert(mid.tasks.simulated_tasks@[e.sim_id()]
                            == pre.tasks.simulated_tasks@[e.sim_id()]);
                    },
                }
            }
            // the new current simulation is not scheduled: its id is fresh
            assert(match mid.tasks.unit_tasks@[unit_id].current_simulation_id {
                Some(c) => !scheduler::contains_sim(mid.in_progress@, c),
                None => true,
            }) by {
                if sims.len() > 0 {
                    if scheduler::contains_sim(mid.in_progress@, sims[0].id) {
                        let k = choose|k: int|
                            0 <= k < mid.in_progress@.len() && (
                            #[trigger] mid.in_progress@[k]).sim_id() == sims[0].id;
                        assert(pre.sched_entry_ok(pre.in_progress@[k]));
                        assert(pre.tasks.simulated_tasks@.contains_key(sims[0].id));
                    }
                }
            }
            // the transition mirrors the manager's new state
            if sims.len() > 0 {
                assert(sims[0].wf());
                assert(mid.tasks.simulated_tasks@[sims[0].id] == sims[0]);
                assert((t.to->Some_0).1.sim_id() == sims[0].id);
            }
            // the replaced head has left the table, and its destination is
            // on the map
            match oldut.current_simulation_id {
                Some(c) => {
                    assert(pre.tasks.queue_ok(unit_id));
                    assert(oldut.tasks@.len() > 0 && oldut.tasks@[0] == c);
                    assert(oldut.tasks@.contains(c));
                    assert(!mid.tasks.simulated_tasks@.contains_key(c)) by {
                        if mid.tasks.simulated_tasks@.contains_key(c) {
                            if crate::tasks::ids_of(sims).contains(c) {
                                let j = choose|j: int|
                                    0 <= j < crate::tasks::ids_of(sims).len()
                                        && crate::tasks::ids_of(sims)[j] == c;
                                assert(sims[j].id == c);
                                assert(!pre.tasks.simulated_tasks@.contains_key(sims[j].id));
                                assert(pre.tasks.simulated_tasks@.contains_key(c));
                            }
                        }
                    }
                    assert(pre.tasks.sim_ok(c));
                    assert(pre.tasks.simulated_tasks@[c].wf());
                },
                None => {},
            }
            assert(pre.locations@.contains_key(unit_id)) by {
                assert(pre.units@.contains(unit_id));
                let w = choose|w: int| 0 <= w < pre.units@.len() && pre.units@[w] == unit_id;
            }
            assert(mid.transition_pre(unit_id, t, Some(current_location)));
        }
        let r = self.handle_task_transition(unit_id, &transition, Some(current_location));
        proof {
            assert(transition_location(transition, Some(current_location)) is Some);
            if sims.len() > 0 {
                assert((transition.to->Some_0).1.sim_id() == sims[0].id);
            }
        }
        match r {
            Ok(()) => Ok(()),
            Err(e) => {
                proof {
                    assert(false);
                }
                Err(e)
            },
        }
    }

    /// Drops the unit's whole task queue: the unit freezes exactly where it
    /// stands at the current game time, every pending execution of the unit
    /// is discarded, and its scheduler entries leave.  Equivalent to
    /// replacing the queue by an empty one.
    pub fn clear_tasks_requested(&mut self, unit_id: UnitId) -> (r: Result<(), EngineError>)
        requires
            old(self).wf(),
        ensures
            r is Ok <==> (old(self).tasks.unit_tasks@.contains_key(unit_id) && old(
                self,
            ).location_readable(unit_id, old(self).last_time) && (old(
                self,
            ).tasks.unit_tasks@[unit_id].tasks@.len() > 0 ==> old(
                self,
            ).tasks.unit_tasks@[unit_id].sequence_number < u64::MAX)),
            r matches Err(e) ==> {
                &&& final(self).tasks.unit_tasks@ == old(self).tasks.unit_tasks@
                &&& final(self).tasks.simulated_tasks@ == old(self).tasks.simulated_tasks@
                &&& final(self).locations@ == old(self).locations@
                &&& final(self).in_progress == old(self).in_progress
                &&& final(self).perspectives@ == old(self).perspectives@
                &&& final(self).units@ == old(self).units@
                &&& final(self).players@ == old(self).players@
                &&& final(self).next_id == old(self).next_id
                &&& final(self).last_time == old(self).last_time
                &&& final(self).wf()
                &&& (e == EngineError::InvalidUnitId <==> !old(self).tasks.unit_tasks@.contains_key(
                    unit_id,
                ))
                &&& (e == EngineError::InvalidUnitId || e == EngineError::InternalError)
            },
            r is Ok ==> {
                let oldut = old(self).tasks.unit_tasks@[unit_id];
                &&& final(self).wf()
                &&& final(self).tasks.unit_tasks@[unit_id].tasks@.len() == 0
                &&& final(self).tasks.unit_tasks@[unit_id].current_simulation_id is None
                &&& final(self).tasks.unit_tasks@[unit_id].sequence_number == oldut.sequence_number
                    + if oldut.tasks@.len() > 0 {
                    1int
                } else {
                    0int
                }
                &&& final(self).locations@ == old(self).locations@.insert(
                    unit_id,
                    UnitLocation::Fixed(old(self).location_at(unit_id, old(self).last_time)),
                )
                &&& (forall|s: SimulatedId|
                    scheduler::contains_sim(final(self).in_progress@, s) <==> (
                    scheduler::contains_sim(old(self).in_progress@, s) && !(match oldut
                        .current_simulation_id {
                        Some(c) => s == c,
                        None => false,
                    })))
                &&& (forall|u: UnitId|
                    u != unit_id && #[trigger] old(self).tasks.unit_tasks@.contains_key(u)
                        ==> final(self).tasks.unit_tasks@[u] == old(self).tasks.unit_tasks@[u])
                &&& final(self).perspectives@ == old(self).perspectives@
                &&& final(self).units@ == old(self).units@
                &&& final(self).last_time == old(self).last_time
            },
    {
        let time = self.get_current_time();
        self.set_task_queue_requested(unit_id, time, Vec::new())
    }

    /// Applies a completion that the scheduler fired: the finished task
    /// leaves the unit's queue and the table, the unit advances to the next
    /// pending move (scheduling its completion) or parks at the destination
    /// it just reached, and the sequence number advances.
    ///
    /// The completion must be the one just popped from the scheduler: it
    /// names the unit's current task and is no longer scheduled.
    pub fn task_completed(
        &mut self,
        game_time: TimeStamp,
        completion: crate::tasks::CompletedTask,
    ) -> (r: Result<(), EngineError>)
        requires
            old(self).wf_core(),
            old(self).sched_complete_except(completion.unit_id),
            crate::tasks::completion_applies(old(self).tasks, completion),
            !scheduler::contains_sim(old(self).in_progress@, completion.simulation_id),
        ensures
            r is Ok,
            final(self).wf(),
            ({
                let uid = completion.unit_id;
                let oldut = old(self).tasks.unit_tasks@[uid];
                &&& final(self).tasks.unit_tasks@.dom() == old(self).tasks.unit_tasks@.dom()
                &&& final(self).tasks.unit_tasks@[uid].tasks@ == oldut.tasks@.subrange(
                    1,
                    oldut.tasks@.len() as int,
                )
                &&& final(self).tasks.unit_tasks@[uid].sequence_number == oldut.sequence_number + 1
                &&& final(self).tasks.unit_tasks@[uid].current_simulation_id == (if oldut.tasks@.len()
                    > 1 {
                    Some(oldut.tasks@[1])
                } else {
                    None::<SimulatedId>
                })
                &&& final(self).tasks.simulated_tasks@ == old(self).tasks.simulated_tasks@.remove(
                    completion.simulation_id,
                )
                &&& (forall|u: UnitId|
                    u != uid && #[trigger] old(self).tasks.unit_tasks@.contains_key(u)
                        ==> final(self).tasks.unit_tasks@[u] == old(self).tasks.unit_tasks@[u])
                &&& final(self).locations@ == old(self).locations@.insert(
                    uid,
                    if oldut.tasks@.len() > 1 {
                        UnitLocation::ByMoveTask(oldut.tasks@[1])
                    } else {
                        UnitLocation::Fixed(
                            OrientedPoint { point: task_dest(completion.task), orientation: 0 },
                        )
                    },
                )
                &&& (forall|s: SimulatedId|
                    scheduler::contains_sim(final(self).in_progress@, s) <==> (
                    scheduler::contains_sim(old(self).in_progress@, s) || (oldut.tasks@.len() > 1
                        && s == oldut.tasks@[1])))
                &&& final(self).perspectives@ == old(self).perspectives@
                &&& final(self).units@ == old(self).units@
                &&& final(self).players@ == old(self).players@
                &&& final(self).next_id == old(self).next_id
                &&& final(self).last_time == old(self).last_time
            }),
    {
        let uid = completion.unit_id;
        let ghost pre = *old(self);
        let ghost oldut = pre.tasks.unit_tasks@[uid];
        proof {
            assert(pre.tasks.queue_ok(uid));
            assert(oldut.tasks@.len() > 0 && oldut.tasks@[0] == completion.simulation_id);
        }
        let transition = match self.tasks.task_completed(game_time, completion) {
            Ok(t) => t,
            Err(e) => {
                proof {
                    assert(false);
                }
                return Err(e);
            },
        };
        proof {
            let mid = *self;
            let t = transition;
            let sim = completion.simulation_id;
            assert(pre.tasks.sim_ok(sim));
            assert(mid.units_ok()) by {
                assert forall|i: int| 0 <= i < mid.units@.len() implies {
                    let u = #[trigger] mid.units@[i];
                    &&& mid.tasks.unit_tasks@.contains_key(u)
                    &&& mid.locations@.contains_key(u)
                    &&& mid.owners@.contains_key(u)
                    &&& mid.speeds@.contains_key(u)
                    &&& mid.unit_display_types@.contains_key(u)
                } by {
                    assert(pre.tasks.unit_tasks@.contains_key(mid.units@[i]));
                }
                assert forall|u: UnitId| #[trigger] mid.tasks.unit_tasks@.contains_key(u) implies
                    mid.units@.contains(u) by {
                    assert(pre.tasks.unit_tasks@.contains_key(u));
                }
            }
            assert(mid.perspectives_ok()) by {
                assert forall|p: PlayerId| #[trigger] mid.perspectives@.contains_key(p) implies {
                    let persp = mid.perspectives@[p];
                    &&& persp.wf()
                    &&& (forall|u: UnitId|
                        #[trigger] perspective::persp_has(persp.last_update@, u) ==> {
                            &&& mid.tasks.unit_tasks@.contains_key(u)
                            &&& perspective::persp_at(persp.last_update@, u)
                                <= mid.tasks.unit_tasks@[u].sequence_number
                        })
                } by {
                    assert(pre.perspectives@.contains_key(p));
                    let persp = mid.perspectives@[p];
                    assert(persp == pre.perspectives@[p]);
                    assert forall|u: UnitId|
                        #[trigger] perspective::persp_has(persp.last_update@, u) implies {
                        &&& mid.tasks.unit_tasks@.contains_key(u)
                        &&& perspective::persp_at(persp.last_update@, u)
                            <= mid.tasks.unit_tasks@[u].sequence_number
                    } by {
                        assert(pre.tasks.unit_tasks@.contains_key(u));
                        if u != uid {
                            assert(mid.tasks.unit_tasks@[u] == pre.tasks.unit_tasks@[u]);
                        }
                    }
                }
            }
            assert(mid.ids_ok());
            // every scheduler entry is still sound: none of them belongs to
            // this unit, whose only scheduled task was just popped
            assert forall|k: int| 0 <= k < mid.in_progress@.len() implies mid.sched_entry_ok(
                #[trigger] mid.in_progress@[k],
            ) by {
                let e = mid.in_progress@[k];
                assert(pre.in_progress@[k] == e);
                assert(pre.sched_entry_ok(e));
                assert(e.sim_id() != sim) by {
                    if e.sim_id() == sim {
                        assert(scheduler::contains_sim(pre.in_progress@, sim));
                    }
                }
                assert(e.unit_id() != uid) by {
                    if e.unit_id() == uid {
                        assert(pre.tasks.unit_tasks@[uid].current_simulation_id == Some(
                            e.sim_id(),
                        ));
                    }
                }
                assert(mid.tasks.unit_tasks@[e.unit_id()] == pre.tasks.unit_tasks@[e.unit_id()]);
                assert(mid.tasks.simulated_tasks@.contains_key(e.sim_id()));
                assert(mid.tasks.simulated_tasks@[e.sim_id()]
                    == pre.tasks.simulated_tasks@[e.sim_id()]);
            }
            // the next pending move, if any, is not scheduled yet
            assert(match mid.tasks.unit_tasks@[uid].current_simulation_id {
                Some(c) => !scheduler::contains_sim(mid.in_progress@, c),
                None => true,
            }) by {
                if oldut.tasks@.len() > 1 {
                    let next = oldut.tasks@[1];
                    if scheduler::contains_sim(mid.in_progress@, next) {
                        let k = choose|k: int|
                            0 <= k < mid.in_progress@.len() && (
                            #[trigger] mid.in_progress@[k]).sim_id() == next;
                        let e = pre.in_progress@[k];
                        assert(pre.sched_entry_ok(e));
                        assert(pre.tasks.sim_ok(next));
                        assert(pre.tasks.simulated_tasks@[next].unit_id() == uid) by {
                            assert(pre.tasks.queue_ok(uid));
                        }
                        assert(pre.tasks.unit_tasks@[e.unit_id()].current_simulation_id == Some(
                            next,
                        ));
                        assert(e.unit_id() == uid);
                        assert(pre.tasks.unit_tasks@[uid].current_simulation_id == Some(sim));
                    }
                }
            }
            // the transition's target mirrors the manager
            if oldut.tasks@.len() > 1 {
                let next = oldut.tasks@[1];
                assert(pre.tasks.queue_ok(uid));
                assert(pre.tasks.simulated_tasks@.contains_key(next));
                assert(next != sim);
                assert(mid.tasks.simulated_tasks@.contains_key(next));
                assert(pre.tasks.sim_ok(next));
                assert(pre.tasks.simulated_tasks@[next].wf());
                assert((t.to->Some_0).1.sim_id() == next);
                assert((t.to->Some_0).1.unit_id() == uid) by {
                    assert(pre.tasks.simulated_tasks@[next].unit_id() == uid);
                }
            }
            // the finished task: no longer scheduled, no longer in the
            // table, and its destination is on the map
            assert(!mid.tasks.simulated_tasks@.contains_key(sim));
            assert(pre.tasks.simulated_tasks@[sim].wf());
            assert(completion.task == pre.tasks.simulated_tasks@[sim].task);
            assert(pre.locations@.contains_key(uid)) by {
                assert(pre.units@.contains(uid));
                let w = choose|w: int| 0 <= w < pre.units@.len() && pre.units@[w] == uid;
            }
            assert(mid.transition_pre(uid, t, None));
        }
        let r = self.handle_task_transition(uid, &transition, None);
        proof {
            assert(transition_location(transition, None) is Some);
            if oldut.tasks@.len() > 1 {
                assert((transition.to->Some_0).1.sim_id() == oldut.tasks@[1]);
            }
        }
        match r {
            Ok(()) => Ok(()),
            Err(e) => {
                proof {
                    assert(false);
                }
                Err(e)
            },
        }
    }

    /// The animation queue a client should hold for this unit: the segments
    /// of its pending moves while it is moving, or one stationary segment
    /// anchored at the current game time while it is parked.
    pub open spec fn animate_queue_ok(self, unit_id: UnitId, q: Seq<AnimationSegment>) -> bool {
        match self.locations@[unit_id] {
            UnitLocation::ByMoveTask(_) => {
                let ids = self.tasks.queue_of(unit_id);
                &&& q.len() == ids.len()
                &&& (forall|i: int|
                    0 <= i < ids.len() ==> #[trigger] q[i]
                        == self.tasks.simulated_tasks@[ids[i]].animation)
            },
            UnitLocation::Fixed(p) => q == seq![stationary_segment(p, self.last_time)],
        }
    }

    /// The full animated description of one unit, as sent in a show or
    /// update event.  Fails with `InternalError` when the unit has no
    /// display type; a unit without a location yields nothing.
    pub fn animate(&self, _player_perspective: PlayerId, unit_id: UnitId) -> (r: Result<
        Option<Animatable>,
        EngineError,
    >)
        requires
            self.wf_core(),
        ensures
            !self.unit_display_types@.contains_key(unit_id) ==> r == Err::<
                Option<Animatable>,
                EngineError,
            >(EngineError::InternalError),
            self.unit_display_types@.contains_key(unit_id) && !self.locations@.contains_key(unit_id)
                ==> r == Ok::<Option<Animatable>, EngineError>(None),
            self.unit_display_types@.contains_key(unit_id) && self.locations@.contains_key(unit_id)
                ==> (r matches Ok(a) && a matches Some(a) && a.unit_id == unit_id && a.display_type
                == self.unit_display_types@[unit_id] && self.animate_queue_ok(unit_id, a.queue@)),
    {
        let display_type = match self.unit_display_types.get(&unit_id) {
            Some(dt) => *dt,
            None => {
                return Err(EngineError::InternalError);
            },
        };
        let queue: Option<Vec<AnimationSegment>> = match self.locations.get(&unit_id) {
            Some(UnitLocation::ByMoveTask(_)) => {
                proof {
                    assert(self.locations@.contains_key(unit_id));
                    assert(self.units@.contains(unit_id));
                    let w = choose|w: int|
                        0 <= w < self.units@.len() && self.units@[w] == unit_id;
                    assert(self.tasks.unit_tasks@.contains_key(unit_id));
                    assert(self.tasks.queue_ok(unit_id));
                }
                let ut = match self.tasks.unit_tasks.get(&unit_id) {
                    Some(ut) => ut,
                    None => {
                        proof {
                            assert(false);
                        }
                        return Err(EngineError::InternalError);
                    },
                };
                let mut segs: Vec<AnimationSegment> = Vec::new();
                let mut i: usize = 0;
                while i < ut.tasks.len()
                    invariant
                        i <= ut.tasks@.len(),
                        self.wf_core(),
                        self.tasks.unit_tasks@.contains_key(unit_id),
                        ut == self.tasks.unit_tasks@[unit_id],
                        segs@.len() == i,
                        forall|k: int|
                            0 <= k < i ==> #[trigger] segs@[k]
                                == self.tasks.simulated_tasks@[ut.tasks@[k]].animation,
                    decreases ut.tasks@.len() - i,
                {
                    proof {
                        assert(self.tasks.queue_ok(unit_id));
                    }
                    let sid = ut.tasks[i];
                    let seg = match self.tasks.simulated_tasks.get(&sid) {
                        Some(st) => st.animation,
                        None => {
                            proof {
                                assert(false);
                            }
                            return Err(EngineError::InternalError);
                        },
                    };
                    segs.push(seg);
                    i += 1;
                }
                Some(segs)
            },
            Some(UnitLocation::Fixed(position)) => {
                let mut segs: Vec<AnimationSegment> = Vec::new();
                segs.push(
                    AnimationSegment {
                        begin_time: self.last_time,
                        begin_location: position.point,
                        delta: None,
                        begin_orientation: position.orientation,
                        d_orientation: None,
                    },
                );
                proof {
                    assert(segs@ =~= seq![stationary_segment(*position, self.last_time)]);
                }
                Some(segs)
            },
            None => None,
        };
        Ok(
            match queue {
                Some(queue) => Some(Animatable { unit_id, display_type, queue }),
                None => None,
            },
        )
    }

    /// An upsert event carries what the staged entry dictates: a full show
    /// for a newly visible unit, the new animation queue for a changed one.
    pub open spec fn upsert_event_ok(
        self,
        e: PublishEvent,
        entry: (UnitId, SequenceNumber, bool),
    ) -> bool {
        if entry.2 {
            match e {
                PublishEvent::UnitCreated(a) => {
                    &&& a.unit_id == entry.0
                    &&& self.unit_display_types@.contains_key(entry.0)
                    &&& a.display_type == self.unit_display_types@[entry.0]
                    &&& self.animate_queue_ok(entry.0, a.queue@)
                },
                _ => false,
            }
        } else {
            match e {
                PublishEvent::TasksUpdated(ev) => {
                    &&& ev.unit_id == entry.0
                    &&& self.animate_queue_ok(entry.0, ev.tasks@)
                },
                _ => false,
            }
        }
    }

    /// The staged upserts of one broadcast pass for `player_id` against the
    /// current state.
    pub open spec fn staged_for(self, player_id: PlayerId) -> Seq<(UnitId, SequenceNumber, bool)> {
        crate::tasks::staged_upserts(
            self.tasks.unit_tasks@,
            self.perspectives@[player_id].last_update@,
            self.units@,
        )
    }

    /// Runs one broadcast pass for one subscriber: diffs every unit's
    /// sequence number against the subscriber's record, materializes one
    /// show or update event per stale unit (in unit creation order), and
    /// advances the record to the current sequence numbers.  Returns the
    /// events for the bridge to transmit.
    ///
    /// Fails with `InternalError`, changing nothing, only when the player
    /// is unknown.
    pub fn send_perspective_updates(&mut self, player_id: PlayerId) -> (r: Result<
        Vec<PublishEvent>,
        EngineError,
    >)
        requires
            old(self).wf(),
        ensures
            r is Ok <==> old(self).perspectives@.contains_key(player_id),
            r is Err ==> r == Err::<Vec<PublishEvent>, EngineError>(EngineError::InternalError)
                && *final(self) == *old(self),
            r matches Ok(evs) ==> {
                let staged = old(self).staged_for(player_id);
                &&& final(self).wf()
                &&& evs@.len() == staged.len()
                &&& (forall|i: int|
                    0 <= i < staged.len() ==> old(self).upsert_event_ok(
                        #[trigger] evs@[i],
                        staged[i],
                    ))
                &&& final(self).perspectives@.dom() == old(self).perspectives@.dom()
                &&& (forall|p: PlayerId|
                    p != player_id && #[trigger] old(self).perspectives@.contains_key(p)
                        ==> final(self).perspectives@[p] == old(self).perspectives@[p])
                &&& (forall|j: int|
                    0 <= j < old(self).units@.len() ==> {
                        let u = #[trigger] old(self).units@[j];
                        &&& perspective::persp_has(
                            final(self).perspectives@[player_id].last_update@,
                            u,
                        )
                        &&& perspective::persp_at(
                            final(self).perspectives@[player_id].last_update@,
                            u,
                        ) == old(self).tasks.unit_tasks@[u].sequence_number
                    })
                &&& final(self).tasks == old(self).tasks
                &&& final(self).locations@ == old(self).locations@
                &&& final(self).in_progress == old(self).in_progress
                &&& final(self).units@ == old(self).units@
                &&& final(self).players@ == old(self).players@
                &&& final(self).next_id == old(self).next_id
                &&& final(self).last_time == old(self).last_time
            },
    {
        if !self.perspectives.contains_key(&player_id) {
            return Err(EngineError::InternalError);
        }
        let mut updates = PerspectiveUpdates::new(player_id);
        let ghost staged = self.staged_for(player_id);
        match self.perspectives.get(&player_id) {
            Some(persp) => {
                proof {
                    assert(persp.wf());
                    assert forall|i: int| 0 <= i < self.units@.len() implies
                        self.tasks.unit_tasks@.contains_key(#[trigger] self.units@[i]) by {}
                }
                self.tasks.show_perspective(&self.units, persp, &mut updates);
            },
            None => {
                proof {
                    assert(false);
                }
                return Err(EngineError::InternalError);
            },
        }
        proof {
            crate::tasks::lemma_staged_upserts_props(
                self.tasks.unit_tasks@,
                self.perspectives@[player_id].last_update@,
                self.units@,
            );
            assert(updates.units_to_upsert@ == staged);
        }

        // materialize the events before touching any state, so a failure
        // would leave everything as it was
        let mut events: Vec<PublishEvent> = Vec::new();
        let mut i: usize = 0;
        while i < updates.units_to_upsert.len()
            invariant
                i <= updates.units_to_upsert@.len(),
                *self == *old(self),
                self.wf(),
                updates.units_to_upsert@ == staged,
                staged == self.staged_for(player_id),
                self.perspectives@.contains_key(player_id),
                forall|k: int|
                    0 <= k < staged.len() ==> exists|j: int|
                        0 <= j < self.units@.len() && (#[trigger] staged[k]).0 == self.units@[j],
                events@.len() == i,
                forall|k: int|
                    0 <= k < i ==> self.upsert_event_ok(#[trigger] events@[k], staged[k]),
            decreases updates.units_to_upsert@.len() - i,
        {
            let (u, _, is_new) = updates.units_to_upsert[i];
            proof {
                let j = choose|j: int| 0 <= j < self.units@.len() && staged[i as int].0
                    == self.units@[j];
                assert(self.units@.contains(u));
                assert(self.unit_display_types@.contains_key(u));
                assert(self.locations@.contains_key(u));
            }
            let animatable = match self.animate(player_id, u) {
                Ok(Some(a)) => a,
                _ => {
                    proof {
                        assert(false);
                    }
                    return Err(EngineError::InternalError);
                },
            };
            if is_new {
                events.push(PublishEvent::UnitCreated(animatable));
            } else {
                events.push(
                    PublishEvent::TasksUpdated(
                        TasksUpdatedEvent { unit_id: u, tasks: animatable.queue },
                    ),
                );
            }
            i += 1;
        }

        // advance the subscriber's record
        let mut persp = match self.perspectives.remove(&player_id) {
            Some(p) => p,
            None => {
                proof {
                    assert(false);
                }
                return Err(EngineError::InternalError);
            },
        };
        proof {
            assert(persp == old(self).perspectives@[player_id]);
            assert(old(self).perspectives_ok());
        }
        persp.apply_changes(&updates);
        self.perspectives.insert(player_id, persp);
        proof {
            let pre = *old(self);
            let post = *self;
            assert(post.perspectives@.dom() =~= pre.perspectives@.dom());
            let oldp = pre.perspectives@[player_id].last_update@;
            let newp = post.perspectives@[player_id].last_update@;
            // every unit's record is now its current sequence number
            assert forall|j: int| 0 <= j < pre.units@.len() implies {
                let u = #[trigger] pre.units@[j];
                &&& perspective::persp_has(newp, u)
                &&& perspective::persp_at(newp, u) == pre.tasks.unit_tasks@[u].sequence_number
            } by {
                let u = pre.units@[j];
                let s = pre.tasks.unit_tasks@[u].sequence_number;
                let dec = perspective::upsert_decision(oldp, u, s);
                match dec {
                    Some(e) => {
                        assert(staged.contains(e));
                        let k = choose|k: int| 0 <= k < staged.len() && staged[k] == e;
                        assert(updates.units_to_upsert@[k] == e);
                        assert(e.0 == u && e.1 == s);
                    },
                    None => {
                        assert(perspective::persp_has(oldp, u));
                        assert(perspective::persp_at(oldp, u) <= s);
                        assert(perspective::persp_at(oldp, u) >= s);
                        assert(!perspective::upserts_name(staged, u)) by {
                            if perspective::upserts_name(staged, u) {
                                let k = choose|k: int|
                                    0 <= k < staged.len() && (#[trigger] staged[k]).0 == u;
                                let j2 = choose|j2: int|
                                    0 <= j2 < pre.units@.len()
                                        && perspective::upsert_decision(
                                        oldp,
                                        pre.units@[j2],
                                        pre.tasks.unit_tasks@[pre.units@[j2]].sequence_number,
                                    ) == Some(staged[k]) && staged[k].0 == pre.units@[j2];
                                assert(pre.units@[j2] == u && pre.units@[j] == u);
                                assert(j2 == j);
                            }
                        }
                        assert(!perspective::removes_name(updates.units_to_remove@, u));
                    },
                }
            }
            // the perspective table still satisfies the master invariant
            assert forall|p: PlayerId| #[trigger] post.perspectives@.contains_key(p) implies {
                let persp2 = post.perspectives@[p];
                &&& persp2.wf()
                &&& (forall|u: UnitId|
                    #[trigger] perspective::persp_has(persp2.last_update@, u) ==> {
                        &&& post.tasks.unit_tasks@.contains_key(u)
                        &&& perspective::persp_at(persp2.last_update@, u)
                            <= post.tasks.unit_tasks@[u].sequence_number
                    })
            } by {
                assert(pre.perspectives@.contains_key(p));
                if p != player_id {
                    assert(post.perspectives@[p] == pre.perspectives@[p]);
                } else {
                    let persp2 = post.perspectives@[p];
                    assert forall|u: UnitId|
                        #[trigger] perspective::persp_has(persp2.last_update@, u) implies {
                        &&& post.tasks.unit_tasks@.contains_key(u)
                        &&& perspective::persp_at(persp2.last_update@, u)
                            <= post.tasks.unit_tasks@[u].sequence_number
                    } by {
                        if perspective::upserts_name(staged, u) {
                            let k = choose|k: int|
                                0 <= k < staged.len() && (#[trigger] staged[k]).0 == u;
                            let j = choose|j: int|
                                0 <= j < pre.units@.len() && perspective::upsert_decision(
                                    oldp,
                                    pre.units@[j],
                                    pre.tasks.unit_tasks@[pre.units@[j]].sequence_number,
                                ) == Some(staged[k]) && staged[k].0 == pre.units@[j];
                            assert(updates.units_to_upsert@[k] == staged[k]);
                            assert(perspective::persp_at(persp2.last_update@, u) == staged[k].1);
                            assert(pre.tasks.unit_tasks@.contains_key(u));
                        } else {
                            assert(!perspective::removes_name(updates.units_to_remove@, u));
                            assert(perspective::persp_has(oldp, u));
                            assert(perspective::persp_at(persp2.last_update@, u)
                                == perspective::persp_at(oldp, u));
                        }
                    }
                }
            }
        }
        Ok(events)
    }

    /// Runs the broadcast pass for every subscriber, in join order, and
    /// returns each subscriber's events addressed to it.
    pub fn send_incremental_updates(&mut self) -> (r: Result<Vec<AddressedEvent>, EngineError>)
        requires
            old(self).wf(),
        ensures
            r is Ok,
            final(self).wf(),
            final(self).tasks == old(self).tasks,
            final(self).locations@ == old(self).locations@,
            final(self).in_progress == old(self).in_progress,
            final(self).units@ == old(self).units@,
            final(self).players@ == old(self).players@,
            final(self).next_id == old(self).next_id,
            final(self).last_time == old(self).last_time,
            final(self).perspectives@.dom() == old(self).perspectives@.dom(),
            r matches Ok(evs) ==> {
                &&& (forall|i: int|
                    0 <= i < evs@.len() ==> ((#[trigger] evs@[i]).recipient matches Some(p)
                        && final(self).players@.contains(p)))
                // after the pass, every subscriber's record of every unit is
                // the unit's current sequence number
                &&& (forall|k: int, j: int|
                    0 <= k < final(self).players@.len() && 0 <= j < final(self).units@.len() ==> {
                        let p = #[trigger] final(self).players@[k];
                        let u = #[trigger] final(self).units@[j];
                        &&& perspective::persp_has(
                            final(self).perspectives@[p].last_update@,
                            u,
                        )
                        &&& perspective::persp_at(final(self).perspectives@[p].last_update@, u)
                            == final(self).tasks.unit_tasks@[u].sequence_number
                    })
            },
    {
        let mut out: Vec<AddressedEvent> = Vec::new();
        let n = self.players.len();
        let mut k: usize = 0;
        while k < n
            invariant
                k <= n,
                n == self.players@.len(),
                self.wf(),
                self.players@ == old(self).players@,
                self.units@ == old(self).units@,
                self.tasks == old(self).tasks,
                self.locations@ == old(self).locations@,
                self.in_progress == old(self).in_progress,
                self.next_id == old(self).next_id,
                self.last_time == old(self).last_time,
                self.perspectives@.dom() == old(self).perspectives@.dom(),
                forall|i: int|
                    0 <= i < out@.len() ==> ((#[trigger] out@[i]).recipient matches Some(p)
                        && self.players@.contains(p)),
                forall|k2: int, j: int|
                    0 <= k2 < k && 0 <= j < self.units@.len() ==> {
                        let p = #[trigger] self.players@[k2];
                        let u = #[trigger] self.units@[j];
                        &&& perspective::persp_has(self.perspectives@[p].last_update@, u)
                        &&& perspective::persp_at(self.perspectives@[p].last_update@, u)
                            == self.tasks.unit_tasks@[u].sequence_number
                    },
            decreases n - k,
        {
            let player_id = self.players[k];
            proof {
                assert(self.perspectives@.contains_key(player_id));
            }
            let evs = match self.send_perspective_updates(player_id) {
                Ok(evs) => evs,
                Err(e) => {
                    proof {
                        assert(false);
                    }
                    return Err(e);
                },
            };
            let mut evs = evs;
            while evs.len() > 0
                invariant
                    self.players@.contains(player_id),
                    forall|i: int|
                        0 <= i < out@.len() ==> ((#[trigger] out@[i]).recipient matches Some(p)
                            && self.players@.contains(p)),
                decreases evs@.len(),
            {
                let ev = evs.remove(0);
                out.push(AddressedEvent { recipient: Some(player_id), event: ev });
            }
            proof {
                assert forall|k2: int, j: int|
                    0 <= k2 < k + 1 && 0 <= j < self.units@.len() implies {
                    let p = #[trigger] self.players@[k2];
                    let u = #[trigger] self.units@[j];
                    &&& perspective::persp_has(self.perspectives@[p].last_update@, u)
                    &&& perspective::persp_at(self.perspectives@[p].last_update@, u)
                        == self.tasks.unit_tasks@[u].sequence_number
                } by {
                    if k2 < k && self.players@[k2] != player_id {
                    }
                }
            }
            k += 1;
        }
        Ok(out)
    }

    /// Law: on every tick, for every unit, a subscriber's recorded sequence
    /// number never exceeds the unit's current sequence number.
    pub proof fn lemma_perspective_not_ahead(self, p: PlayerId, u: UnitId)
        requires
            self.wf(),
            self.perspectives@.contains_key(p),
            perspective::persp_has(self.perspectives@[p].last_update@, u),
        ensures
            self.tasks.unit_tasks@.contains_key(u),
            perspective::persp_at(self.perspectives@[p].last_update@, u)
                <= self.tasks.unit_tasks@[u].sequence_number,
    {
    }

    /// Law: once a unit's location is pinned — as a cleared queue pins it to
    /// the position at the instant of the clear — every later location read
    /// returns that same position, whatever the time.
    pub proof fn lemma_cleared_location_frozen(self, u: UnitId, p: OrientedPoint, t: TimeStamp)
        requires
            self.locations@.contains_key(u),
            self.locations@[u] == UnitLocation::Fixed(p),
        ensures
            self.location_readable(u, t),
            self.location_at(u, t) == p,
    {
    }

    /// Drops every pending completion of this unit from the scheduler.
    pub fn clear_upcoming_by_unit(&mut self, unit_id: UnitId)
        requires
            old(self).in_progress.wf(),
        ensures
            *final(self) == (GameState { in_progress: final(self).in_progress, ..*old(self) }),
            final(self).in_progress.wf(),
            forall|i: int|
                0 <= i < final(self).in_progress@.len() ==> old(self).in_progress@.contains(
                    #[trigger] final(self).in_progress@[i],
                ) && (final(self).in_progress@[i]).unit_id() != unit_id,
            forall|j: int|
                0 <= j < old(self).in_progress@.len() && (
                #[trigger] old(self).in_progress@[j]).unit_id() != unit_id
                    ==> final(self).in_progress@.contains(old(self).in_progress@[j]),
            scheduler::distinct_sims(old(self).in_progress@) ==> scheduler::distinct_sims(
                final(self).in_progress@,
            ),
            !scheduler::contains_unit(final(self).in_progress@, unit_id),
    {
        self.in_progress.clear_by_unit(unit_id);
    }

    /// Drops every pending completion of this simulation from the
    /// scheduler.
    pub fn clear_upcoming_by_simulation_id(&mut self, simulation_id: SimulatedId)
        requires
            old(self).in_progress.wf(),
        ensures
            *final(self) == (GameState { in_progress: final(self).in_progress, ..*old(self) }),
            final(self).in_progress.wf(),
            forall|i: int|
                0 <= i < final(self).in_progress@.len() ==> old(self).in_progress@.contains(
                    #[trigger] final(self).in_progress@[i],
                ) && (final(self).in_progress@[i]).sim_id() != simulation_id,
            forall|j: int|
                0 <= j < old(self).in_progress@.len() && (
                #[trigger] old(self).in_progress@[j]).sim_id() != simulation_id
                    ==> final(self).in_progress@.contains(old(self).in_progress@[j]),
            scheduler::distinct_sims(old(self).in_progress@) ==> scheduler::distinct_sims(
                final(self).in_progress@,
            ),
            !scheduler::contains_sim(final(self).in_progress@, simulation_id),
    {
        self.in_progress.clear_by_simulation_id(simulation_id);
    }

    /// Parks the unit at the destination it just reached.  The arrival
    /// orientation is reset to zero; a moving unit faces as it faced when
    /// the move began, and the display layer owns anything finer.
    pub fn finished_moving(&mut self, unit_id: UnitId, destination: crate::model::Point)
        requires
            destination.in_bounds(),
        ensures
            *final(self) == (GameState { locations: final(self).locations, ..*old(self) }),
            final(self).locations@ == old(self).locations@.insert(
                unit_id,
                UnitLocation::Fixed(OrientedPoint { point: destination, orientation: 0 }),
            ),
    {
        self.locations.insert(
            unit_id,
            UnitLocation::Fixed(OrientedPoint { point: destination, orientation: 0 }),
        );
    }

    /// Forgets a subscriber: its perspective and its place in the player
    /// list are dropped.
    pub fn remove_player(&mut self, player_id: PlayerId)
        requires
            old(self).wf(),
        ensures
            final(self).wf(),
            final(self).perspectives@ == old(self).perspectives@.remove(player_id),
            !final(self).players@.contains(player_id),
            forall|p: PlayerId|
                p != player_id ==> (final(self).players@.contains(p) <==> old(
                    self,
                ).players@.contains(p)),
            final(self).tasks == old(self).tasks,
            final(self).locations@ == old(self).locations@,
            final(self).in_progress == old(self).in_progress,
            final(self).units@ == old(self).units@,
            final(self).next_id == old(self).next_id,
            final(self).last_time == old(self).last_time,
    {
        self.perspectives.remove(&player_id);
        proof {
            assert(self.perspectives@ =~= old(self).perspectives@.remove(player_id));
        }
        let mut i: usize = 0;
        while i < self.players.len()
            invariant
                i <= self.players@.len(),
                self.players@ == old(self).players@,
                self.perspectives@ == old(self).perspectives@.remove(player_id),
                old(self).wf(),
                forall|j: int| 0 <= j < i ==> (#[trigger] self.players@[j]) != player_id,
                *self == (GameState {
                    players: self.players,
                    perspectives: self.perspectives,
                    ..*old(self)
                }),
            decreases self.players@.len() - i,
        {
            if self.players[i] == player_id {
                let ghost prev = self.players@;
                self.players.remove(i);
                proof {
                    let s = self.players@;
                    assert forall|j: int| 0 <= j < s.len() implies (#[trigger] s[j]) != player_id
                        by {
                        if j < i {
                            assert(s[j] == prev[j]);
                        } else {
                            assert(s[j] == prev[j + 1]);
                        }
                    }
                    assert forall|a: int, b: int| 0 <= a < b < s.len() implies (
                    #[trigger] s[a]) != (#[trigger] s[b]) by {
                        let a2 = if a < i { a } else { a + 1 };
                        let b2 = if b < i { b } else { b + 1 };
                        assert(s[a] == prev[a2] && s[b] == prev[b2]);
                    }
                    assert forall|p: PlayerId|
                        p != player_id && prev.contains(p) implies s.contains(p) by {
                        let w = choose|w: int| 0 <= w < prev.len() && prev[w] == p;
                        let w2 = if w < i { w } else { w - 1 };
                        assert(s[w2] == prev[w]);
                    }
                    assert forall|p: PlayerId| s.contains(p) implies prev.contains(p) by {
                        let w = choose|w: int| 0 <= w < s.len() && s[w] == p;
                        let w2 = if w < i { w } else { w + 1 };
                        assert(prev[w2] == s[w]);
                    }
                    assert forall|k: int| 0 <= k < s.len() implies
                        self.perspectives@.contains_key(#[trigger] s[k]) by {
                        let k2 = if k < i { k } else { k + 1 };
                        assert(s[k] == prev[k2]);
                        assert(old(self).perspectives@.contains_key(prev[k2]));
                    }
                    assert forall|p: PlayerId| #[trigger] self.perspectives@.contains_key(p)
                        implies s.contains(p) by {
                        assert(old(self).perspectives@.contains_key(p));
                        assert(p != player_id);
                        assert(prev.contains(p));
                    }
                }
                return ;
            }
            i += 1;
        }
        proof {
            assert(!self.players@.contains(player_id)) by {
                if self.players@.contains(player_id) {
                    let w = choose|w: int|
                        0 <= w < self.players@.len() && self.players@[w] == player_id;
                }
            }
            assert forall|p: PlayerId| #[trigger] self.perspectives@.contains_key(p) implies
                self.players@.contains(p) by {
                assert(old(self).perspectives@.contains_key(p));
            }
        }
    }

    /// Registers a new unit: owned by `player_id`, attributes drawn from
    /// the template, parked at `location`, with an empty task queue.
    pub fn add_unit(
        &mut self,
        player_id: PlayerId,
        unit_id: UnitId,
        template: UnitTemplate,
        location: OrientedPoint,
    )
        requires
            old(self).wf(),
            !old(self).tasks.unit_tasks@.contains_key(unit_id),
            !old(self).units@.contains(unit_id),
            unit_id < old(self).next_id,
            location.in_bounds(),
            template.speed is Some,
            template.display_type is Some,
        ensures
            final(self).wf(),
            final(self).units@ == old(self).units@.push(unit_id),
            final(self).tasks.unit_tasks@.contains_key(unit_id),
            final(self).tasks.unit_tasks@[unit_id].sequence_number == 0,
            final(self).tasks.unit_tasks@[unit_id].current_simulation_id is None,
            final(self).tasks.unit_tasks@[unit_id].tasks@.len() == 0,
            final(self).tasks.simulated_tasks@ == old(self).tasks.simulated_tasks@,
            forall|u: UnitId|
                u != unit_id && #[trigger] old(self).tasks.unit_tasks@.contains_key(u)
                    ==> final(self).tasks.unit_tasks@[u] == old(self).tasks.unit_tasks@[u],
            final(self).locations@ == old(self).locations@.insert(
                unit_id,
                UnitLocation::Fixed(location),
            ),
            final(self).owners@ == old(self).owners@.insert(unit_id, player_id),
            final(self).speeds@ == match template.speed {
                Some(s) => old(self).speeds@.insert(unit_id, s),
                None => old(self).speeds@,
            },
            final(self).unit_display_types@ == match template.display_type {
                Some(d) => old(self).unit_display_types@.insert(unit_id, d),
                None => old(self).unit_display_types@,
            },
            final(self).in_progress == old(self).in_progress,
            final(self).perspectives@ == old(self).perspectives@,
            final(self).players@ == old(self).players@,
            final(self).next_id == old(self).next_id,
            final(self).last_time == old(self).last_time,
    {
        self.owners.insert(unit_id, player_id);
        self.tasks.unit_created(unit_id);
        if let Some(health) = template.health {
            self.health.insert(unit_id, health);
        }
        if let Some(speed) = template.speed {
            self.speeds.insert(unit_id, speed);
        }
        if let Some(display_type) = template.display_type {
            self.unit_display_types.insert(unit_id, display_type);
        }
        self.locations.insert(unit_id, UnitLocation::Fixed(location));
        self.units.push(unit_id);
        proof {
            let post = *self;
            let pre = *old(self);
            assert forall|i: int, j: int| 0 <= i < j < post.units@.len() implies (
            #[trigger] post.units@[i]) != (#[trigger] post.units@[j]) by {
                if j == post.units@.len() - 1 {
                    assert(post.units@[j] == unit_id);
                    if i < j {
                        assert(post.units@[i] == pre.units@[i]);
                        assert(pre.units@.contains(pre.units@[i]) ==> true);
                        if post.units@[i] == unit_id {
                            assert(pre.units@[i] == unit_id);
                            assert(pre.units@.contains(unit_id));
                        }
                    }
                } else {
                    assert(post.units@[i] == pre.units@[i]);
                    assert(post.units@[j] == pre.units@[j]);
                }
            }
            assert forall|u: UnitId| #[trigger] post.tasks.unit_tasks@.contains_key(u) implies
                post.units@.contains(u) by {
                if u == unit_id {
                    assert(post.units@[post.units@.len() - 1] == u);
                } else {
                    assert(pre.tasks.unit_tasks@.contains_key(u));
                    let w = choose|w: int| 0 <= w < pre.units@.len() && pre.units@[w] == u;
                    assert(post.units@[w] == u);
                }
            }
            assert forall|u: UnitId| #[trigger] post.locations@.contains_key(u) implies
                post.units@.contains(u) by {
                if u == unit_id {
                    assert(post.units@[post.units@.len() - 1] == u);
                } else {
                    assert(pre.locations@.contains_key(u));
                    let w = choose|w: int| 0 <= w < pre.units@.len() && pre.units@[w] == u;
                    assert(post.units@[w] == u);
                }
            }
            assert forall|u: UnitId| #[trigger] post.owners@.contains_key(u) implies
                post.units@.contains(u) by {
                if u == unit_id {
                    assert(post.units@[post.units@.len() - 1] == u);
                } else {
                    assert(pre.owners@.contains_key(u));
                    let w = choose|w: int| 0 <= w < pre.units@.len() && pre.units@[w] == u;
                    assert(post.units@[w] == u);
                }
            }
            assert forall|u: UnitId| #[trigger] post.speeds@.contains_key(u) implies
                post.units@.contains(u) by {
                if u == unit_id {
                    assert(post.units@[post.units@.len() - 1] == u);
                } else {
                    assert(pre.speeds@.contains_key(u));
                    let w = choose|w: int| 0 <= w < pre.units@.len() && pre.units@[w] == u;
                    assert(post.units@[w] == u);
                }
            }
            assert forall|u: UnitId| #[trigger] post.health@.contains_key(u) implies
                post.units@.contains(u) by {
                if u == unit_id {
                    assert(post.units@[post.units@.len() - 1] == u);
                } else {
                    assert(pre.health@.contains_key(u));
                    let w = choose|w: int| 0 <= w < pre.units@.len() && pre.units@[w] == u;
                    assert(post.units@[w] == u);
                }
            }
            assert forall|u: UnitId| #[trigger] post.unit_display_types@.contains_key(u) implies
                post.units@.contains(u) by {
                if u == unit_id {
                    assert(post.units@[post.units@.len() - 1] == u);
                } else {
                    assert(pre.unit_display_types@.contains_key(u));
                    let w = choose|w: int| 0 <= w < pre.units@.len() && pre.units@[w] == u;
                    assert(post.units@[w] == u);
                }
            }
            assert forall|i: int| 0 <= i < post.units@.len() implies {
                let u = #[trigger] post.units@[i];
                &&& post.tasks.unit_tasks@.contains_key(u)
                &&& post.locations@.contains_key(u)
                &&& post.owners@.contains_key(u)
                &&& post.speeds@.contains_key(u)
                &&& post.unit_display_types@.contains_key(u)
            } by {
                if i < post.units@.len() - 1 {
                    assert(post.units@[i] == pre.units@[i]);
                }
            }
            assert(post.ids_ok()) by {
                assert forall|i: int| 0 <= i < post.units@.len() implies (#[trigger] post.units@[i])
                    < post.next_id by {
                    if i < post.units@.len() - 1 {
                        assert(post.units@[i] == pre.units@[i]);
                    }
                }
            }
        }
    }
}

} // verus!
