//! Per-unit task queues: simulated tasks, the transitions between them, and
//! the manager that owns both tables.

use crate::engine::EngineError;
use crate::model::{AnimationSegment, SequenceNumber, SimulatedId, Task, TimeStamp, UnitId};
use std::collections::HashMap;
use vstd::prelude::*;

verus! {

broadcast use vstd::std_specs::hash::group_hash_axioms;

/// Record of one task execution that ran to completion.
#[derive(Clone, Copy, Debug)]
pub struct CompletedTask {
    pub unit_id: UnitId,
    pub simulation_id: SimulatedId,
    pub task: Task,
}

/// What the completion scheduler fires when an execution finishes.
#[derive(Clone, Copy, Debug)]
pub enum SimulationEvent {
    TaskCompleted(CompletedTask),
}

/// Completion report keyed by an optional simulation id, for callers that
/// track executions that way.
#[derive(Clone, Copy, Debug)]
pub enum TaskCompletion {
    DestinationReached { unit_id: UnitId, simulation_id: Option<SimulatedId> },
}

impl TaskCompletion {
    pub fn get_simulation_id(&self) -> (r: Option<SimulatedId>)
        ensures
            r == match self {
                TaskCompletion::DestinationReached { simulation_id, .. } => *simulation_id,
            },
    {
        match self {
            TaskCompletion::DestinationReached { simulation_id, .. } => *simulation_id,
        }
    }

    pub fn get_unit_id(&self) -> (r: Option<UnitId>)
        ensures
            r == match self {
                TaskCompletion::DestinationReached { unit_id, .. } => Some(*unit_id),
            },
    {
        match self {
            TaskCompletion::DestinationReached { unit_id, .. } => Some(*unit_id),
        }
    }
}

/// A pending completion: the scheduler fires `completion` at `finish_time`.
#[derive(Clone, Copy, Debug)]
pub struct TaskProgress {
    pub finish_time: TimeStamp,
    pub completion: SimulationEvent,
}

impl TaskProgress {
    /// The simulation this entry belongs to.
    pub open spec fn sim_id(self) -> SimulatedId {
        match self.completion {
            SimulationEvent::TaskCompleted(ct) => ct.simulation_id,
        }
    }

    /// The unit this entry belongs to.
    pub open spec fn unit_id(self) -> UnitId {
        match self.completion {
            SimulationEvent::TaskCompleted(ct) => ct.unit_id,
        }
    }

    /// Scheduler order: by finish time ascending, ties broken by simulation
    /// id ascending, so completions fire deterministically.
    pub open spec fn le(self, other: TaskProgress) -> bool {
        self.finish_time < other.finish_time || (self.finish_time == other.finish_time
            && self.sim_id() <= other.sim_id())
    }
}

/// A fully pre-computed execution of one task: its animation segment and the
/// completion entry that will fire when it finishes.
#[derive(Clone, Copy, Debug)]
pub struct SimulatedTask {
    pub id: SimulatedId,
    pub task: Task,
    pub animation: AnimationSegment,
    pub progress: TaskProgress,
}

impl SimulatedTask {
    /// The unit this execution belongs to.
    pub open spec fn unit_id(self) -> UnitId {
        self.progress.unit_id()
    }

    /// Internal consistency: the completion record names this execution,
    /// carries the same task, and is due at the animation's end; the
    /// animation runs in a straight line to the task's destination.  Only
    /// move tasks are simulated; other task kinds are reserved.
    pub open spec fn wf(self) -> bool {
        &&& self.animation.wf()
        &&& match self.progress.completion {
            SimulationEvent::TaskCompleted(ct) => ct.simulation_id == self.id && ct.task
                == self.task,
        }
        &&& self.progress.finish_time == self.animation.end_time()
        &&& match self.task {
            Task::MoveTo(dest) => {
                &&& dest.in_bounds()
                &&& match self.animation.delta {
                    Some(d) => d.dx == dest.x - self.animation.begin_location.x && d.dy == dest.y
                        - self.animation.begin_location.y,
                    None => false,
                }
            },
            Task::Transfer(_) => false,
        }
    }
}

/// Ordered list of pending executions of one unit, with its monotonic
/// sequence number.
#[derive(Debug)]
pub struct UnitTasks {
    pub current_simulation_id: Option<SimulatedId>,
    pub sequence_number: SequenceNumber,
    pub tasks: Vec<SimulatedId>,
}

impl Default for UnitTasks {
    /// A fresh unit has no pending execution and sequence number zero.
    fn default() -> (r: Self)
        ensures
            r.current_simulation_id is None,
            r.sequence_number == 0,
            r.tasks@.len() == 0,
    {
        UnitTasks { current_simulation_id: None, sequence_number: 0, tasks: Vec::new() }
    }
}

/// The change from one current task to another, applied by the game state to
/// keep locations and the scheduler consistent.  `from` carries the departing
/// task and whether it ran to completion; `to` carries the new head and its
/// pending completion.
#[derive(Clone, Copy, Debug)]
pub struct TaskTransition {
    pub unit_id: UnitId,
    pub game_time: TimeStamp,
    pub from: Option<(Task, SimulatedId, bool)>,
    pub to: Option<(Task, TaskProgress)>,
}

/// The ids of a list of simulated tasks, in order.
pub open spec fn ids_of(s: Seq<SimulatedTask>) -> Seq<SimulatedId> {
    s.map_values(|t: SimulatedTask| t.id)
}

/// Replacing the queue of `ut` by `sims` is an observable change: one of the
/// two is non-empty.
pub open spec fn set_queue_changed(ut: UnitTasks, sims: Seq<SimulatedTask>) -> bool {
    ut.tasks@.len() > 0 || sims.len() > 0
}

/// Law: for any unit with a non-empty task queue, the current simulation id
/// is the first id in the queue.
pub proof fn lemma_current_is_queue_head(m: TaskManager, u: UnitId)
    requires
        m.wf(),
        m.unit_tasks@.contains_key(u),
        m.unit_tasks@[u].tasks@.len() > 0,
    ensures
        m.unit_tasks@[u].current_simulation_id == Some(m.unit_tasks@[u].tasks@[0]),
{
    assert(m.queue_ok(u));
}

/// Law: every simulation id present in any unit's queue has a corresponding
/// entry in the simulated-task table, and that entry belongs to the unit.
pub proof fn lemma_queued_simulation_in_table(m: TaskManager, u: UnitId, i: int)
    requires
        m.wf(),
        m.unit_tasks@.contains_key(u),
        0 <= i < m.unit_tasks@[u].tasks@.len(),
    ensures
        m.simulated_tasks@.contains_key(m.unit_tasks@[u].tasks@[i]),
        m.simulated_tasks@[m.unit_tasks@[u].tasks@[i]].unit_id() == u,
{
    assert(m.queue_ok(u));
}

/// Law: a simulated move, evaluated at its own finish time, stands exactly
/// at the destination of its task.
pub proof fn lemma_move_ends_at_destination(st: SimulatedTask, dest: crate::model::Point)
    requires
        st.wf(),
        st.task == Task::MoveTo(dest),
    ensures
        st.animation.place_at_spec(st.progress.finish_time as int) == dest,
{
    let d = st.animation.delta->Some_0;
    crate::geom::lemma_interp_full(d.dx as int, d.dt as int);
    crate::geom::lemma_interp_full(d.dy as int, d.dt as int);
}

/// What one broadcasting pass stages for a subscriber with record `persp`
/// when told about `units` in order, given each unit's tasks in `m`.
pub open spec fn staged_upserts(
    m: Map<UnitId, UnitTasks>,
    persp: Seq<(UnitId, SequenceNumber)>,
    units: Seq<UnitId>,
) -> Seq<(UnitId, SequenceNumber, bool)>
    decreases units.len(),
{
    if units.len() == 0 {
        Seq::empty()
    } else {
        let prefix = staged_upserts(m, persp, units.drop_last());
        match crate::perspective::upsert_decision(
            persp,
            units.last(),
            m[units.last()].sequence_number,
        ) {
            Some(e) => prefix.push(e),
            None => prefix,
        }
    }
}

/// What one pass stages: an entry per unit whose record is stale or
/// missing, in unit order, each carrying that unit's current sequence
/// number — no unit twice, none invented.
pub proof fn lemma_staged_upserts_props(
    m: Map<UnitId, UnitTasks>,
    persp: Seq<(UnitId, SequenceNumber)>,
    units: Seq<UnitId>,
)
    requires
        forall|i: int, j: int| 0 <= i < j < units.len() ==> units[i] != units[j],
    ensures
        ({
            let staged = staged_upserts(m, persp, units);
            &&& staged.len() <= units.len()
            &&& (forall|k: int|
                0 <= k < staged.len() ==> exists|j: int|
                    0 <= j < units.len() && crate::perspective::upsert_decision(
                        persp,
                        units[j],
                        m[units[j]].sequence_number,
                    ) == Some(#[trigger] staged[k]) && staged[k].0 == units[j])
            &&& (forall|k1: int, k2: int|
                0 <= k1 < k2 < staged.len() ==> (#[trigger] staged[k1]).0 != (
                #[trigger] staged[k2]).0)
            &&& (forall|j: int|
                0 <= j < units.len() && crate::perspective::upsert_decision(
                    persp,
                    #[trigger] units[j],
                    m[units[j]].sequence_number,
                ) is Some ==> staged.contains(
                    crate::perspective::upsert_decision(
                        persp,
                        units[j],
                        m[units[j]].sequence_number,
                    )->Some_0,
                ))
        }),
    decreases units.len(),
{
    if units.len() == 0 {
    } else {
        let prefix = units.drop_last();
        lemma_staged_upserts_props(m, persp, prefix);
        let staged = staged_upserts(m, persp, units);
        let pstaged = staged_upserts(m, persp, prefix);
        let last = units.last();
        let dec = crate::perspective::upsert_decision(persp, last, m[last].sequence_number);
        assert(forall|j: int| 0 <= j < prefix.len() ==> prefix[j] == units[j]);
        match dec {
            Some(e) => {
                assert(staged == pstaged.push(e));
                assert(e.0 == last);
                assert forall|k: int| 0 <= k < staged.len() implies exists|j: int|
                    0 <= j < units.len() && crate::perspective::upsert_decision(
                        persp,
                        units[j],
                        m[units[j]].sequence_number,
                    ) == Some(#[trigger] staged[k]) && staged[k].0 == units[j] by {
                    if k < pstaged.len() {
                        assert(staged[k] == pstaged[k]);
                        let j = choose|j: int|
                            0 <= j < prefix.len() && crate::perspective::upsert_decision(
                                persp,
                                prefix[j],
                                m[prefix[j]].sequence_number,
                            ) == Some(pstaged[k]) && pstaged[k].0 == prefix[j];
                        assert(units[j] == prefix[j]);
                    } else {
                        assert(staged[k] == e);
                        assert(units[units.len() - 1] == last);
                    }
                }
                assert forall|k1: int, k2: int| 0 <= k1 < k2 < staged.len() implies (
                #[trigger] staged[k1]).0 != (#[trigger] staged[k2]).0 by {
                    if k2 == staged.len() - 1 {
                        assert(staged[k2] == e);
                        assert(staged[k1] == pstaged[k1]);
                        let j = choose|j: int|
                            0 <= j < prefix.len() && crate::perspective::upsert_decision(
                                persp,
                                prefix[j],
                                m[prefix[j]].sequence_number,
                            ) == Some(pstaged[k1]) && pstaged[k1].0 == prefix[j];
                        assert(units[j] != last);
                    } else {
                        assert(staged[k1] == pstaged[k1] && staged[k2] == pstaged[k2]);
                    }
                }
                assert forall|j: int|
                    0 <= j < units.len() && crate::perspective::upsert_decision(
                        persp,
                        #[trigger] units[j],
                        m[units[j]].sequence_number,
                    ) is Some implies staged.contains(
                    crate::perspective::upsert_decision(
                        persp,
                        units[j],
                        m[units[j]].sequence_number,
                    )->Some_0,
                ) by {
                    let ej = crate::perspective::upsert_decision(
                        persp,
                        units[j],
                        m[units[j]].sequence_number,
                    )->Some_0;
                    if j < units.len() - 1 {
                        assert(prefix[j] == units[j]);
                        assert(pstaged.contains(ej));
                        let k = choose|k: int| 0 <= k < pstaged.len() && pstaged[k] == ej;
                        assert(staged[k] == ej);
                    } else {
                        assert(ej == e);
                        assert(staged[staged.len() - 1] == e);
                    }
                }
            },
            None => {
                assert(staged == pstaged);
                assert forall|k: int| 0 <= k < staged.len() implies exists|j: int|
                    0 <= j < units.len() && crate::perspective::upsert_decision(
                        persp,
                        units[j],
                        m[units[j]].sequence_number,
                    ) == Some(#[trigger] staged[k]) && staged[k].0 == units[j] by {
                    let j = choose|j: int|
                        0 <= j < prefix.len() && crate::perspective::upsert_decision(
                            persp,
                            prefix[j],
                            m[prefix[j]].sequence_number,
                        ) == Some(pstaged[k]) && pstaged[k].0 == prefix[j];
                    assert(units[j] == prefix[j]);
                }
                assert forall|j: int|
                    0 <= j < units.len() && crate::perspective::upsert_decision(
                        persp,
                        #[trigger] units[j],
                        m[units[j]].sequence_number,
                    ) is Some implies staged.contains(
                    crate::perspective::upsert_decision(
                        persp,
                        units[j],
                        m[units[j]].sequence_number,
                    )->Some_0,
                ) by {
                    if j < units.len() - 1 {
                        assert(prefix[j] == units[j]);
                    }
                }
            },
        }
    }
}

/// The completion record names the current task of a known unit, matches
/// the stored task, and the unit's sequence number can still advance: the
/// conditions under which `task_completed` succeeds.
pub open spec fn completion_applies(m: TaskManager, completion: CompletedTask) -> bool {
    let ut = m.unit_tasks@[completion.unit_id];
    &&& m.unit_tasks@.contains_key(completion.unit_id)
    &&& ut.current_simulation_id == Some(completion.simulation_id)
    &&& m.simulated_tasks@[completion.simulation_id].task == completion.task
    &&& ut.sequence_number < u64::MAX
}

/// Owns the per-unit queues and the table of simulated tasks.
pub struct TaskManager {
    pub unit_tasks: HashMap<UnitId, UnitTasks>,
    pub simulated_tasks: HashMap<SimulatedId, SimulatedTask>,
}

impl TaskManager {
    /// The queue of `u` is consistent: the current simulation id is the head
    /// of the queue (or absent when the queue is empty), queue entries are
    /// distinct, and each is in the simulated-task table under this unit.
    pub open spec fn queue_ok(self, u: UnitId) -> bool {
        let ut = self.unit_tasks@[u];
        &&& (ut.tasks@.len() == 0 ==> ut.current_simulation_id is None)
        &&& (ut.tasks@.len() > 0 ==> ut.current_simulation_id == Some(ut.tasks@[0]))
        &&& (forall|i: int, j: int|
            0 <= i < j < ut.tasks@.len() ==> #[trigger] ut.tasks@[i] != #[trigger] ut.tasks@[j])
        &&& (forall|i: int|
            0 <= i < ut.tasks@.len() ==> {
                &&& self.simulated_tasks@.contains_key(#[trigger] ut.tasks@[i])
                &&& self.simulated_tasks@[ut.tasks@[i]].unit_id() == u
            })
    }

    /// The table entry for `sid` is consistent: it is stored under its own
    /// id, is internally consistent, and is queued by the unit it names.
    pub open spec fn sim_ok(self, sid: SimulatedId) -> bool {
        let st = self.simulated_tasks@[sid];
        &&& st.id == sid
        &&& st.wf()
        &&& self.unit_tasks@.contains_key(st.unit_id())
        &&& self.unit_tasks@[st.unit_id()].tasks@.contains(sid)
    }

    /// The two tables agree: every queued id is a live table entry of its
    /// unit, and every table entry is queued by its unit.
    pub open spec fn wf(self) -> bool {
        &&& (forall|u: UnitId| #[trigger] self.unit_tasks@.contains_key(u) ==> self.queue_ok(u))
        &&& (forall|sid: SimulatedId|
            #[trigger] self.simulated_tasks@.contains_key(sid) ==> self.sim_ok(sid))
    }

    /// The unit is known and its pending queue, as a sequence of ids.
    pub open spec fn queue_of(self, u: UnitId) -> Seq<SimulatedId> {
        self.unit_tasks@[u].tasks@
    }

    pub fn new() -> (r: Self)
        ensures
            r.wf(),
            r.unit_tasks@ == Map::<UnitId, UnitTasks>::empty(),
            r.simulated_tasks@ == Map::<SimulatedId, SimulatedTask>::empty(),
    {
        TaskManager { unit_tasks: HashMap::new(), simulated_tasks: HashMap::new() }
    }

    /// Registers a new unit with an empty queue.
    pub fn unit_created(&mut self, unit_id: UnitId)
        requires
            old(self).wf(),
            !old(self).unit_tasks@.contains_key(unit_id),
        ensures
            final(self).wf(),
            final(self).simulated_tasks@ == old(self).simulated_tasks@,
            final(self).unit_tasks@.dom() == old(self).unit_tasks@.dom().insert(unit_id),
            final(self).unit_tasks@[unit_id].current_simulation_id is None,
            final(self).unit_tasks@[unit_id].sequence_number == 0,
            final(self).unit_tasks@[unit_id].tasks@.len() == 0,
            forall|u: UnitId|
                u != unit_id && #[trigger] old(self).unit_tasks@.contains_key(u)
                    ==> final(self).unit_tasks@[u] == old(self).unit_tasks@[u],
    {
        self.unit_tasks.insert(unit_id, UnitTasks::default());
        proof {
            assert(final(self).unit_tasks@.dom() =~= old(self).unit_tasks@.dom().insert(unit_id));
        }
    }

    /// Replaces the whole queue of `unit_id` with `simulated_tasks`,
    /// atomically: all prior executions of the unit are dropped from the
    /// table, the new ones are entered, the current simulation id becomes
    /// the new head, and the sequence number advances exactly when the
    /// change is observable (the prior queue or the new one is non-empty).
    ///
    /// Fails with `InvalidUnitId` when the unit is unknown and with
    /// `InternalError` when the sequence number cannot advance; on failure
    /// nothing is changed.
    pub fn set_task_queue_requested(
        &mut self,
        unit_id: UnitId,
        simulated_tasks: Vec<SimulatedTask>,
        game_time: TimeStamp,
    ) -> (r: Result<TaskTransition, EngineError>)
        requires
            old(self).wf(),
            forall|i: int|
                0 <= i < simulated_tasks@.len() ==> (#[trigger] simulated_tasks@[i]).wf(),
            forall|i: int|
                0 <= i < simulated_tasks@.len() ==> (#[trigger] simulated_tasks@[i]).unit_id()
                    == unit_id,
            forall|i: int|
                0 <= i < simulated_tasks@.len() ==> !old(self).simulated_tasks@.contains_key(
                    (#[trigger] simulated_tasks@[i]).id,
                ),
            forall|i: int, j: int|
                0 <= i < j < simulated_tasks@.len() ==> (#[trigger] simulated_tasks@[i]).id != (
                #[trigger] simulated_tasks@[j]).id,
        ensures
            final(self).wf(),
            r is Ok <==> (old(self).unit_tasks@.contains_key(unit_id) && !(set_queue_changed(
                old(self).unit_tasks@[unit_id],
                simulated_tasks@,
            ) && old(self).unit_tasks@[unit_id].sequence_number == u64::MAX)),
            r matches Err(e) ==> {
                &&& final(self).unit_tasks@ == old(self).unit_tasks@
                &&& final(self).simulated_tasks@ == old(self).simulated_tasks@
                &&& (e == EngineError::InvalidUnitId <==> !old(self).unit_tasks@.contains_key(
                    unit_id,
                ))
                &&& (e == EngineError::InvalidUnitId || e == EngineError::InternalError)
            },
            r matches Ok(t) ==> {
                let oldut = old(self).unit_tasks@[unit_id];
                let newut = final(self).unit_tasks@[unit_id];
                let changed = set_queue_changed(oldut, simulated_tasks@);
                &&& t.unit_id == unit_id
                &&& t.game_time == game_time
                &&& t.from == match oldut.current_simulation_id {
                    Some(c) => Some((old(self).simulated_tasks@[c].task, c, false)),
                    None => None::<(Task, SimulatedId, bool)>,
                }
                &&& t.to == if simulated_tasks@.len() > 0 {
                    Some((simulated_tasks@[0].task, simulated_tasks@[0].progress))
                } else {
                    None::<(Task, TaskProgress)>
                }
                &&& final(self).unit_tasks@.dom() == old(self).unit_tasks@.dom()
                &&& newut.tasks@ == ids_of(simulated_tasks@)
                &&& newut.current_simulation_id == if simulated_tasks@.len() > 0 {
                    Some(simulated_tasks@[0].id)
                } else {
                    None::<SimulatedId>
                }
                &&& newut.sequence_number == oldut.sequence_number + if changed {
                    1int
                } else {
                    0int
                }
                &&& forall|u: UnitId|
                    u != unit_id && #[trigger] old(self).unit_tasks@.contains_key(u)
                        ==> final(self).unit_tasks@[u] == old(self).unit_tasks@[u]
                &&& forall|sid: SimulatedId|
                    #[trigger] old(self).simulated_tasks@.contains_key(sid)
                        && !oldut.tasks@.contains(sid) ==> final(self).simulated_tasks@.contains_key(
                        sid,
                    ) && final(self).simulated_tasks@[sid] == old(self).simulated_tasks@[sid]
                &&& forall|i: int|
                    0 <= i < simulated_tasks@.len() ==> final(self).simulated_tasks@.contains_key(
                        (#[trigger] simulated_tasks@[i]).id,
                    ) && final(self).simulated_tasks@[simulated_tasks@[i].id]
                        == simulated_tasks@[i]
                &&& forall|sid: SimulatedId|
                    #[trigger] final(self).simulated_tasks@.contains_key(sid) ==> ((old(
                        self,
                    ).simulated_tasks@.contains_key(sid) && !oldut.tasks@.contains(sid)) || ids_of(
                        simulated_tasks@,
                    ).contains(sid))
            },
    {
        if !self.unit_tasks.contains_key(&unit_id) {
            return Err(EngineError::InvalidUnitId);
        }
        let mut ut = match self.unit_tasks.remove(&unit_id) {
            Some(ut) => ut,
            None => {
                proof {
                    assert(false);
                }
                return Err(EngineError::InvalidUnitId);
            },
        };
        let ghost oldut = old(self).unit_tasks@[unit_id];
        let changed = ut.tasks.len() > 0 || simulated_tasks.len() > 0;
        if changed && ut.sequence_number == u64::MAX {
            self.unit_tasks.insert(unit_id, ut);
            proof {
                assert(self.unit_tasks@ =~= old(self).unit_tasks@);
            }
            return Err(EngineError::InternalError);
        }

        // record the departing current task before anything changes
        let from: Option<(Task, SimulatedId, bool)> = match ut.current_simulation_id {
            Some(c) => {
                proof {
                    assert(old(self).queue_ok(unit_id));
                }
                match self.simulated_tasks.get(&c) {
                    Some(st) => Some((st.task, c, false)),
                    None => {
                        proof {
                            assert(oldut.tasks@.len() > 0 && oldut.tasks@[0] == c);
                            assert(false);
                        }
                        return Err(EngineError::InternalError);
                    },
                }
            },
            None => None,
        };

        // drop the prior queue's executions from the table
        let mut k: usize = 0;
        while k < ut.tasks.len()
            invariant
                k <= ut.tasks@.len(),
                ut == oldut,
                old(self).unit_tasks@.contains_key(unit_id),
                self.unit_tasks@ == old(self).unit_tasks@.remove(unit_id),
                forall|sid: SimulatedId|
                    #[trigger] self.simulated_tasks@.contains_key(sid) <==> (old(
                        self,
                    ).simulated_tasks@.contains_key(sid) && !exists|j: int|
                        0 <= j < k && oldut.tasks@[j] == sid),
                forall|sid: SimulatedId|
                    #[trigger] self.simulated_tasks@.contains_key(sid)
                        ==> self.simulated_tasks@[sid] == old(self).simulated_tasks@[sid],
            decreases ut.tasks@.len() - k,
        {
            let sid = ut.tasks[k];
            self.simulated_tasks.remove(&sid);
            proof {
                assert(forall|s2: SimulatedId|
                    #[trigger] self.simulated_tasks@.contains_key(s2) <==> (old(
                        self,
                    ).simulated_tasks@.contains_key(s2) && !exists|j: int|
                        0 <= j < k + 1 && oldut.tasks@[j] == s2));
            }
            k += 1;
        }

        // enter the new queue
        let to: Option<(Task, TaskProgress)> = if simulated_tasks.len() > 0 {
            ut.current_simulation_id = Some(simulated_tasks[0].id);
            Some((simulated_tasks[0].task, simulated_tasks[0].progress))
        } else {
            ut.current_simulation_id = None;
            None
        };
        let ghost table_after_removal = self.simulated_tasks@;
        proof {
            assert(forall|sid: SimulatedId|
                #[trigger] table_after_removal.contains_key(sid) <==> (old(
                    self,
                ).simulated_tasks@.contains_key(sid) && !oldut.tasks@.contains(sid)));
            assert(forall|sid: SimulatedId|
                #[trigger] table_after_removal.contains_key(sid) ==> table_after_removal[sid]
                    == old(self).simulated_tasks@[sid]);
        }
        let mut new_ids: Vec<SimulatedId> = Vec::new();
        let mut i: usize = 0;
        while i < simulated_tasks.len()
            invariant
                i <= simulated_tasks@.len(),
                self.unit_tasks@ == old(self).unit_tasks@.remove(unit_id),
                old(self).unit_tasks@.contains_key(unit_id),
                new_ids@.len() == i,
                forall|j: int| 0 <= j < i ==> new_ids@[j] == (#[trigger] simulated_tasks@[j]).id,
                forall|j: int, j2: int|
                    0 <= j < j2 < simulated_tasks@.len() ==> (#[trigger] simulated_tasks@[j]).id
                        != (#[trigger] simulated_tasks@[j2]).id,
                forall|sid: SimulatedId|
                    #[trigger] self.simulated_tasks@.contains_key(sid) <==> (
                    table_after_removal.contains_key(sid) || exists|j: int|
                        0 <= j < i && (#[trigger] simulated_tasks@[j]).id == sid),
                forall|j: int|
                    0 <= j < i ==> self.simulated_tasks@.contains_key(
                        (#[trigger] simulated_tasks@[j]).id,
                    ) && self.simulated_tasks@[simulated_tasks@[j].id] == simulated_tasks@[j],
                forall|sid: SimulatedId|
                    table_after_removal.contains_key(sid) && #[trigger] self.simulated_tasks@.contains_key(sid)
                        && !(exists|j: int| 0 <= j < i && (#[trigger] simulated_tasks@[j]).id == sid)
                        ==> self.simulated_tasks@[sid] == table_after_removal[sid],
            decreases simulated_tasks@.len() - i,
        {
            let st = simulated_tasks[i];
            new_ids.push(st.id);
            self.simulated_tasks.insert(st.id, st);
            i += 1;
        }
        ut.tasks = new_ids;
        if changed {
            ut.sequence_number = ut.sequence_number + 1;
        }
        self.unit_tasks.insert(unit_id, ut);

        proof {
            assert(self.unit_tasks@.dom() =~= old(self).unit_tasks@.dom());
            assert(self.unit_tasks@[unit_id].tasks@ =~= ids_of(simulated_tasks@));
            let newtab = self.simulated_tasks@;
            let oldtab = old(self).simulated_tasks@;
            // survivors: old entries outside the replaced queue are untouched
            assert forall|sid: SimulatedId|
                oldtab.contains_key(sid) && !oldut.tasks@.contains(sid) implies
                #[trigger] newtab.contains_key(sid) && newtab[sid] == oldtab[sid] by {
                assert(table_after_removal.contains_key(sid));
                if exists|j: int| 0 <= j < simulated_tasks@.len()
                    && (#[trigger] simulated_tasks@[j]).id == sid {
                    let j = choose|j: int|
                        0 <= j < simulated_tasks@.len() && (#[trigger] simulated_tasks@[j]).id
                            == sid;
                    assert(!oldtab.contains_key(simulated_tasks@[j].id));
                }
            }
            // every queue in the new state is consistent
            assert forall|u: UnitId| #[trigger] self.unit_tasks@.contains_key(u) implies
                self.queue_ok(u) by {
                if u == unit_id {
                    let newut = self.unit_tasks@[u];
                    assert forall|ii: int| 0 <= ii < newut.tasks@.len() implies
                        self.simulated_tasks@.contains_key(#[trigger] newut.tasks@[ii])
                            && self.simulated_tasks@[newut.tasks@[ii]].unit_id() == u by {
                        assert(newut.tasks@[ii] == simulated_tasks@[ii].id);
                    }
                } else {
                    assert(old(self).unit_tasks@.contains_key(u));
                    assert(old(self).queue_ok(u));
                    let uq = self.unit_tasks@[u].tasks@;
                    assert(uq == old(self).unit_tasks@[u].tasks@);
                    assert forall|ii: int| 0 <= ii < uq.len() implies
                        self.simulated_tasks@.contains_key(#[trigger] uq[ii])
                            && self.simulated_tasks@[uq[ii]].unit_id() == u by {
                        let sid = uq[ii];
                        assert(oldtab.contains_key(sid) && oldtab[sid].unit_id() == u);
                        assert(!(exists|j: int|
                            0 <= j < simulated_tasks@.len() && (#[trigger] simulated_tasks@[j]).id
                                == sid));
                        if oldut.tasks@.contains(sid) {
                            // a queued id of `unit_id` cannot sit in another
                            // unit's queue: the table names one owner
                            assert(old(self).unit_tasks@.contains_key(unit_id));
                            assert(old(self).queue_ok(unit_id));
                            let j = choose|j: int|
                                0 <= j < oldut.tasks@.len() && oldut.tasks@[j] == sid;
                            assert(oldtab[sid].unit_id() == unit_id);
                        }
                        assert(!oldut.tasks@.contains(sid));
                        assert(table_after_removal.contains_key(sid));
                        assert(self.simulated_tasks@.contains_key(sid));
                        assert(self.simulated_tasks@[sid] == oldtab[sid]);
                    }
                }
            }
            // every table entry in the new state is consistent
            assert forall|sid: SimulatedId| #[trigger] self.simulated_tasks@.contains_key(sid)
                implies self.sim_ok(sid) by {
                if ids_of(simulated_tasks@).contains(sid) {
                    let j = choose|j: int|
                        0 <= j < ids_of(simulated_tasks@).len() && ids_of(simulated_tasks@)[j]
                            == sid;
                    assert(simulated_tasks@[j].id == sid);
                    assert(self.simulated_tasks@[sid] == simulated_tasks@[j]);
                    assert(self.unit_tasks@[unit_id].tasks@[j] == sid);
                    assert(self.unit_tasks@[unit_id].tasks@.contains(sid));
                } else {
                    assert(oldtab.contains_key(sid) && !oldut.tasks@.contains(sid));
                    assert(old(self).sim_ok(sid));
                    let st = oldtab[sid];
                    if st.unit_id() == unit_id {
                        assert(oldut.tasks@.contains(sid));
                    }
                    assert(st.unit_id() != unit_id);
                    assert(self.unit_tasks@[st.unit_id()] == old(self).unit_tasks@[st.unit_id()]);
                }
            }
        }
        Ok(TaskTransition { unit_id, game_time, from, to })
    }

    /// Removes the completed head of the unit's queue, advances the current
    /// simulation to the next entry (if any) and bumps the sequence number:
    /// a completion is an externally observable change.
    ///
    /// Fails with `InvalidUnitId` when the unit is unknown and with
    /// `InternalError` when the completion does not match the unit's current
    /// task or the sequence number cannot advance; on failure nothing is
    /// changed.
    pub fn task_completed(
        &mut self,
        game_time: TimeStamp,
        completion: CompletedTask,
    ) -> (r: Result<TaskTransition, EngineError>)
        requires
            old(self).wf(),
        ensures
            final(self).wf(),
            r is Ok <==> completion_applies(*old(self), completion),
            r matches Err(e) ==> {
                &&& final(self).unit_tasks@ == old(self).unit_tasks@
                &&& final(self).simulated_tasks@ == old(self).simulated_tasks@
                &&& (e == EngineError::InvalidUnitId <==> !old(self).unit_tasks@.contains_key(
                    completion.unit_id,
                ))
                &&& (e == EngineError::InvalidUnitId || e == EngineError::InternalError)
            },
            r matches Ok(t) ==> {
                let oldut = old(self).unit_tasks@[completion.unit_id];
                let newut = final(self).unit_tasks@[completion.unit_id];
                &&& t.unit_id == completion.unit_id
                &&& t.game_time == game_time
                &&& t.from == Some((completion.task, completion.simulation_id, true))
                &&& t.to == if oldut.tasks@.len() > 1 {
                    Some(
                        (
                            old(self).simulated_tasks@[oldut.tasks@[1]].task,
                            old(self).simulated_tasks@[oldut.tasks@[1]].progress,
                        ),
                    )
                } else {
                    None::<(Task, TaskProgress)>
                }
                &&& final(self).unit_tasks@.dom() == old(self).unit_tasks@.dom()
                &&& newut.tasks@ == oldut.tasks@.subrange(1, oldut.tasks@.len() as int)
                &&& newut.current_simulation_id == if oldut.tasks@.len() > 1 {
                    Some(oldut.tasks@[1])
                } else {
                    None::<SimulatedId>
                }
                &&& newut.sequence_number == oldut.sequence_number + 1
                &&& forall|u: UnitId|
                    u != completion.unit_id && #[trigger] old(self).unit_tasks@.contains_key(u)
                        ==> final(self).unit_tasks@[u] == old(self).unit_tasks@[u]
                &&& final(self).simulated_tasks@ == old(self).simulated_tasks@.remove(
                    completion.simulation_id,
                )
            },
    {
        if !self.unit_tasks.contains_key(&completion.unit_id) {
            return Err(EngineError::InvalidUnitId);
        }
        let mut ut = match self.unit_tasks.remove(&completion.unit_id) {
            Some(ut) => ut,
            None => {
                proof {
                    assert(false);
                }
                return Err(EngineError::InvalidUnitId);
            },
        };
        let ghost oldut = old(self).unit_tasks@[completion.unit_id];
        proof {
            assert(old(self).queue_ok(completion.unit_id));
        }

        // the completion must name the unit's current task, which under the
        // manager's invariants is the head of its queue
        let matches_current = match ut.current_simulation_id {
            Some(c) => c == completion.simulation_id,
            None => false,
        };
        if !matches_current || ut.sequence_number == u64::MAX {
            self.unit_tasks.insert(completion.unit_id, ut);
            proof {
                assert(self.unit_tasks@ =~= old(self).unit_tasks@);
            }
            return Err(EngineError::InternalError);
        }
        let stored = match self.simulated_tasks.get(&completion.simulation_id) {
            Some(st) => *st,
            None => {
                proof {
                    assert(false);
                }
                return Err(EngineError::InternalError);
            },
        };
        if stored.task != completion.task {
            self.unit_tasks.insert(completion.unit_id, ut);
            proof {
                assert(self.unit_tasks@ =~= old(self).unit_tasks@);
            }
            return Err(EngineError::InternalError);
        }

        // pop the head everywhere
        let popped = ut.tasks.remove(0);
        proof {
            assert(popped == completion.simulation_id);
        }
        self.simulated_tasks.remove(&completion.simulation_id);
        ut.sequence_number = ut.sequence_number + 1;

        // advance to the next pending execution
        let to: Option<(Task, TaskProgress)> = if ut.tasks.len() > 0 {
            let next_sid = ut.tasks[0];
            ut.current_simulation_id = Some(next_sid);
            proof {
                assert(oldut.tasks@[1] == next_sid);
                assert(old(self).simulated_tasks@.contains_key(next_sid));
                assert(next_sid != completion.simulation_id);
            }
            match self.simulated_tasks.get(&next_sid) {
                Some(nst) => Some((nst.task, nst.progress)),
                None => {
                    proof {
                        assert(false);
                    }
                    return Err(EngineError::InternalError);
                },
            }
        } else {
            ut.current_simulation_id = None;
            None
        };
        self.unit_tasks.insert(completion.unit_id, ut);

        proof {
            let uid = completion.unit_id;
            let sid0 = completion.simulation_id;
            assert(self.unit_tasks@.dom() =~= old(self).unit_tasks@.dom());
            assert(self.simulated_tasks@ =~= old(self).simulated_tasks@.remove(sid0));
            let newq = self.unit_tasks@[uid].tasks@;
            assert(newq =~= oldut.tasks@.subrange(1, oldut.tasks@.len() as int));
            assert forall|u: UnitId| #[trigger] self.unit_tasks@.contains_key(u) implies
                self.queue_ok(u) by {
                if u == uid {
                    assert forall|ii: int| 0 <= ii < newq.len() implies
                        self.simulated_tasks@.contains_key(#[trigger] newq[ii])
                            && self.simulated_tasks@[newq[ii]].unit_id() == u by {
                        assert(newq[ii] == oldut.tasks@[ii + 1]);
                        assert(oldut.tasks@[ii + 1] != oldut.tasks@[0]);
                    }
                } else {
                    assert(old(self).unit_tasks@.contains_key(u));
                    assert(old(self).queue_ok(u));
                    let uq = self.unit_tasks@[u].tasks@;
                    assert forall|ii: int| 0 <= ii < uq.len() implies
                        self.simulated_tasks@.contains_key(#[trigger] uq[ii])
                            && self.simulated_tasks@[uq[ii]].unit_id() == u by {
                        let s2 = uq[ii];
                        assert(old(self).simulated_tasks@.contains_key(s2));
                        assert(old(self).simulated_tasks@[s2].unit_id() == u);
                        if s2 == sid0 {
                            assert(old(self).sim_ok(sid0));
                            assert(old(self).simulated_tasks@[sid0].unit_id() == uid);
                        }
                        assert(s2 != sid0);
                    }
                }
            }
            assert forall|s2: SimulatedId| #[trigger] self.simulated_tasks@.contains_key(s2)
                implies self.sim_ok(s2) by {
                assert(old(self).sim_ok(s2));
                let st = old(self).simulated_tasks@[s2];
                if st.unit_id() == uid {
                    assert(oldut.tasks@.contains(s2));
                    let j = choose|j: int| 0 <= j < oldut.tasks@.len() && oldut.tasks@[j] == s2;
                    assert(j != 0);
                    assert(newq[j - 1] == s2);
                    assert(self.unit_tasks@[uid].tasks@.contains(s2));
                } else {
                    assert(self.unit_tasks@[st.unit_id()] == old(self).unit_tasks@[st.unit_id()]);
                }
            }
        }
        Ok(
            TaskTransition {
                unit_id: completion.unit_id,
                game_time,
                from: Some((completion.task, completion.simulation_id, true)),
                to,
            },
        )
    }

    /// Stages, for one subscriber, what it must be told about each listed
    /// unit: a show for units it has never seen, an update for units whose
    /// sequence number has advanced, nothing for current ones.  Units are
    /// walked in the given order, so emission order is deterministic.
    pub fn show_perspective(
        &self,
        units: &Vec<UnitId>,
        perspective: &crate::perspective::PlayersGamePerspective,
        updates: &mut crate::perspective::PerspectiveUpdates,
    )
        requires
            perspective.wf(),
            forall|i: int|
                0 <= i < units@.len() ==> self.unit_tasks@.contains_key(#[trigger] units@[i]),
        ensures
            final(updates).units_to_remove@ == old(updates).units_to_remove@,
            final(updates).player() == old(updates).player(),
            final(updates).units_to_upsert@ == old(updates).units_to_upsert@ + staged_upserts(
                self.unit_tasks@,
                perspective.last_update@,
                units@,
            ),
    {
        let ghost base = updates.units_to_upsert@;
        let mut i: usize = 0;
        while i < units.len()
            invariant
                i <= units@.len(),
                perspective.wf(),
                forall|k: int|
                    0 <= k < units@.len() ==> self.unit_tasks@.contains_key(#[trigger] units@[k]),
                updates.units_to_remove@ == old(updates).units_to_remove@,
                updates.player() == old(updates).player(),
                base == old(updates).units_to_upsert@,
                updates.units_to_upsert@ == base + staged_upserts(
                    self.unit_tasks@,
                    perspective.last_update@,
                    units@.take(i as int),
                ),
                updates.units_to_upsert@.len() <= base.len() + i,
            decreases units@.len() - i,
        {
            let u = units[i];
            let sequence_number = match self.unit_tasks.get(&u) {
                Some(ut) => ut.sequence_number,
                None => {
                    proof {
                        assert(false);
                    }
                    0
                },
            };
            perspective.unit_exists(u, sequence_number, updates);
            proof {
                let taken = units@.take(i + 1);
                assert(taken.drop_last() =~= units@.take(i as int));
                assert(taken.last() == units@[i as int]);
            }
            i += 1;
        }
        proof {
            assert(units@.take(units@.len() as int) =~= units@);
        }
    }

    /// Sequence number of a unit, or `InvalidUnitId` when the unit is
    /// unknown.
    pub fn get_sequence_number(&self, unit_id: UnitId) -> (r: Result<SequenceNumber, EngineError>)
        ensures
            self.unit_tasks@.contains_key(unit_id) ==> r == Ok::<SequenceNumber, EngineError>(
                self.unit_tasks@[unit_id].sequence_number,
            ),
            !self.unit_tasks@.contains_key(unit_id) ==> r == Err::<SequenceNumber, EngineError>(
                EngineError::InvalidUnitId,
            ),
    {
        match self.unit_tasks.get(&unit_id) {
            Some(ut) => Ok(ut.sequence_number),
            None => Err(EngineError::InvalidUnitId),
        }
    }
}

} // verus!
