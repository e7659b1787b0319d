//! Engine-level error taxonomy and the tick/request step functions that an
//! embedding event loop drives.
//!
//! The loop itself — channels, the ticker, the broadcast — lives outside
//! this library; everything it decides is decided here, as pure functions
//! from state and input to next state and the events to publish.

use crate::event::{AddressedEvent, PlayerRequest, PublishEvent, TickCompletedEvent};
use crate::game::{GameState, UnitLocation, UnitTemplate};
use crate::model::{OrientedPoint, Point, TimeStamp, UnitId, COORD_LIMIT, TIME_LIMIT};
use crate::motion::{self, MAX_QUEUE_TASKS};
use crate::scheduler;
use crate::tasks::SimulationEvent;
use vstd::prelude::*;

verus! {

/// Internal error taxonomy of the engine.
///
/// - `MalformedRequest`: an input violates a precondition (a move with no
///   distance, a zero speed, a coordinate off the map).
/// - `InvalidUnitId`: the unit is not present.
/// - `UnableToSend`: an outbound channel is closed; benign for the engine.
/// - `InternalError`: an invariant violation; handlers are transactional, so
///   state stays consistent.
#[derive(Clone, Copy, Debug, PartialEq, Eq, Structural)]
pub enum EngineError {
    MalformedRequest,
    InvalidUnitId,
    UnableToSend,
    InternalError,
}

/// What handling one request produced: the id of a created unit, if the
/// request created one.
#[derive(Clone, Copy, Debug)]
pub struct RequestOutcome {
    pub created_id: Option<UnitId>,
}

/// Every destination in a queue request lies on the map.
pub open spec fn destinations_in_bounds(dests: Seq<Point>) -> bool {
    forall|i: int| 0 <= i < dests.len() ==> (#[trigger] dests[i]).in_bounds()
}

/// What a queue request guarantees: the exact new queue on success, the
/// error classification on failure, and the promise that a well-formed
/// request on a known unit is always accepted.
pub open spec fn set_queue_post(
    pre: GameState,
    post: GameState,
    unit_id: UnitId,
    destinations: Seq<Point>,
    r: Result<(), EngineError>,
) -> bool {
    &&& (r is Ok ==> {
        let base = pre.next_id;
        &&& pre.tasks.unit_tasks@.contains_key(unit_id)
        &&& post.tasks.unit_tasks@[unit_id].tasks@.len() == destinations.len()
        &&& (forall|i: int|
            0 <= i < destinations.len() ==> #[trigger] post.tasks.unit_tasks@[unit_id].tasks@[i]
                == base + i)
        &&& (destinations.len() > 0 ==> post.locations@[unit_id] == UnitLocation::ByMoveTask(base))
        &&& (forall|i: int|
            0 <= i < destinations.len() ==> post.tasks.simulated_tasks@.contains_key(
                (base + i) as u64,
            ) && (#[trigger] post.tasks.simulated_tasks@[(base + i) as u64]).task
                == crate::model::Task::MoveTo(destinations[i]))
    })
    &&& (r is Err ==> {
        ||| r == Err::<(), EngineError>(EngineError::InvalidUnitId)
            && !pre.tasks.unit_tasks@.contains_key(unit_id)
        ||| r == Err::<(), EngineError>(EngineError::MalformedRequest)
        ||| r == Err::<(), EngineError>(EngineError::InternalError)
    })
    &&& ((pre.tasks.unit_tasks@.contains_key(unit_id) && pre.location_readable(
        unit_id,
        pre.last_time,
    ) && destinations.len() > 0 && destinations.len() <= MAX_QUEUE_TASKS
        && destinations_in_bounds(destinations) && pre.last_time <= TIME_LIMIT && pre.next_id
        <= u64::MAX - destinations.len() && pre.speeds@.contains_key(unit_id)
        && motion::all_moves_simulable(
        pre.location_at(unit_id, pre.last_time).point,
        destinations,
        pre.speeds@[unit_id],
    ) && (pre.tasks.unit_tasks@[unit_id].sequence_number < u64::MAX)) ==> r is Ok)
}

/// Validates and applies one queue request: bounds and length checks, the
/// motion simulation from where the unit stands now, and the atomic queue
/// replacement.
#[verifier::rlimit(100)]
#[verifier::spinoff_prover]
pub fn handle_set_queue(state: &mut GameState, unit_id: UnitId, destinations: Vec<Point>) -> (r:
    Result<(), EngineError>)
    requires
        old(state).wf(),
    ensures
        final(state).wf(),
        set_queue_post(*old(state), *final(state), unit_id, destinations@, r),
{
    if !state.tasks.unit_tasks.contains_key(&unit_id) {
        return Err(EngineError::InvalidUnitId);
    }
    if destinations.len() > MAX_QUEUE_TASKS {
        return Err(EngineError::MalformedRequest);
    }
    let mut i: usize = 0;
    while i < destinations.len()
        invariant
            i <= destinations@.len(),
            *state == *old(state),
            old(state).wf(),
            forall|j: int| 0 <= j < i ==> (#[trigger] destinations@[j]).in_bounds(),
        decreases destinations@.len() - i,
    {
        let d = destinations[i];
        if d.x < -COORD_LIMIT || d.x > COORD_LIMIT || d.y < -COORD_LIMIT || d.y > COORD_LIMIT {
            return Err(EngineError::MalformedRequest);
        }
        i += 1;
    }
    let now = state.get_current_time();
    if now > TIME_LIMIT {
        return Err(EngineError::InternalError);
    }
    let speed = match state.get_unit_speed(unit_id) {
        Ok(s) => s,
        Err(e) => {
            return Err(e);
        },
    };
    let start = match state.get_unit_location(unit_id, now) {
        Ok(l) => l,
        Err(e) => {
            return Err(e);
        },
    };
    if state.next_id > u64::MAX - (destinations.len() as u64) {
        return Err(EngineError::InternalError);
    }
    let base = state.next_id;
    let sims = match motion::simulate_queue(now, start, speed, &destinations, base, unit_id) {
        Ok(sims) => sims,
        Err(e) => {
            return Err(e);
        },
    };
    // the sequence number must be able to advance before anything is
    // touched
    match state.tasks.unit_tasks.get(&unit_id) {
        Some(ut) => {
            if (ut.tasks.len() > 0 || destinations.len() > 0) && ut.sequence_number == u64::MAX {
                return Err(EngineError::InternalError);
            }
        },
        None => {
            proof {
                assert(false);
            }
            return Err(EngineError::InvalidUnitId);
        },
    }
    let ghost simsg = sims@;
    match apply_simulated_queue(state, unit_id, now, base, destinations.len() as u64, sims) {
        Ok(()) => {
            proof {
                assert forall|i: int| 0 <= i < destinations@.len() implies
                    state.tasks.simulated_tasks@.contains_key((base + i) as u64)
                        && (#[trigger] state.tasks.simulated_tasks@[(base + i) as u64]).task
                        == crate::model::Task::MoveTo(destinations@[i]) by {
                    assert(simsg[i].id == base + i);
                    assert(state.tasks.simulated_tasks@.contains_key(simsg[i].id));
                    assert(state.tasks.simulated_tasks@[simsg[i].id] == simsg[i]);
                    assert(simsg[i].task == crate::model::Task::MoveTo(destinations@[i]));
                }
            }
            Ok(())
        },
        Err(e) => {
            proof {
                assert(false);
            }
            Err(e)
        },
    }
}

/// Enters a freshly simulated queue into the world: advances the id
/// counter past the new simulation ids and atomically replaces the unit's
/// queue with them.
#[verifier::rlimit(100)]
#[verifier::spinoff_prover]
fn apply_simulated_queue(
    state: &mut GameState,
    unit_id: UnitId,
    now: TimeStamp,
    base: u64,
    n: u64,
    sims: Vec<crate::tasks::SimulatedTask>,
) -> (r: Result<(), EngineError>)
    requires
        old(state).wf(),
        old(state).tasks.unit_tasks@.contains_key(unit_id),
        old(state).location_readable(unit_id, now),
        sims@.len() == n,
        base == old(state).next_id,
        base + n <= u64::MAX,
        forall|i: int| 0 <= i < sims@.len() ==> (#[trigger] sims@[i]).wf(),
        forall|i: int| 0 <= i < sims@.len() ==> (#[trigger] sims@[i]).unit_id() == unit_id,
        forall|i: int| 0 <= i < sims@.len() ==> (#[trigger] sims@[i]).id == base + i,
        (sims@.len() > 0 || old(state).tasks.unit_tasks@[unit_id].tasks@.len() > 0) ==> old(
            state,
        ).tasks.unit_tasks@[unit_id].sequence_number < u64::MAX,
    ensures
        r is Ok,
        final(state).wf(),
        final(state).tasks.unit_tasks@[unit_id].tasks@.len() == n,
        forall|i: int|
            0 <= i < n ==> #[trigger] final(state).tasks.unit_tasks@[unit_id].tasks@[i] == base
                + i,
        n > 0 ==> final(state).locations@[unit_id] == UnitLocation::ByMoveTask(base),
        n == 0 ==> final(state).locations@[unit_id] == UnitLocation::Fixed(
            old(state).location_at(unit_id, now),
        ),
        forall|i: int|
            0 <= i < n ==> final(state).tasks.simulated_tasks@.contains_key(
                ((#[trigger] sims@[i]).id),
            ) && final(state).tasks.simulated_tasks@[sims@[i].id] == sims@[i],
{
    state.next_id = base + n;
    let ghost simsg = sims@;
    proof {
        assert(state.wf());
        assert forall|i2: int| 0 <= i2 < simsg.len() implies
            !state.tasks.simulated_tasks@.contains_key((#[trigger] simsg[i2]).id) by {
            assert(simsg[i2].id == base + i2);
        }
        assert forall|i2: int, j2: int| 0 <= i2 < j2 < simsg.len() implies (
        #[trigger] simsg[i2]).id != (#[trigger] simsg[j2]).id by {}
    }
    let r = state.set_task_queue_requested(unit_id, now, sims);
    match r {
        Ok(()) => {
            proof {
                assert(crate::tasks::ids_of(simsg).len() == simsg.len());
                assert forall|i2: int| 0 <= i2 < simsg.len() implies
                    #[trigger] state.tasks.unit_tasks@[unit_id].tasks@[i2] == base + i2 by {
                    assert(crate::tasks::ids_of(simsg)[i2] == simsg[i2].id);
                }
                assert forall|i2: int| 0 <= i2 < simsg.len() implies
                    state.tasks.simulated_tasks@.contains_key((base + i2) as u64)
                        && #[trigger] state.tasks.simulated_tasks@[(base + i2) as u64]
                        == simsg[i2] by {
                    assert(base + i2 <= u64::MAX);
                    assert(simsg[i2].id == base + i2);
                    assert((base + i2) as u64 == simsg[i2].id);
                    assert(state.tasks.simulated_tasks@.contains_key(simsg[i2].id));
                    assert(state.tasks.simulated_tasks@[simsg[i2].id] == simsg[i2]);
                }
            }
            Ok(())
        },
        Err(e) => {
            proof {
                assert(false);
            }
            Err(e)
        },
    }
}

/// Runs one engine tick at wall time `wall_ms`, game time `now`: fires, in
/// completion order, every pending completion due at or before `now`;
/// advances game time; runs the broadcast pass for every subscriber; and
/// ends with a tick-completed event addressed to everyone.
///
/// Fails only when a due completion cannot advance a unit's sequence
/// number; even then the state stays consistent.
pub fn handle_tick(state: &mut GameState, wall_ms: TimeStamp, now: TimeStamp) -> (r: Result<
    Vec<AddressedEvent>,
    EngineError,
>)
    requires
        old(state).wf(),
    ensures
        final(state).wf(),
        final(state).units@ == old(state).units@,
        final(state).players@ == old(state).players@,
        final(state).next_id == old(state).next_id,
        r is Err ==> r == Err::<Vec<AddressedEvent>, EngineError>(EngineError::InternalError),
        r matches Ok(evs) ==> {
            &&& final(state).last_time == now
            &&& (forall|k: int|
                0 <= k < final(state).in_progress@.len() ==> (
                #[trigger] final(state).in_progress@[k]).finish_time > now)
            &&& evs@.len() >= 1
            &&& evs@.last() == (AddressedEvent {
                recipient: None,
                event: PublishEvent::TickCompleted(TickCompletedEvent { wall_ms, game_time: now }),
            })
            &&& (forall|k: int, j: int|
                0 <= k < final(state).players@.len() && 0 <= j < final(state).units@.len() ==> {
                    let p = #[trigger] final(state).players@[k];
                    let u = #[trigger] final(state).units@[j];
                    &&& crate::perspective::persp_has(final(state).perspectives@[p].last_update@, u)
                    &&& crate::perspective::persp_at(final(state).perspectives@[p].last_update@, u)
                        == final(state).tasks.unit_tasks@[u].sequence_number
                })
        },
{
    // drain the completions due at or before `now`, in completion order
    loop
        invariant_except_break
            state.wf(),
            state.units@ == old(state).units@,
            state.players@ == old(state).players@,
            state.perspectives@ == old(state).perspectives@,
            state.next_id == old(state).next_id,
            state.last_time == old(state).last_time,
        ensures
            state.wf(),
            state.units@ == old(state).units@,
            state.players@ == old(state).players@,
            state.perspectives@ == old(state).perspectives@,
            state.next_id == old(state).next_id,
            state.last_time == old(state).last_time,
            forall|k: int|
                0 <= k < state.in_progress@.len() ==> (
                #[trigger] state.in_progress@[k]).finish_time > now,
        decreases state.tasks.simulated_tasks@.dom().len(),
    {
        let head = match state.in_progress.peek() {
            Some(tp) => tp,
            None => {
                break ;
            },
        };
        if head.finish_time > now {
            proof {
                assert forall|k: int| 0 <= k < state.in_progress@.len() implies (
                #[trigger] state.in_progress@[k]).finish_time > now by {
                    if k > 0 {
                        assert(state.in_progress@[0].le(state.in_progress@[k]));
                    }
                }
            }
            break ;
        }
        // a completion is an observable change; refuse to wrap the counter
        let unit_id = scheduler::entry_unit_id(&head);
        proof {
            assert(state.sched_entry_ok(state.in_progress@[0]));
        }
        let seq = match state.tasks.get_sequence_number(unit_id) {
            Ok(s) => s,
            Err(e) => {
                proof {
                    assert(false);
                }
                return Err(EngineError::InternalError);
            },
        };
        if seq == u64::MAX {
            return Err(EngineError::InternalError);
        }
        let ghost table_before = state.tasks.simulated_tasks@;
        let tp = match state.remove_completed_task() {
            Ok(tp) => tp,
            Err(e) => {
                proof {
                    assert(false);
                }
                return Err(EngineError::InternalError);
            },
        };
        let completion = match tp.completion {
            SimulationEvent::TaskCompleted(ct) => ct,
        };
        proof {
            assert(crate::tasks::completion_applies(state.tasks, completion)) by {
                assert(state.tasks.simulated_tasks@[completion.simulation_id].wf());
            }
        }
        match state.task_completed(now, completion) {
            Ok(()) => {},
            Err(e) => {
                proof {
                    assert(false);
                }
                return Err(EngineError::InternalError);
            },
        }
        proof {
            assert(state.tasks.simulated_tasks@.dom() =~= table_before.dom().remove(
                completion.simulation_id,
            ));
            vstd::set::axiom_set_remove_len(table_before.dom(), completion.simulation_id);
            assert(table_before.dom().contains(completion.simulation_id));
            assert(state.tasks.simulated_tasks@.dom().len() == table_before.dom().len() - 1);
        }
    }

    // advance game time, then tell every subscriber what changed
    state.advance_to_time(now);
    state.last_wall_ms = wall_ms;
    let mut events = match state.send_incremental_updates() {
        Ok(evs) => evs,
        Err(e) => {
            proof {
                assert(false);
            }
            return Err(EngineError::InternalError);
        },
    };
    events.push(
        AddressedEvent {
            recipient: None,
            event: PublishEvent::TickCompleted(TickCompletedEvent { wall_ms, game_time: now }),
        },
    );
    Ok(events)
}

/// Handles one player request, synchronously and transactionally: on
/// failure the request has not mutated the world.
///
/// - `PlayerJoined` registers a perspective for the player (a repeated join
///   keeps the existing one).
/// - `PlayerLeft` forgets the player's perspective.
/// - `CreateUnit` spawns a default-template unit at the origin, owned by
///   the player, and reports its id.
/// - `SetQueue` validates the destinations, simulates the moves from where
///   the unit stands now, and atomically replaces the unit's queue.
/// - `ClearQueue` drops the unit's queue, freezing it in place.
/// - `UpdateIntentions` is reserved and does nothing.
#[verifier::rlimit(100)]
pub fn handle_request(state: &mut GameState, request: PlayerRequest) -> (r: Result<
    RequestOutcome,
    EngineError,
>)
    requires
        old(state).wf(),
    ensures
        final(state).wf(),
        match request {
            PlayerRequest::PlayerJoined(p) => {
                &&& r is Ok
                &&& final(state).perspectives@.contains_key(p)
                &&& (!old(state).perspectives@.contains_key(p) ==> final(state).perspectives@[p].last_update@.len() == 0)
                &&& (old(state).perspectives@.contains_key(p) ==> final(state).perspectives@ == old(state).perspectives@)
                &&& final(state).tasks == old(state).tasks
                &&& final(state).units@ == old(state).units@
                &&& final(state).in_progress == old(state).in_progress
            },
            PlayerRequest::PlayerLeft(p) => {
                &&& r is Ok
                &&& final(state).perspectives@ == old(state).perspectives@.remove(p)
                &&& final(state).tasks == old(state).tasks
                &&& final(state).units@ == old(state).units@
            },
            PlayerRequest::CreateUnit(p) => {
                &&& (r is Ok <==> old(state).next_id < u64::MAX)
                &&& (r matches Ok(o) ==> {
                    let uid = old(state).next_id;
                    &&& o.created_id == Some(uid)
                    &&& final(state).units@ == old(state).units@.push(uid)
                    &&& final(state).owners@ == old(state).owners@.insert(uid, p)
                    &&& final(state).speeds@ == old(state).speeds@.insert(uid, 1000u64)
                    &&& final(state).locations@ == old(state).locations@.insert(
                        uid,
                        UnitLocation::Fixed(
                            OrientedPoint { point: Point { x: 0, y: 0 }, orientation: 0 },
                        ),
                    )
                    &&& final(state).tasks.unit_tasks@.contains_key(uid)
                    &&& final(state).tasks.unit_tasks@[uid].sequence_number == 0
                    &&& final(state).next_id == old(state).next_id + 1
                })
                &&& (r is Err ==> r == Err::<RequestOutcome, EngineError>(
                    EngineError::InternalError,
                ) && *final(state) == *old(state))
            },
            PlayerRequest::SetQueue { player_id, unit_id, destinations } => set_queue_post(
                *old(state),
                *final(state),
                unit_id,
                destinations@,
                if r is Ok {
                    Ok(())
                } else {
                    Err(r->Err_0)
                },
            ),
            PlayerRequest::ClearQueue { player_id, unit_id } => {
                &&& (r is Ok <==> (old(state).tasks.unit_tasks@.contains_key(unit_id) && old(state).location_readable(unit_id, old(state).last_time) && (old(state).tasks.unit_tasks@[unit_id].tasks@.len() > 0 ==> old(state).tasks.unit_tasks@[unit_id].sequence_number < u64::MAX)))
                &&& (r is Ok ==> {
                    &&& final(state).tasks.unit_tasks@[unit_id].tasks@.len() == 0
                    &&& final(state).locations@[unit_id] == UnitLocation::Fixed(
                        old(state).location_at(unit_id, old(state).last_time),
                    )
                })
            },
            PlayerRequest::UpdateIntentions {  } => r is Ok && *final(state) == *old(state),
        },
{
    match request {
        PlayerRequest::PlayerJoined(player_id) => {
            if !state.perspectives.contains_key(&player_id) {
                state.add_player(player_id);
            }
            Ok(RequestOutcome { created_id: None })
        },
        PlayerRequest::PlayerLeft(player_id) => {
            state.remove_player(player_id);
            Ok(RequestOutcome { created_id: None })
        },
        PlayerRequest::CreateUnit(player_id) => {
            if state.next_id == u64::MAX {
                return Err(EngineError::InternalError);
            }
            let unit_id = state.get_next_id();
            proof {
                if state.units@.contains(unit_id) {
                    let w = choose|w: int|
                        0 <= w < state.units@.len() && state.units@[w] == unit_id;
                }
                if state.tasks.unit_tasks@.contains_key(unit_id) {
                    assert(state.units@.contains(unit_id));
                }
            }
            state.add_unit(
                player_id,
                unit_id,
                UnitTemplate::default(),
                OrientedPoint { point: Point { x: 0, y: 0 }, orientation: 0 },
            );
            Ok(RequestOutcome { created_id: Some(unit_id) })
        },
        PlayerRequest::SetQueue { player_id: _, unit_id, destinations } => {
            match handle_set_queue(state, unit_id, destinations) {
                Ok(()) => Ok(RequestOutcome { created_id: None }),
                Err(e) => Err(e),
            }
        },
        PlayerRequest::ClearQueue { player_id: _, unit_id } => {
            match state.clear_tasks_requested(unit_id) {
                Ok(()) => Ok(RequestOutcome { created_id: None }),
                Err(e) => Err(e),
            }
        },
        PlayerRequest::UpdateIntentions {  } => Ok(RequestOutcome { created_id: None }),
    }
}

} // verus!
