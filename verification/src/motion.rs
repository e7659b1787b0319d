//! Deterministic motion simulator: a pure function from a starting oriented
//! point, a speed and a destination to the animation segment of the move and
//! the time at which it finishes.
//!
//! Durations are the distance divided by the speed, rounded up to whole
//! milliseconds, so every move takes at least one millisecond and ends
//! exactly at its destination.

use crate::engine::EngineError;
use crate::geom;
use crate::model::{
    Coord, Delta, OrientedPoint, Point, SimulatedId, Speed, Task, TimeStamp, UnitId,
};
use crate::model::{AnimationSegment, COORD_LIMIT, TIME_LIMIT};
use crate::tasks::{CompletedTask, SimulatedTask, SimulationEvent, TaskProgress};
use vstd::prelude::*;

verus! {

/// The most tasks one request may queue; keeps every chained finish time
/// inside 64 bits.
pub const MAX_QUEUE_TASKS: usize = 65536;

/// How long a move from `from` to `dest` takes at `speed`, in milliseconds,
/// rounded up.
pub open spec fn move_duration(from: Point, dest: Point, speed: Speed) -> int {
    geom::div_ceil(from.dist(dest) as int, speed as int)
}

/// The scratch pad threaded through the simulation of a queue of tasks:
/// each task starts when and where the previous one ended.
#[derive(Clone, Copy, Debug)]
pub struct ScratchPad {
    pub current_time: TimeStamp,
    pub current_location: OrientedPoint,
}

/// Simulates one move task: the returned execution starts at the pad's time
/// and place, runs in a straight line, and finishes at
/// `current_time + move_duration` exactly at `destination`.
///
/// Fails with `MalformedRequest` exactly when the speed is zero or the
/// destination is the current position.
pub fn simulate_move(
    pad: &ScratchPad,
    speed: Speed,
    destination: Point,
    simulation_id: SimulatedId,
    unit_id: UnitId,
) -> (r: Result<SimulatedTask, EngineError>)
    requires
        pad.current_location.in_bounds(),
        destination.in_bounds(),
        pad.current_time <= TIME_LIMIT + 0x1_0000_0000_0000u64,
    ensures
        r is Ok <==> (speed >= 1 && pad.current_location.point != destination),
        r is Err ==> r == Err::<SimulatedTask, EngineError>(EngineError::MalformedRequest),
        r matches Ok(st) ==> {
            let dur = move_duration(pad.current_location.point, destination, speed);
            &&& st.id == simulation_id
            &&& st.task == Task::MoveTo(destination)
            &&& st.unit_id() == unit_id
            &&& st.wf()
            &&& st.animation.begin_time == pad.current_time
            &&& st.animation.begin_location == pad.current_location.point
            &&& st.animation.begin_orientation == pad.current_location.orientation
            &&& st.animation.d_orientation is None
            &&& st.animation.delta == Some(
                Delta {
                    dx: (destination.x - pad.current_location.point.x) as i64,
                    dy: (destination.y - pad.current_location.point.y) as i64,
                    dt: dur as u64,
                },
            )
            &&& st.progress.finish_time == pad.current_time + dur
            &&& st.progress.completion == SimulationEvent::TaskCompleted(
                CompletedTask { unit_id, simulation_id, task: Task::MoveTo(destination) },
            )
            &&& 1 <= dur <= 0x1_0000_0000u64
        },
{
    let start = pad.current_location.point;
    let dist = crate::model::distance(start, destination);
    if speed == 0 || dist == 0 {
        return Err(EngineError::MalformedRequest);
    }
    let duration = geom::div_ceil64(dist, speed);
    let delta = Delta { dx: destination.x - start.x, dy: destination.y - start.y, dt: duration };
    let animation = AnimationSegment {
        begin_time: pad.current_time,
        begin_location: start,
        delta: Some(delta),
        begin_orientation: pad.current_location.orientation,
        d_orientation: None,
    };
    let finish_time = pad.current_time + duration;
    let task = Task::MoveTo(destination);
    let progress = TaskProgress {
        finish_time,
        completion: SimulationEvent::TaskCompleted(
            CompletedTask { unit_id, simulation_id, task },
        ),
    };
    Ok(SimulatedTask { id: simulation_id, task, animation, progress })
}

/// Where the `i`-th task of a queue starts: at the queue's starting point
/// for the first task, at the previous destination after that.
pub open spec fn chain_start(start: Point, dests: Seq<Point>, i: int) -> Point {
    if i == 0 {
        start
    } else {
        dests[i - 1]
    }
}

/// Every destination differs from where its task starts, so every move in
/// the chain is simulable.
pub open spec fn all_moves_simulable(start: Point, dests: Seq<Point>, speed: Speed) -> bool {
    &&& speed >= 1
    &&& forall|i: int| 0 <= i < dests.len() ==> #[trigger] dests[i] != chain_start(start, dests, i)
}

/// Simulates a whole queue of moves, threading the scratch pad through it:
/// task `i` gets simulation id `first_simulation_id + i`, starts exactly
/// when and where task `i - 1` ends, and finishes after its own duration.
///
/// Fails with `MalformedRequest` exactly when the queue is non-empty and
/// the speed is zero or some destination equals the point its move starts
/// from.  On success nothing is left out: one execution per destination.
#[verifier::rlimit(100)]
pub fn simulate_queue(
    start_time: TimeStamp,
    start: OrientedPoint,
    speed: Speed,
    destinations: &Vec<Point>,
    first_simulation_id: SimulatedId,
    unit_id: UnitId,
) -> (r: Result<Vec<SimulatedTask>, EngineError>)
    requires
        start.in_bounds(),
        forall|i: int| 0 <= i < destinations@.len() ==> (#[trigger] destinations@[i]).in_bounds(),
        start_time <= TIME_LIMIT,
        destinations@.len() <= MAX_QUEUE_TASKS,
        first_simulation_id + destinations@.len() <= u64::MAX,
    ensures
        r is Ok <==> (destinations@.len() == 0 || all_moves_simulable(
            start.point,
            destinations@,
            speed,
        )),
        r is Err ==> r == Err::<Vec<SimulatedTask>, EngineError>(EngineError::MalformedRequest),
        r matches Ok(v) ==> {
            &&& v@.len() == destinations@.len()
            &&& forall|i: int|
                0 <= i < v@.len() ==> {
                    let st = #[trigger] v@[i];
                    &&& st.id == first_simulation_id + i
                    &&& st.wf()
                    &&& st.unit_id() == unit_id
                    &&& st.task == Task::MoveTo(destinations@[i])
                    &&& st.animation.begin_location == chain_start(start.point, destinations@, i)
                    &&& st.animation.begin_orientation == start.orientation
                    &&& st.animation.d_orientation is None
                    &&& st.animation.begin_time == if i == 0 {
                        start_time as int
                    } else {
                        v@[i - 1].progress.finish_time as int
                    }
                    &&& st.progress.finish_time == st.animation.begin_time + move_duration(
                        chain_start(start.point, destinations@, i),
                        destinations@[i],
                        speed,
                    )
                    &&& st.animation.begin_time < st.progress.finish_time
                }
        },
{
    let mut out: Vec<SimulatedTask> = Vec::new();
    let mut pad = ScratchPad { current_time: start_time, current_location: start };
    let mut i: usize = 0;
    while i < destinations.len()
        invariant
            i <= destinations@.len(),
            destinations@.len() <= MAX_QUEUE_TASKS,
            first_simulation_id + destinations@.len() <= u64::MAX,
            start.in_bounds(),
            forall|k: int|
                0 <= k < destinations@.len() ==> (#[trigger] destinations@[k]).in_bounds(),
            i > 0 ==> speed >= 1,
            forall|k: int|
                0 <= k < i ==> #[trigger] destinations@[k] != chain_start(
                    start.point,
                    destinations@,
                    k,
                ),
            out@.len() == i,
            pad.current_location.point == chain_start(start.point, destinations@, i as int),
            pad.current_location.orientation == start.orientation,
            pad.current_location.in_bounds(),
            pad.current_time as int == if i == 0 {
                start_time as int
            } else {
                out@[i - 1].progress.finish_time as int
            },
            pad.current_time <= TIME_LIMIT + i * 0x1_0000_0000u64,
            forall|k: int|
                0 <= k < i ==> {
                    let st = #[trigger] out@[k];
                    &&& st.id == first_simulation_id + k
                    &&& st.wf()
                    &&& st.unit_id() == unit_id
                    &&& st.task == Task::MoveTo(destinations@[k])
                    &&& st.animation.begin_location == chain_start(start.point, destinations@, k)
                    &&& st.animation.begin_orientation == start.orientation
                    &&& st.animation.d_orientation is None
                    &&& st.animation.begin_time == if k == 0 {
                        start_time as int
                    } else {
                        out@[k - 1].progress.finish_time as int
                    }
                    &&& st.progress.finish_time == st.animation.begin_time + move_duration(
                        chain_start(start.point, destinations@, k),
                        destinations@[k],
                        speed,
                    )
                    &&& st.animation.begin_time < st.progress.finish_time
                },
        decreases destinations@.len() - i,
    {
        let dest = destinations[i];
        let sid = first_simulation_id + (i as u64);
        let st = match simulate_move(&pad, speed, dest, sid, unit_id) {
            Ok(st) => st,
            Err(e) => {
                return Err(e);
            },
        };
        pad =
        ScratchPad {
            current_time: st.progress.finish_time,
            current_location: OrientedPoint { point: dest, orientation: start.orientation },
        };
        out.push(st);
        i += 1;
    }
    Ok(out)
}

} // verus!
