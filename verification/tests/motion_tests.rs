// Motion simulator scenarios: exact finish times, chained segments and
// interpolated positions on the fixed-point grid (1 unit = 1 micrometer,
// speed 1000 = one meter per second).

use shape_sim::geom;
use shape_sim::model::{distance, OrientedPoint, Point, Task};
use shape_sim::motion::{simulate_move, simulate_queue, ScratchPad};

fn meters(m: i64) -> i64 {
    m * 1_000_000
}

#[test]
fn isqrt_exact_values() {
    assert_eq!(geom::isqrt64(0), 0);
    assert_eq!(geom::isqrt64(1), 1);
    assert_eq!(geom::isqrt64(2), 1);
    assert_eq!(geom::isqrt64(3), 1);
    assert_eq!(geom::isqrt64(4), 2);
    assert_eq!(geom::isqrt64(24), 4);
    assert_eq!(geom::isqrt64(25), 5);
    assert_eq!(geom::isqrt64(u64::MAX), 4294967295);
}

#[test]
fn div_ceil_rounds_up() {
    assert_eq!(geom::div_ceil64(0, 7), 0);
    assert_eq!(geom::div_ceil64(1, 7), 1);
    assert_eq!(geom::div_ceil64(7, 7), 1);
    assert_eq!(geom::div_ceil64(8, 7), 2);
    assert_eq!(geom::div_ceil64(5_000_000, 1000), 5000);
}

#[test]
fn distance_three_four_five() {
    let a = Point { x: 0, y: 0 };
    let b = Point { x: meters(3), y: meters(4) };
    assert_eq!(distance(a, b), 5_000_000);
    assert_eq!(distance(a, a), 0);
}

#[test]
fn single_move_finishes_at_5000_ms() {
    // speed 1 m/s, move (0,0) -> (3,4) meters: distance 5 m, 5000 ms
    let pad = ScratchPad {
        current_time: 0,
        current_location: OrientedPoint { point: Point { x: 0, y: 0 }, orientation: 0 },
    };
    let dest = Point { x: meters(3), y: meters(4) };
    let st = simulate_move(&pad, 1000, dest, 7, 1).unwrap();
    assert_eq!(st.progress.finish_time, 5000);
    assert_eq!(st.animation.begin_time, 0);
    assert_eq!(st.animation.begin_location, Point { x: 0, y: 0 });
    let d = st.animation.delta.unwrap();
    assert_eq!((d.dx, d.dy, d.dt), (meters(3), meters(4), 5000));
    // position query at t = 2500 returns (1.5, 2.0) meters
    let mid = st.animation.place_at(2500);
    assert_eq!(mid, Point { x: 1_500_000, y: 2_000_000 });
    // the move ends exactly at its destination
    let end = st.animation.place_at(5000);
    assert_eq!(end, dest);
}

#[test]
fn move_to_current_position_is_malformed() {
    let pad = ScratchPad {
        current_time: 0,
        current_location: OrientedPoint { point: Point { x: 5, y: 5 }, orientation: 0 },
    };
    let r = simulate_move(&pad, 1000, Point { x: 5, y: 5 }, 1, 1);
    assert!(matches!(r, Err(shape_sim::engine::EngineError::MalformedRequest)));
}

#[test]
fn zero_speed_is_malformed() {
    let pad = ScratchPad {
        current_time: 0,
        current_location: OrientedPoint { point: Point { x: 0, y: 0 }, orientation: 0 },
    };
    let r = simulate_move(&pad, 0, Point { x: meters(1), y: 0 }, 1, 1);
    assert!(matches!(r, Err(shape_sim::engine::EngineError::MalformedRequest)));
}

#[test]
fn chained_queue_segments_connect() {
    // SetQueue [Move(10,0), Move(10,10)] from (0,0), speed 1 m/s:
    // segment 1 finishes at 10000 ending at (10,0); segment 2 begins at
    // 10000 and finishes at 20000 ending at (10,10).
    let start = OrientedPoint { point: Point { x: 0, y: 0 }, orientation: 0 };
    let dests = vec![
        Point { x: meters(10), y: 0 },
        Point { x: meters(10), y: meters(10) },
    ];
    let sims = simulate_queue(0, start, 1000, &dests, 1, 1).unwrap();
    assert_eq!(sims.len(), 2);
    assert_eq!(sims[0].progress.finish_time, 10000);
    assert_eq!(sims[1].animation.begin_time, 10000);
    assert_eq!(sims[1].animation.begin_location, Point { x: meters(10), y: 0 });
    assert_eq!(sims[1].progress.finish_time, 20000);
    // at t = 15000 the unit is at (10, 5)
    let mid = sims[1].animation.place_at(15000);
    assert_eq!(mid, Point { x: meters(10), y: meters(5) });
}

#[test]
fn three_moves_chain_finish_times() {
    // finish_time of task k equals finish_time of task k-1 plus
    // distance_k / speed (rounded up to whole milliseconds)
    let start = OrientedPoint { point: Point { x: 0, y: 0 }, orientation: 0 };
    let dests = vec![
        Point { x: meters(3), y: meters(4) }, // 5 m from origin: 5000 ms
        Point { x: meters(3), y: 0 },         // 4 m further: 4000 ms
        Point { x: 0, y: 0 },                 // 3 m further: 3000 ms
    ];
    let sims = simulate_queue(0, start, 1000, &dests, 10, 1).unwrap();
    assert_eq!(sims[0].progress.finish_time, 5000);
    assert_eq!(sims[1].progress.finish_time, 9000);
    assert_eq!(sims[2].progress.finish_time, 12000);
    for (k, st) in sims.iter().enumerate() {
        assert_eq!(st.id, 10 + k as u64);
        match st.task {
            Task::MoveTo(d) => assert_eq!(d, dests[k]),
            _ => panic!("expected a move"),
        }
    }
}

#[test]
fn queue_with_degenerate_move_rejected() {
    let start = OrientedPoint { point: Point { x: 0, y: 0 }, orientation: 0 };
    let dests = vec![Point { x: meters(1), y: 0 }, Point { x: meters(1), y: 0 }];
    let r = simulate_queue(0, start, 1000, &dests, 1, 1);
    assert!(matches!(r, Err(shape_sim::engine::EngineError::MalformedRequest)));
}

#[test]
fn empty_queue_simulates_to_nothing() {
    let start = OrientedPoint { point: Point { x: 0, y: 0 }, orientation: 0 };
    let dests: Vec<Point> = vec![];
    let sims = simulate_queue(0, start, 1000, &dests, 1, 1).unwrap();
    assert!(sims.is_empty());
}
