// Exercises the smaller query surface: segment evaluation, queue lookup and
// the completion report accessors.

use shape_sim::engine::handle_request;
use shape_sim::event::PlayerRequest;
use shape_sim::game::GameState;
use shape_sim::model::Point;
use shape_sim::tasks::TaskCompletion;

#[test]
fn evaluate_segment_midway() {
    let mut state = GameState::new();
    let unit = handle_request(&mut state, PlayerRequest::CreateUnit(1))
        .unwrap()
        .created_id
        .unwrap();
    handle_request(
        &mut state,
        PlayerRequest::SetQueue {
            player_id: 1,
            unit_id: unit,
            destinations: vec![Point { x: 4_000_000, y: 0 }],
        },
    )
    .unwrap();
    let sid = state.tasks.unit_tasks.get(&unit).unwrap().tasks[0];
    let seg = state.tasks.simulated_tasks.get(&sid).unwrap().animation;
    let p = state.eval_animation_segment(&seg, 1000).unwrap();
    assert_eq!(p.point, Point { x: 1_000_000, y: 0 });
    assert_eq!(p.orientation, seg.begin_orientation);
}

#[test]
fn next_task_in_queue() {
    let mut state = GameState::new();
    let unit = handle_request(&mut state, PlayerRequest::CreateUnit(1))
        .unwrap()
        .created_id
        .unwrap();
    handle_request(
        &mut state,
        PlayerRequest::SetQueue {
            player_id: 1,
            unit_id: unit,
            destinations: vec![Point { x: 1_000_000, y: 0 }, Point { x: 2_000_000, y: 0 }],
        },
    )
    .unwrap();
    let q = state.tasks.unit_tasks.get(&unit).unwrap().tasks.clone();
    assert_eq!(state.get_next_task(unit, q[0]), Some(q[1]));
    assert_eq!(state.get_next_task(unit, q[1]), None);
    assert_eq!(state.get_next_task(unit, 424242), None);
    assert_eq!(state.get_next_task(999, q[0]), None);
}

#[test]
fn completion_report_accessors() {
    let report = TaskCompletion::DestinationReached { unit_id: 3, simulation_id: Some(9) };
    assert_eq!(report.get_unit_id(), Some(3));
    assert_eq!(report.get_simulation_id(), Some(9));
    let report = TaskCompletion::DestinationReached { unit_id: 4, simulation_id: None };
    assert_eq!(report.get_simulation_id(), None);
}
