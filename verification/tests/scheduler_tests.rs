// Completion scheduler ordering: non-decreasing finish times across pops,
// with simulation id as the deterministic tiebreak.

use shape_sim::scheduler::Scheduler;
use shape_sim::tasks::{CompletedTask, SimulationEvent, TaskProgress};
use shape_sim::model::{Point, Task};

fn entry(finish_time: u64, simulation_id: u64, unit_id: u64) -> TaskProgress {
    TaskProgress {
        finish_time,
        completion: SimulationEvent::TaskCompleted(CompletedTask {
            unit_id,
            simulation_id,
            task: Task::MoveTo(Point { x: 1, y: 1 }),
        }),
    }
}

fn sim_of(tp: &TaskProgress) -> u64 {
    match &tp.completion {
        SimulationEvent::TaskCompleted(ct) => ct.simulation_id,
    }
}

#[test]
fn pops_in_nondecreasing_finish_order() {
    let mut s = Scheduler::new();
    s.push(entry(500, 3, 1));
    s.push(entry(100, 9, 2));
    s.push(entry(300, 1, 3));
    s.push(entry(100, 2, 4));
    let mut last_finish = 0;
    let mut popped = Vec::new();
    while s.len() > 0 {
        let tp = s.pop();
        assert!(tp.finish_time >= last_finish);
        last_finish = tp.finish_time;
        popped.push((tp.finish_time, sim_of(&tp)));
    }
    assert_eq!(popped, vec![(100, 2), (100, 9), (300, 1), (500, 3)]);
}

#[test]
fn equal_finish_times_fire_in_ascending_simulation_id() {
    let mut s = Scheduler::new();
    s.push(entry(42, 7, 1));
    s.push(entry(42, 3, 1));
    s.push(entry(42, 5, 1));
    assert_eq!(sim_of(&s.pop()), 3);
    assert_eq!(sim_of(&s.pop()), 5);
    assert_eq!(sim_of(&s.pop()), 7);
}

#[test]
fn peek_matches_pop() {
    let mut s = Scheduler::new();
    assert!(s.peek().is_none());
    s.push(entry(10, 1, 1));
    s.push(entry(5, 2, 2));
    let head = s.peek().unwrap();
    assert_eq!(head.finish_time, 5);
    let popped = s.pop();
    assert_eq!(popped.finish_time, 5);
    assert_eq!(sim_of(&popped), 2);
}

#[test]
fn clearing_by_unit_and_simulation() {
    let mut s = Scheduler::new();
    s.push(entry(10, 1, 100));
    s.push(entry(20, 2, 200));
    s.push(entry(30, 3, 100));
    s.clear_by_unit(100);
    assert_eq!(s.len(), 1);
    assert_eq!(sim_of(&s.peek().unwrap()), 2);
    s.push(entry(40, 4, 300));
    s.clear_by_simulation_id(2);
    assert_eq!(s.len(), 1);
    assert_eq!(sim_of(&s.peek().unwrap()), 4);
}
