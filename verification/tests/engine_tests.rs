// End-to-end engine scenarios: requests between ticks, completions fired in
// order, and per-subscriber events.

use shape_sim::engine::{handle_request, handle_tick, EngineError};
use shape_sim::event::{AddressedEvent, PlayerRequest, PublishEvent};
use shape_sim::game::{GameState, UnitLocation};
use shape_sim::model::Point;

fn mm(meters: i64) -> i64 {
    meters * 1_000_000
}

fn events_for(evs: &[AddressedEvent], player: u64) -> Vec<&PublishEvent> {
    evs.iter()
        .filter(|e| match e.recipient {
            None => true,
            Some(p) => p == player,
        })
        .map(|e| &e.event)
        .collect()
}

#[test]
fn single_move_scenario() {
    // create unit U at (0,0), speed 1 m/s; SetQueue [Move(3,4)]; after
    // 5000 ms the completion fires; position query at t=2500 is (1.5, 2.0)
    let mut state = GameState::new();
    handle_request(&mut state, PlayerRequest::PlayerJoined(100)).unwrap();
    let unit = handle_request(&mut state, PlayerRequest::CreateUnit(100))
        .unwrap()
        .created_id
        .unwrap();
    let evs = handle_tick(&mut state, 0, 0).unwrap();
    // the subscriber first sees a Show for the unit, then the synchronize
    let for_a = events_for(&evs, 100);
    assert!(matches!(for_a[0], PublishEvent::UnitCreated(a) if a.unit_id == unit));
    assert!(matches!(for_a.last().unwrap(), PublishEvent::TickCompleted(_)));

    handle_request(
        &mut state,
        PlayerRequest::SetQueue {
            player_id: 100,
            unit_id: unit,
            destinations: vec![Point { x: mm(3), y: mm(4) }],
        },
    )
    .unwrap();
    assert_eq!(state.get_next_completion(), Some(5000));
    let mid = state.get_unit_location(unit, 2500).unwrap();
    assert_eq!(mid.point, Point { x: 1_500_000, y: 2_000_000 });

    // the queue change is one Update, and Hide is never emitted
    let evs = handle_tick(&mut state, 1000, 1000).unwrap();
    let for_a = events_for(&evs, 100);
    assert!(matches!(for_a[0], PublishEvent::TasksUpdated(ev) if ev.unit_id == unit));
    assert!(!evs.iter().any(|e| matches!(e.event, PublishEvent::Hide(_))));

    // at t = 5000 the completion fires and the unit parks at (3,4)
    let evs = handle_tick(&mut state, 5000, 5000).unwrap();
    assert!(state.get_next_completion().is_none());
    let end = state.get_unit_location(unit, 5000).unwrap();
    assert_eq!(end.point, Point { x: mm(3), y: mm(4) });
    assert!(!evs.iter().any(|e| matches!(e.event, PublishEvent::Hide(_))));
}

#[test]
fn chained_queue_scenario() {
    // SetQueue [Move(10,0), Move(10,10)] from (0,0) at 1 m/s; at t=15000
    // the unit is at (10,5)
    let mut state = GameState::new();
    handle_request(&mut state, PlayerRequest::PlayerJoined(1)).unwrap();
    let unit = handle_request(&mut state, PlayerRequest::CreateUnit(1))
        .unwrap()
        .created_id
        .unwrap();
    handle_request(
        &mut state,
        PlayerRequest::SetQueue {
            player_id: 1,
            unit_id: unit,
            destinations: vec![
                Point { x: mm(10), y: 0 },
                Point { x: mm(10), y: mm(10) },
            ],
        },
    )
    .unwrap();
    assert_eq!(state.get_next_completion(), Some(10000));
    handle_tick(&mut state, 15000, 15000).unwrap();
    // first segment completed; second runs from (10,0) since 10000
    assert_eq!(state.get_next_completion(), Some(20000));
    let mid = state.get_unit_location(unit, 15000).unwrap();
    assert_eq!(mid.point, Point { x: mm(10), y: mm(5) });
    handle_tick(&mut state, 20000, 20000).unwrap();
    let end = state.get_unit_location(unit, 20000).unwrap();
    assert_eq!(end.point, Point { x: mm(10), y: mm(10) });
}

#[test]
fn replace_mid_flight_scenario() {
    // moving (0,0)->(10,0) at 1 m/s; at t=2000 the unit is at (2,0);
    // SetQueue [Move(0,0)] replaces the queue: the scheduler holds only the
    // new entry finishing at 4000, and one Update is staged
    let mut state = GameState::new();
    handle_request(&mut state, PlayerRequest::PlayerJoined(1)).unwrap();
    let unit = handle_request(&mut state, PlayerRequest::CreateUnit(1))
        .unwrap()
        .created_id
        .unwrap();
    handle_tick(&mut state, 0, 0).unwrap();
    handle_request(
        &mut state,
        PlayerRequest::SetQueue {
            player_id: 1,
            unit_id: unit,
            destinations: vec![Point { x: mm(10), y: 0 }],
        },
    )
    .unwrap();
    handle_tick(&mut state, 2000, 2000).unwrap();
    let here = state.get_unit_location(unit, 2000).unwrap();
    assert_eq!(here.point, Point { x: mm(2), y: 0 });
    handle_request(
        &mut state,
        PlayerRequest::SetQueue {
            player_id: 1,
            unit_id: unit,
            destinations: vec![Point { x: 0, y: 0 }],
        },
    )
    .unwrap();
    // the original entry (finish 10000) is gone; the new one finishes at
    // 2000 + 2000 ms
    assert_eq!(state.get_next_completion(), Some(4000));
    // the perspective receives exactly one Update carrying the new queue
    let evs = handle_tick(&mut state, 2100, 2100).unwrap();
    let updates: Vec<_> = evs
        .iter()
        .filter(|e| matches!(e.event, PublishEvent::TasksUpdated(_)))
        .collect();
    assert_eq!(updates.len(), 1);
}

#[test]
fn clear_queue_scenario() {
    // ClearQueue at t=2500 during a move (0,0)->(10,0) at 1 m/s: the unit
    // freezes at (2.5, 0); a new subscriber then sees a Show with a single
    // stationary segment there
    let mut state = GameState::new();
    handle_request(&mut state, PlayerRequest::PlayerJoined(1)).unwrap();
    let unit = handle_request(&mut state, PlayerRequest::CreateUnit(1))
        .unwrap()
        .created_id
        .unwrap();
    handle_tick(&mut state, 0, 0).unwrap();
    handle_request(
        &mut state,
        PlayerRequest::SetQueue {
            player_id: 1,
            unit_id: unit,
            destinations: vec![Point { x: mm(10), y: 0 }],
        },
    )
    .unwrap();
    handle_tick(&mut state, 2500, 2500).unwrap();
    handle_request(&mut state, PlayerRequest::ClearQueue { player_id: 1, unit_id: unit }).unwrap();
    assert!(state.get_next_completion().is_none());
    let frozen = state.get_unit_location(unit, 9999).unwrap();
    assert_eq!(frozen.point, Point { x: 2_500_000, y: 0 });
    // a later subscriber sees a Show with one stationary segment at (2.5,0)
    handle_request(&mut state, PlayerRequest::PlayerJoined(2)).unwrap();
    let evs = handle_tick(&mut state, 3000, 3000).unwrap();
    let for_b = events_for(&evs, 2);
    match &for_b[0] {
        PublishEvent::UnitCreated(a) => {
            assert_eq!(a.unit_id, unit);
            assert_eq!(a.queue.len(), 1);
            assert_eq!(a.queue[0].begin_location, Point { x: 2_500_000, y: 0 });
            assert!(a.queue[0].delta.is_none());
        }
        other => panic!("expected a show, got {:?}", other),
    }
}

#[test]
fn two_subscribers_staggered() {
    // A joins at t=0; unit created at t=1000; B joins at t=2000. B's first
    // data event is a Show for the unit; A never receives a second Show.
    let mut state = GameState::new();
    handle_request(&mut state, PlayerRequest::PlayerJoined(10)).unwrap();
    handle_tick(&mut state, 0, 0).unwrap();
    let unit = handle_request(&mut state, PlayerRequest::CreateUnit(10))
        .unwrap()
        .created_id
        .unwrap();
    let evs = handle_tick(&mut state, 1000, 1000).unwrap();
    let shows_a: Vec<_> = events_for(&evs, 10)
        .into_iter()
        .filter(|e| matches!(e, PublishEvent::UnitCreated(_)))
        .collect();
    assert_eq!(shows_a.len(), 1);
    handle_request(&mut state, PlayerRequest::PlayerJoined(20)).unwrap();
    let evs = handle_tick(&mut state, 2000, 2000).unwrap();
    // B's first data event is the Show for that unit
    let for_b: Vec<_> = evs
        .iter()
        .filter(|e| e.recipient == Some(20))
        .map(|e| &e.event)
        .collect();
    assert!(matches!(for_b[0], PublishEvent::UnitCreated(a) if a.unit_id == unit));
    // A receives no duplicate Show
    let shows_a: Vec<_> = evs
        .iter()
        .filter(|e| e.recipient == Some(10))
        .filter(|e| matches!(e.event, PublishEvent::UnitCreated(_)))
        .collect();
    assert!(shows_a.is_empty());
}

#[test]
fn same_queue_twice_updates_twice() {
    // the sequence number advances on every accepted SetQueue with a
    // non-empty queue (payloads are not compared), so sending the same
    // queue twice yields one Update per request
    let mut state = GameState::new();
    handle_request(&mut state, PlayerRequest::PlayerJoined(1)).unwrap();
    let unit = handle_request(&mut state, PlayerRequest::CreateUnit(1))
        .unwrap()
        .created_id
        .unwrap();
    handle_tick(&mut state, 0, 0).unwrap();
    for round in 0..2u64 {
        handle_request(
            &mut state,
            PlayerRequest::SetQueue {
                player_id: 1,
                unit_id: unit,
                destinations: vec![Point { x: mm(7), y: 0 }],
            },
        )
        .unwrap();
        let evs = handle_tick(&mut state, round, round).unwrap();
        let updates: Vec<_> = evs
            .iter()
            .filter(|e| matches!(e.event, PublishEvent::TasksUpdated(_)))
            .collect();
        assert_eq!(updates.len(), 1, "round {}", round);
    }
}

#[test]
fn invalid_unit_rejected() {
    let mut state = GameState::new();
    let r = handle_request(
        &mut state,
        PlayerRequest::SetQueue { player_id: 1, unit_id: 77, destinations: vec![] },
    );
    assert!(matches!(r, Err(EngineError::InvalidUnitId)));
    let r = handle_request(&mut state, PlayerRequest::ClearQueue { player_id: 1, unit_id: 77 });
    assert!(matches!(r, Err(EngineError::InvalidUnitId)));
}

#[test]
fn move_to_own_position_rejected() {
    // a newly created unit stands at the origin; queueing a move to the
    // origin is a malformed request
    let mut state = GameState::new();
    let unit = handle_request(&mut state, PlayerRequest::CreateUnit(1))
        .unwrap()
        .created_id
        .unwrap();
    let r = handle_request(
        &mut state,
        PlayerRequest::SetQueue {
            player_id: 1,
            unit_id: unit,
            destinations: vec![Point { x: 0, y: 0 }],
        },
    );
    assert!(matches!(r, Err(EngineError::MalformedRequest)));
}

#[test]
fn off_map_destination_rejected() {
    let mut state = GameState::new();
    let unit = handle_request(&mut state, PlayerRequest::CreateUnit(1))
        .unwrap()
        .created_id
        .unwrap();
    let r = handle_request(
        &mut state,
        PlayerRequest::SetQueue {
            player_id: 1,
            unit_id: unit,
            destinations: vec![Point { x: 2_000_000_000, y: 0 }],
        },
    );
    assert!(matches!(r, Err(EngineError::MalformedRequest)));
}

#[test]
fn queue_invariants_hold_after_set_queue() {
    // current simulation id is the head of the queue, and every queued id
    // is in the simulated-task table; the perspective never runs ahead
    let mut state = GameState::new();
    handle_request(&mut state, PlayerRequest::PlayerJoined(1)).unwrap();
    let unit = handle_request(&mut state, PlayerRequest::CreateUnit(1))
        .unwrap()
        .created_id
        .unwrap();
    handle_request(
        &mut state,
        PlayerRequest::SetQueue {
            player_id: 1,
            unit_id: unit,
            destinations: vec![Point { x: mm(1), y: 0 }, Point { x: mm(2), y: 0 }],
        },
    )
    .unwrap();
    let ut = state.tasks.unit_tasks.get(&unit).unwrap();
    assert_eq!(ut.tasks.len(), 2);
    assert_eq!(ut.current_simulation_id, Some(ut.tasks[0]));
    for sid in &ut.tasks {
        let st = state.tasks.simulated_tasks.get(sid).unwrap();
        assert_eq!(st.id, *sid);
    }
    let seq = ut.sequence_number;
    handle_tick(&mut state, 10, 10).unwrap();
    let persp = state.perspectives.get(&1).unwrap();
    let recorded = persp
        .last_update
        .iter()
        .find(|(u, _)| *u == unit)
        .map(|(_, s)| *s)
        .unwrap();
    assert!(recorded <= state.tasks.unit_tasks.get(&unit).unwrap().sequence_number);
    assert_eq!(recorded, seq);
}

#[test]
fn unit_location_out_of_segment_is_internal_error() {
    let mut state = GameState::new();
    let unit = handle_request(&mut state, PlayerRequest::CreateUnit(1))
        .unwrap()
        .created_id
        .unwrap();
    handle_request(
        &mut state,
        PlayerRequest::SetQueue {
            player_id: 1,
            unit_id: unit,
            destinations: vec![Point { x: mm(1), y: 0 }],
        },
    )
    .unwrap();
    // beyond the segment's finish time the location is not derivable
    let r = state.get_unit_location(unit, 999_999);
    assert!(matches!(r, Err(EngineError::InternalError)));
    let r = state.get_unit_location(12345, 0);
    assert!(matches!(r, Err(EngineError::InternalError)));
}

#[test]
fn player_left_prunes_perspective() {
    let mut state = GameState::new();
    handle_request(&mut state, PlayerRequest::PlayerJoined(5)).unwrap();
    assert!(state.perspectives.contains_key(&5));
    handle_request(&mut state, PlayerRequest::PlayerLeft(5)).unwrap();
    assert!(!state.perspectives.contains_key(&5));
    // ticks keep running without the subscriber
    let evs = handle_tick(&mut state, 100, 100).unwrap();
    assert!(matches!(evs.last().unwrap().event, PublishEvent::TickCompleted(_)));
}
