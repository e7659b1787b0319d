// Lobby registry: dense ids, ready flags, removal and the served ordering.

use shape_sim::event::{relay_decision, RelayDecision};
use shape_sim::lobby::LobbyState;

#[test]
fn lobby_lifecycle() {
    let mut lobby = LobbyState::new();
    let a = lobby.create_player(String::from("ada"));
    let b = lobby.create_player(String::from("grace"));
    assert_eq!(a.id, 1);
    assert_eq!(b.id, 2);
    assert_eq!(a.name, "ada");
    assert!(!a.ready);

    assert!(lobby.set_ready(1, true));
    assert!(!lobby.set_ready(99, true));

    let served = lobby.lobby();
    assert_eq!(served.players.len(), 2);
    assert_eq!(served.players[0].id, 1);
    assert!(served.players[0].ready);
    assert_eq!(served.players[1].id, 2);
    assert!(!served.players[1].ready);

    assert!(lobby.delete_player(1));
    assert!(!lobby.delete_player(1));
    let served = lobby.lobby();
    assert_eq!(served.players.len(), 1);
    assert_eq!(served.players[0].name, "grace");
}

#[test]
fn lagging_subscriber_is_terminated() {
    // the relay terminates a subscriber the broadcast reports as lagged,
    // whatever the event; other subscribers' relays are untouched
    assert_eq!(relay_decision(true, None, 7), RelayDecision::TerminateLagged);
    assert_eq!(relay_decision(true, Some(7), 7), RelayDecision::TerminateLagged);
    assert_eq!(relay_decision(false, None, 7), RelayDecision::Forward);
    assert_eq!(relay_decision(false, Some(7), 7), RelayDecision::Forward);
    assert_eq!(relay_decision(false, Some(8), 7), RelayDecision::Skip);
}
