//! Events flowing through the engine: inbound player requests, the internal
//! publish events that the subscriber bridge fans out, and the decision a
//! per-subscriber relay takes for each of them.

use crate::model::{Animatable, AnimationSegment, PlayerId, Point, TimeStamp, UnitId};
use vstd::prelude::*;

verus! {

/// The ticker fired at this wall time.
#[derive(Clone, Copy, Debug)]
pub struct TickEvent {
    pub wall_ms: TimeStamp,
}

/// One engine tick ran to completion; clients synchronize their clocks on
/// it.
#[derive(Clone, Copy, Debug, PartialEq, Eq, Structural)]
pub struct TickCompletedEvent {
    pub wall_ms: TimeStamp,
    pub game_time: TimeStamp,
}

/// A unit's visible task queue changed; carries the new animation queue.
#[derive(Clone, Debug)]
pub struct TasksUpdatedEvent {
    pub unit_id: UnitId,
    pub tasks: Vec<AnimationSegment>,
}

/// Reserved event for batched intention updates.
#[derive(Clone, Copy, Debug)]
pub struct UpdateIntentionsEvent {}

/// A request from one player, handled synchronously between ticks.
#[derive(Clone, Debug)]
pub enum PlayerRequest {
    PlayerJoined(PlayerId),
    PlayerLeft(PlayerId),
    /// Create a unit owned by the player; the engine allocates its id.
    CreateUnit(PlayerId),
    /// Replace the unit's task queue by moves to these destinations.
    SetQueue { player_id: PlayerId, unit_id: UnitId, destinations: Vec<Point> },
    /// Drop the unit's task queue; it stays where it is.
    ClearQueue { player_id: PlayerId, unit_id: UnitId },
    UpdateIntentions {},
}

/// An event published on the internal broadcast and converted to the wire
/// by the subscriber bridge.
#[derive(Clone, Debug)]
pub enum PublishEvent {
    /// First event of every subscription: the player's identity.
    PlayerIdentity(PlayerId),
    /// A unit became visible to the subscriber; carries the full animated
    /// description.
    UnitCreated(Animatable),
    /// A visible unit's queue changed.
    TasksUpdated(TasksUpdatedEvent),
    /// A unit left the subscriber's view.
    Hide(UnitId),
    /// Non-fatal gameplay feedback.
    Warning(String),
    /// A tick finished; broadcast to every subscriber.
    TickCompleted(TickCompletedEvent),
}

/// A publish event together with its audience: a single subscriber, or
/// everyone when `recipient` is absent.
#[derive(Clone, Debug)]
pub struct AddressedEvent {
    pub recipient: Option<PlayerId>,
    pub event: PublishEvent,
}

/// An engine input: a tick signal or a player request.
pub enum EngineEvent {
    Tick(TimeStamp),
    PlayerRequest(PlayerRequest),
}

/// Anything the server routes: an engine input or an outbound publish
/// event.
pub enum GameServerEvent {
    Engine(EngineEvent),
    PublishEvent(PublishEvent),
}

/// What a per-subscriber relay does with one item it receives from the
/// internal broadcast.
#[derive(Clone, Debug, PartialEq, Eq, Structural)]
pub enum RelayDecision {
    /// Forward the event to the subscriber's stream.
    Forward,
    /// The event is addressed to someone else: skip it.
    Skip,
    /// The subscriber lagged past the broadcast buffer: terminate its
    /// stream with an "unavailable" status and do not attempt replay.
    TerminateLagged,
}

/// The relay decision for one received item: forward events addressed to
/// this subscriber or to everyone, skip the rest, and terminate the stream
/// when the broadcast reports the subscriber lagged behind its buffer.
/// `lagged` is what the broadcast receiver reported; other subscribers are
/// never affected by one subscriber's lag.
pub fn relay_decision(lagged: bool, recipient: Option<PlayerId>, player_id: PlayerId) -> (r:
    RelayDecision)
    ensures
        lagged ==> r == RelayDecision::TerminateLagged,
        !lagged ==> {
            &&& (match recipient {
                None => r == RelayDecision::Forward,
                Some(p) => r == if p == player_id {
                    RelayDecision::Forward
                } else {
                    RelayDecision::Skip
                },
            })
        },
{
    if lagged {
        RelayDecision::TerminateLagged
    } else {
        match recipient {
            None => RelayDecision::Forward,
            Some(p) => {
                if p == player_id {
                    RelayDecision::Forward
                } else {
                    RelayDecision::Skip
                }
            },
        }
    }
}

} // verus!
