//! Core of an authoritative real-time simulation server for a multi-player
//! game of movable units on a 2D map.
//!
//! The server owns all game state; clients are thin viewers that subscribe to
//! a per-player event stream, enqueue movement tasks on owned units, and
//! interpolate positions between server ticks from the animation segments the
//! server publishes.
//!
//! Conventions, chosen once and used everywhere:
//! - time is in milliseconds (`TimeStamp`, 64-bit unsigned);
//! - coordinates are fixed-point: one `Coord` unit is one micrometer, so
//!   `1_000_000` units are one meter;
//! - speeds are in micrometers per millisecond (so `1000` is one meter per
//!   second);
//! - orientations are in millidegrees and are preserved through moves.

pub mod engine;
pub mod event;
pub mod game;
pub mod geom;
pub mod lobby;
pub mod model;
pub mod motion;
pub mod perspective;
pub mod scheduler;
pub mod tasks;
