//! Coordination of live trivia games: a registry of games, each with a host,
//! a roster of named players, a timed lifecycle, and the messages that keep
//! every participant informed.
//!
//! The library is deterministic and does no I/O. The caller supplies the
//! clock (milliseconds on a monotonic clock), routes each client request
//! through `manager::GameManager::handle`, drives `manager::GameManager::tick`
//! on a fixed cadence, and delivers the `game::Delivery` records that every
//! operation produces to the connections they name.
use vstd::prelude::*;

pub mod identifier;
pub mod timer;
pub mod packets;
pub mod names;
pub mod game;
pub mod manager;
pub mod connection;

verus! {

} // verus!
