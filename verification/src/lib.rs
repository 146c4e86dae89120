//! Verified building blocks for a small family of network services.
//!
//! The centre of the crate is a speed-enforcement service: cameras report
//! plate sightings, the service derives average speeds between sightings on
//! the same road, and tickets are routed to dispatcher consoles. The wire
//! codec, the rules of a connection, the ticket engine and the dispatch
//! router are all functions of their inputs alone, so that the surrounding
//! program only moves bytes between sockets and these functions.
//!
//! Beside it stand the rules of a few simpler services: a primality test on
//! numbers given as text, the lines of a chat room, a price log, the
//! rewriting done by a chat proxy, and a key-value store spoken to in
//! datagrams.

/// Conversions between byte strings and text.
pub mod text;
/// The messages of the speed-enforcement protocol.
pub mod message;
/// The binary wire format of the speed-enforcement protocol.
pub mod wire;
/// Average speed in exact integer arithmetic.
pub mod speed;
/// The ticket engine.
pub mod engine;
/// The dispatch router.
pub mod router;
/// The rules of one connection.
pub mod session;
/// The heartbeat scheduler.
pub mod heartbeat;
/// The owner of the ticket engine and the dispatch router.
pub mod coordinator;
/// A price log and its nine-byte messages.
pub mod prices;
/// A key-value store and its datagrams.
pub mod kvstore;
/// The lines and the names of a chat room.
pub mod chat;
/// The rewriting of chat lines by a proxy.
pub mod proxy;
/// Primality of numbers given as text.
pub mod prime;
