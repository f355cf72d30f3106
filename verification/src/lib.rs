//! Authoritative session host for a small multiplayer game: message framing,
//! admission of connections, a fixed-point simulation, and the handling of
//! events in a session.

pub mod admission;
pub mod fixed;
pub mod frame;
pub mod host;
pub mod message;
pub mod registry;
pub mod sim;
pub mod state;
pub mod stream;
pub mod sync;
pub mod trace;
