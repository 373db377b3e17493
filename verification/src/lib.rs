//! Cross-device transfer and handshake logic for a pair of cooperating
//! microcontrollers: the wire format spoken with the resource server, the
//! fetchers that drive it, and the serial handshake and relay between the two
//! devices.
//!
//! Nothing here performs I/O. Each protocol is a state machine: the caller
//! performs the action a step asks for and reports back what happened.
//!
//! - [`wire`]: the frames, their encoding and decoding.
//! - [`session`]: the retry policy and what a connection keeps between
//!   exchanges.
//! - [`catalog`] and [`resource`]: the two exchanges with the server.
//! - [`handshake`]: the single-byte ping-pong between the devices.
//! - [`relay`] and [`shared`]: assembly of a forwarded payload on the second
//!   device, and the lock that the interrupt and the tick loop meet at.
//! - [`error`]: what can go wrong.

pub mod catalog;
pub mod error;
pub mod handshake;
pub mod relay;
pub mod resource;
pub mod session;
pub mod shared;
pub mod wire;
