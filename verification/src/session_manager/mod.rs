//! Session managers: from handshake to established sessions and back.
//!
//! - `server`: one handshake machine for all sources and a table of
//!   established sessions.
//! - `client`: one handshake and one session, re-established after every
//!   closure.
//! - `driver`: what a driver does with events, errors and timers.
//!
//! The managers compute; callers send, receive, wait, and apply the AEAD and
//! the key derivation. Failures caused by a peer are silent.
pub mod client;
pub mod driver;
pub mod event;
pub mod server;
