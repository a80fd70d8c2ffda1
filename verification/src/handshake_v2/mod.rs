//! The handshake: mutual authentication and hybrid key establishment.
//!
//! ```text
//! M1 ClientHello:   version(1) | sid(8) | eph_pk_c(1184) | x_c(32) | client_sig(3309)
//! M2 ServerHello:   version(1) | sid(8) | eph_pk_s(1184) | x_s(32) | ct2(1088) | server_sig(3309)
//! M3 ClientConfirm: version(1) | sid(8) | ct3(1088) | client_finished(16)
//! ```
//!
//! Messages travel as fragments, one per datagram. The ML-KEM and ML-DSA work
//! is done by the caller: a machine hands out a request and is resumed with
//! the answer. Framing, transcripts, key schedule, order of checks, budgets and
//! timers are decided here.
pub mod fragment;
pub mod key_schedule;
pub mod message;
pub mod transcript;
pub mod outcome;
pub mod retransmit;
pub mod client;
pub mod server;
pub mod run;
