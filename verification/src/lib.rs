//! Event-sourced core of a small multiplayer movement game: the authoritative
//! world model, the events that replicate it, the two ways of reaching an
//! authority, and the client's per-frame reconciliation.
//!
//! The library carries every real number by its IEEE 754 bit pattern and never
//! computes with one: it moves the values, compares them with zero and writes
//! the few constants of the rules. Integrating motion is the caller's work.

pub mod connection;
pub mod event;
pub mod id;
pub mod model;
pub mod player;
pub mod scalar;
pub mod session;
