//! Replay of captured link-layer frames at the cadence of their capture.
//!
//! The crate holds the decisions of a replay engine: which stored frames a
//! time range selects, how consecutive frames are grouped into waves and when
//! each wave is due, how the outcome of one transmission is classified, and
//! how the bounded and the continuous mode react to what the store answers.
//! Clocks, sockets and database connections are left to the caller, who hands
//! their results in as plain values.

pub mod config;
pub mod database;
pub mod packet;
