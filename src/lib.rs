//! Verified core of a local request/response channel: framing of a byte
//! stream, correlation of replies with pending requests, and the decisions
//! taken by the pumps and tasks of one connection.

pub mod connection;
pub mod frame;
pub mod kill_switch;
pub mod message;
pub mod pump;
pub mod tracker;
