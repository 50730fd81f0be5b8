//! Peer discovery and single-file transfer between hosts on one local network.
//!
//! The crate holds the message codec and the decisions of both protocols as
//! verified functions on plain values; sockets, files and tasks belong to the
//! program that drives them.

pub mod digits;
pub mod frame;
pub mod json;
pub mod line;
pub mod protocol;
pub mod discovery;
pub mod transfer;
pub mod exchange;
