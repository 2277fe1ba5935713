//! Port knocking with cryptographic authentication: the wire codec, the
//! handshake decisions of client and server, and the lease engine that
//! projects time-bounded grants into a packet-filter ruleset.

pub mod auth;
pub mod conf_parse;
pub mod config;
pub mod firewall;
pub mod knock;
pub mod opts;
pub mod protocol;
pub mod wire;
