//! An authoritative DNS responder: the wire-format codec, the record store and the
//! resolution of one question into one response datagram.

pub mod buffer;
pub mod dns_message;
pub mod dns_database;
pub mod resolver;
