//! The verified core of a Minecraft server scanner: the wire encoding of the
//! protocol, the exchanges that ask a server for its status and for the way it
//! authenticates players, and the records that a scan fills.

pub mod auth;
pub mod error;
pub mod login;
pub mod motd;
pub mod packet;
pub mod scan;
pub mod status;
pub mod targets;
pub mod text;
pub mod uuid;
pub mod varint;
