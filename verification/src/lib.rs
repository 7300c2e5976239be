//! Verified wire codecs for EverQuest-compatible login, world, and zone servers.
//!
//! The crate is split the way the protocol is layered: `transport` holds the
//! SOE reliable-UDP framing, `login` the login-server application packets and
//! their legacy DES-CBC credential blocks, and `game` the dialect-specific
//! world and zone packets.

pub mod wire;
pub mod transport;
pub mod text;
pub mod login;
pub mod game;
