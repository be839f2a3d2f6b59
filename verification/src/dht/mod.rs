//! The DHT: finding peers of a torrent by asking nodes.

pub mod messages;
pub mod requester;
