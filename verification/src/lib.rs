//! A BitTorrent client library: bencode, the peer wire protocol, tracker
//! requests, the DHT, piece bookkeeping and storage layout, with their
//! contracts proved by Verus.

pub mod args;
pub mod bencode;
pub mod buffer;
pub mod dht;
pub mod hash;
pub mod parser;
pub mod peer;
pub mod protocol;
pub mod state;
pub mod stats;
pub mod storage;
pub mod torrent;
pub mod tracker;
pub mod utf8;
pub mod util;
