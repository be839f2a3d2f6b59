//! The BitTorrent peer wire protocol: the handshake and the messages that
//! follow it, as bytes on the wire.

pub mod bitfield;
pub mod bytes;
pub mod codec;
pub mod error;
pub mod handshake;
pub mod message;

pub use error::Error;
pub use codec::Decode;
pub use handshake::Handshake;
pub use message::{BittorrentP2pMessage, Block, BlockRequest, MessageId};
