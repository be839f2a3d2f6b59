//! The shared download state of a torrent and the decisions taken on it.

pub mod event;
pub mod handler;
pub mod laws;
pub mod torrent;

pub use event::{PeerEvent, SystemEvent, TorrentManagerReq};
pub use handler::{Flow, StorageOp, Torrent, TorrentAction};
pub use torrent::{PeerAddr, PieceState, StateError, TorrentSharedState};
