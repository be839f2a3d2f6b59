//! What peers and the torrent tell each other.

use vstd::prelude::*;

use crate::protocol::Block;

verus! {

/// What a peer tells the torrent.
#[derive(Debug)]
pub enum PeerEvent {
    /// A block of a piece that the peer is downloading came in.
    BlockDownloaded(Block),
    /// The download finished or the peer failed.
    Disconnected,
}

/// What the torrent tells a peer.
#[derive(Debug, Clone, Copy, PartialEq, Eq)]
pub enum TorrentManagerReq {
    /// Stop downloading the piece; another peer took it over.
    CancelPiece(u32),
    /// Disconnect, for the given reason.
    Disconnect(&'static str),
}

/// What happened to a piece, as the peers hear of it.
#[derive(Debug, Clone, Copy, PartialEq, Eq)]
pub enum SystemEvent {
    /// The piece was downloaded and verified.
    NewPieceAdded(u32),
    /// The piece failed its hash check; peers that have it may try again.
    PieceFailed(u32),
}

} // verus!
