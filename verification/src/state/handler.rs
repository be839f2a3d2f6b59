//! The torrent's decisions on what reaches it: blocks that peers downloaded,
//! peers that join or leave, and the verdicts of piece hash checks. The
//! caller runs the event loop: it hands each event in and performs the
//! returned actions in order.

use vstd::prelude::*;

use super::event::{PeerEvent, TorrentManagerReq};
use super::torrent::{
    all_verified, downloading_by, elapsed_since, peer_key, progress_of, requeue_peer,
    reset_progress, sat_add, with_entry, BlockProgress, PeerAddr, PieceState, SharedModel,
    StateError, TorrentSharedState,
};
use crate::protocol::Block;
use crate::torrent::TorrentMeta;
use crate::util::{piece_size_from_idx, spec_piece_size};

verus! {

/// What the storage is asked to do.
#[derive(Debug)]
pub enum StorageOp {
    /// Write a block.
    AddBlock(Block),
    /// Check the hash of a piece: the peer that downloaded it, its index and
    /// its expected hash.
    CheckPieceHash((PeerAddr, u32, [u8; 20])),
}

/// What the torrent asks to be done.
#[derive(Debug)]
pub enum TorrentAction {
    /// Hand this to the storage.
    Storage(StorageOp),
    /// Tell this to a peer.
    Peer(PeerAddr, TorrentManagerReq),
    /// A peer is gone: one peer fewer is counted.
    PeerLeft,
    /// A piece was verified: one more piece, with these bytes, is counted.
    PieceVerified(usize),
}

/// Whether the event loop goes on.
#[derive(Clone, Copy, Debug, PartialEq, Eq, Structural)]
pub enum Flow {
    Continue,
    Stop,
}

/// The torrent: what it knows of itself, and the peers that it can reach.
pub struct Torrent {
    torrent_meta: TorrentMeta,
    piece_hashes: Vec<[u8; 20]>,
    peers: Vec<PeerAddr>,
}

/// The state after every piece that `peer` was downloading is queued again
/// with its progress reset.
pub open spec fn released(m: SharedModel, peer: PeerAddr) -> SharedModel {
    SharedModel {
        pieces: requeue_peer(m.pieces, peer),
        stats: m.stats,
        progress: reset_progress(m.progress, m.pieces, peer, m.pieces.len() as int),
        cancellations: m.cancellations,
    }
}

/// Whether releasing `peer`'s pieces meets one whose index does not fit in
/// a `u32`.
pub open spec fn release_fails(pieces: Seq<PieceState>, peer: PeerAddr) -> bool {
    exists|i: int| u32::MAX < i < pieces.len() && downloading_by(pieces, i, peer)
}

/// The actions of disconnecting `peer`: it is told the reason where it is
/// to be told and can be reached, and, where its pieces were released, one
/// peer fewer is counted.
pub open spec fn disconnect_actions(
    peers: Seq<PeerAddr>,
    peer: PeerAddr,
    reason: &'static str,
    send: bool,
    released_ok: bool,
) -> Seq<TorrentAction> {
    let sent = if send && peers.contains(peer) {
        seq![TorrentAction::Peer(peer, TorrentManagerReq::Disconnect(reason))]
    } else {
        Seq::empty()
    };
    if released_ok {
        sent.push(TorrentAction::PeerLeft)
    } else {
        sent
    }
}

/// The state with piece `index` counted at `bytes` bytes.
pub open spec fn recorded(m: SharedModel, index: u32, bytes: int) -> SharedModel {
    SharedModel {
        pieces: m.pieces,
        stats: m.stats,
        progress: m.progress.insert(index, bytes as usize),
        cancellations: m.cancellations,
    }
}

/// The state after `peer` finished piece `i`, downloading since `start`,
/// at time `now`: the piece is downloaded, and the peer's statistics gain
/// the time it took and one piece.
pub open spec fn finished_piece(m: SharedModel, peer: PeerAddr, i: int, start: u64, now: u64) -> SharedModel {
    let stats = with_entry(m.stats, peer_key(peer));
    let mine = stats[peer_key(peer)];
    SharedModel {
        pieces: m.pieces.update(i, PieceState::Downloaded),
        stats: m.stats.insert(
            peer_key(peer),
            (sat_add(mine.0, elapsed_since(start, now)), sat_add(mine.1, 1)),
        ),
        progress: m.progress,
        cancellations: m.cancellations,
    }
}

/// What taking a block in gives: the state after it, the actions, and
/// whether the block was accepted (or the error met).
pub struct BlockStep {
    pub model: SharedModel,
    pub actions: Seq<TorrentAction>,
    pub accepted: Result<bool, StateError>,
}

/// Taking in `block`, downloaded by `peer` at time `now`: the block is
/// refused where it would make its piece longer than the piece's size;
/// else it is counted and stored, and where it completes its piece, the
/// piece is handed to the hash check, or the block is refused where there
/// is no hash for the piece.
pub open spec fn block_step(
    m: SharedModel,
    meta: TorrentMeta,
    hashes: Seq<[u8; 20]>,
    peer: PeerAddr,
    block: Block,
    now: u64,
) -> BlockStep {
    let index = block.index;
    let i = index as int;
    let before = progress_of(m.progress, index);
    let after = before + block.block@.len();
    let expected = spec_piece_size(
        meta.number_of_pieces as nat,
        meta.total_length as nat,
        meta.piece_size as nat,
        index as nat,
    );
    if after > expected {
        BlockStep { model: recorded(m, index, before as int), actions: Seq::empty(), accepted: Ok(false) }
    } else {
        let m1 = recorded(m, index, after);
        let stored = seq![TorrentAction::Storage(StorageOp::AddBlock(block))];
        if after < expected {
            BlockStep { model: m1, actions: stored, accepted: Ok(true) }
        } else if i >= hashes.len() {
            BlockStep { model: m1, actions: stored, accepted: Ok(false) }
        } else if i >= m.pieces.len() {
            BlockStep { model: m1, actions: stored, accepted: Err(StateError::BadPieceIndex) }
        } else {
            match m.pieces[i] {
                PieceState::Downloading { start, .. } => BlockStep {
                    model: finished_piece(m1, peer, i, start, now),
                    actions: stored.push(
                        TorrentAction::Storage(StorageOp::CheckPieceHash((peer, index, hashes[i]))),
                    ),
                    accepted: Ok(true),
                },
                _ => BlockStep {
                    model: m1,
                    actions: stored,
                    accepted: Err(StateError::PieceNotDownloading),
                },
            }
        }
    }
}

/// The result of the event loop's step after disconnecting a peer whose
/// pieces were released from `pieces`: an error where that met an index
/// past `u32::MAX`.
pub open spec fn flow_after_release(pieces: Seq<PieceState>, peer: PeerAddr) -> Result<Flow, StateError> {
    if release_fails(pieces, peer) {
        Err(StateError::PieceIndexOverflow)
    } else {
        Ok(Flow::Continue)
    }
}

/// The disconnect requests that tell each of `peers` that the download is
/// finished.
pub open spec fn finish_actions(peers: Seq<PeerAddr>) -> Seq<TorrentAction> {
    peers.map_values(
        |p: PeerAddr| TorrentAction::Peer(p, TorrentManagerReq::Disconnect("finished downloading")),
    )
}

/// The cancellation requests among `reqs` whose peer is in `peers`, as
/// actions, in order.
pub open spec fn cancel_actions(reqs: Seq<(PeerAddr, u32)>, peers: Seq<PeerAddr>) -> Seq<TorrentAction>
    decreases reqs.len(),
{
    if reqs.len() == 0 {
        Seq::empty()
    } else {
        let prev = cancel_actions(reqs.drop_last(), peers);
        let (p, idx) = reqs.last();
        if peers.contains(p) {
            prev.push(TorrentAction::Peer(p, TorrentManagerReq::CancelPiece(idx)))
        } else {
            prev
        }
    }
}

impl Torrent {
    pub closed spec fn meta(&self) -> TorrentMeta {
        self.torrent_meta
    }

    pub closed spec fn hashes(&self) -> Seq<[u8; 20]> {
        self.piece_hashes@
    }

    /// The peers that the torrent can reach, in the order they joined.
    pub closed spec fn peers_view(&self) -> Seq<PeerAddr> {
        self.peers@
    }

    /// Every peer is listed once.
    pub open spec fn wf(&self) -> bool {
        self.peers_view().no_duplicates()
    }

    /// A torrent with the given description and piece hashes, and no peers
    /// yet.
    pub fn new(torrent_meta: TorrentMeta, piece_hashes: Vec<[u8; 20]>) -> (r: Self)
        ensures
            r.wf(),
            r.meta() == torrent_meta,
            r.hashes() == piece_hashes@,
            r.peers_view() == Seq::<PeerAddr>::empty(),
    {
        Torrent { torrent_meta, piece_hashes, peers: Vec::new() }
    }

    /// Where `peer` is listed.
    fn peer_position(&self, peer: PeerAddr) -> (r: Option<usize>)
        ensures
            match r {
                Some(i) => i < self.peers_view().len() && self.peers_view()[i as int] == peer,
                None => !self.peers_view().contains(peer),
            },
    {
        let mut i: usize = 0;
        while i < self.peers.len()
            invariant
                i <= self.peers@.len(),
                forall|j: int| 0 <= j < i ==> self.peers@[j] != peer,
            decreases self.peers@.len() - i,
        {
            if self.peers[i] == peer {
                return Some(i);
            }
            i = i + 1;
        }
        None
    }

    /// Lists a peer that joined; one that is listed already stays listed
    /// once.
    pub fn on_new_peer(&mut self, peer: PeerAddr)
        requires
            old(self).wf(),
        ensures
            final(self).wf(),
            final(self).peers_view() == (if old(self).peers_view().contains(peer) {
                old(self).peers_view()
            } else {
                old(self).peers_view().push(peer)
            }),
            final(self).meta() == old(self).meta(),
            final(self).hashes() == old(self).hashes(),
    {
        if self.peer_position(peer).is_none() {
            self.peers.push(peer);
        }
    }

    /// Takes `peer` off the list; whether it was listed.
    fn remove_peer(&mut self, peer: PeerAddr) -> (r: bool)
        requires
            old(self).wf(),
        ensures
            final(self).wf(),
            r == old(self).peers_view().contains(peer),
            final(self).peers_view() == old(self).peers_view().remove_value(peer),
            final(self).meta() == old(self).meta(),
            final(self).hashes() == old(self).hashes(),
    {
        let ghost old_peers = self.peers@;
        proof {
            old_peers.index_of_first_ensures(peer);
        }
        match self.peer_position(peer) {
            Some(i) => {
                proof {
                    let first = old_peers.index_of_first(peer)->Some_0;
                    assert(old_peers[first] == old_peers[i as int]);
                    assert(first == i);
                }
                self.peers.remove(i);
                proof {
                    assert forall|a: int, b: int|
                        0 <= a < self.peers@.len() && 0 <= b < self.peers@.len() && a != b implies
                        self.peers@[a] != self.peers@[b] by {
                        let oa = if a < i { a } else { a + 1 };
                        let ob = if b < i { b } else { b + 1 };
                        assert(self.peers@[a] == old_peers[oa]);
                        assert(self.peers@[b] == old_peers[ob]);
                    }
                }
                true
            },
            None => false,
        }
    }

    /// Disconnects `peer`: where `send_disconnect`, it is taken off the list
    /// and, where it was listed, told `reason`; the pieces it was
    /// downloading are queued again with their progress reset. An error
    /// where such a piece's index does not fit in a `u32`.
    fn disconnect_peer(
        &mut self,
        state: &mut TorrentSharedState,
        peer: PeerAddr,
        reason: &'static str,
        send_disconnect: bool,
        actions: &mut Vec<TorrentAction>,
    ) -> (r: Result<(), StateError>)
        requires
            old(self).wf(),
        ensures
            final(self).wf(),
            final(self).peers_view() == (if send_disconnect {
                old(self).peers_view().remove_value(peer)
            } else {
                old(self).peers_view()
            }),
            final(self).meta() == old(self).meta(),
            final(self).hashes() == old(self).hashes(),
            final(state).model() == released(old(state).model(), peer),
            r is Err <==> release_fails(old(state).pieces_view(), peer),
            r is Err ==> r == Err::<(), StateError>(StateError::PieceIndexOverflow),
            final(actions)@ == old(actions)@ + disconnect_actions(
                old(self).peers_view(),
                peer,
                reason,
                send_disconnect,
                r is Ok,
            ),
    {
        if send_disconnect {
            if self.remove_peer(peer) {
                actions.push(TorrentAction::Peer(peer, TorrentManagerReq::Disconnect(reason)));
            }
        }
        let ghost mid = actions@;
        let released_ok = state.release_peer_pieces(&peer);
        match released_ok {
            Ok(()) => {
                actions.push(TorrentAction::PeerLeft);
            },
            Err(e) => {
                return Err(e);
            },
        }
        Ok(())
    }

    /// Takes in `block`, which `peer` downloaded, at time `now`, as
    /// `block_step` says; whether it was accepted.
    fn add_block(
        &self,
        state: &mut TorrentSharedState,
        peer: PeerAddr,
        block: Block,
        now: u64,
        actions: &mut Vec<TorrentAction>,
    ) -> (r: Result<bool, StateError>)
        requires
            self.meta().number_of_pieces >= 1,
            self.meta().piece_size > 0,
        ensures
            ({
                let s = block_step(old(state).model(), self.meta(), self.hashes(), peer, block, now);
                &&& final(state).model() == s.model
                &&& final(actions)@ == old(actions)@ + s.actions
                &&& r == s.accepted
            }),
    {
        let index = block.index;
        let block_len = block.block.len();
        let expected_piece_size = piece_size_from_idx(
            self.torrent_meta.number_of_pieces,
            self.torrent_meta.total_length,
            self.torrent_meta.piece_size,
            index as usize,
        );
        let ghost a0 = actions@;
        match state.record_block(index, block_len, expected_piece_size) {
            BlockProgress::TooLarge => {
                assert(actions@ == a0 + Seq::<TorrentAction>::empty());
                return Ok(false);
            },
            BlockProgress::Accepted { complete } => {
                actions.push(TorrentAction::Storage(StorageOp::AddBlock(block)));
                if !complete {
                    return Ok(true);
                }
            },
        }
        let ghost a1 = actions@;
        match state.finish_piece(self.piece_hashes.as_slice(), peer, index, now) {
            Ok(None) => Ok(false),
            Ok(Some(expected_piece_hash)) => {
                actions.push(
                    TorrentAction::Storage(StorageOp::CheckPieceHash((peer, index, expected_piece_hash))),
                );
                Ok(true)
            },
            Err(e) => Err(e),
        }
    }

    /// Handles what `peer` reports, at time `now`.
    ///
    /// A downloaded block counts only while `peer` is still the one
    /// downloading its piece: it is taken in as `block_step` says, and where
    /// it is refused, the peer is told to disconnect ("error while adding a
    /// block") and its pieces are released. An error where the block's piece
    /// does not exist.
    ///
    /// A peer that disconnected is taken off the list and its pieces are
    /// released; an error where no peer is left and the torrent is not
    /// complete.
    pub fn on_peer_event(
        &mut self,
        state: &mut TorrentSharedState,
        peer: PeerAddr,
        event: PeerEvent,
        now: u64,
        actions: &mut Vec<TorrentAction>,
    ) -> (r: Result<Flow, StateError>)
        requires
            old(self).wf(),
            old(self).meta().number_of_pieces >= 1,
            old(self).meta().piece_size > 0,
        ensures
            final(self).wf(),
            final(self).meta() == old(self).meta(),
            final(self).hashes() == old(self).hashes(),
            match event {
                PeerEvent::BlockDownloaded(block) => {
                    let m = old(state).model();
                    let i = block.index as int;
                    if i >= m.pieces.len() {
                        &&& r == Err::<Flow, StateError>(StateError::BadPieceIndex)
                        &&& final(state).model() == m
                        &&& final(actions)@ == old(actions)@
                        &&& final(self).peers_view() == old(self).peers_view()
                    } else if !downloading_by(m.pieces, i, peer) {
                        &&& r == Ok::<Flow, StateError>(Flow::Continue)
                        &&& final(state).model() == m
                        &&& final(actions)@ == old(actions)@
                        &&& final(self).peers_view() == old(self).peers_view()
                    } else {
                        let s = block_step(m, old(self).meta(), old(self).hashes(), peer, block, now);
                        match s.accepted {
                            Ok(false) => {
                                &&& r == flow_after_release(s.model.pieces, peer)
                                &&& final(state).model() == released(s.model, peer)
                                &&& final(actions)@ == old(actions)@ + s.actions + disconnect_actions(
                                    old(self).peers_view(),
                                    peer,
                                    "error while adding a block",
                                    true,
                                    r is Ok,
                                )
                                &&& final(self).peers_view() == old(self).peers_view().remove_value(peer)
                            },
                            _ => {
                                &&& r == (match s.accepted {
                                    Ok(_) => Ok::<Flow, StateError>(Flow::Continue),
                                    Err(e) => Err(e),
                                })
                                &&& final(state).model() == s.model
                                &&& final(actions)@ == old(actions)@ + s.actions
                                &&& final(self).peers_view() == old(self).peers_view()
                            },
                        }
                    }
                },
                PeerEvent::Disconnected => {
                    let m = old(state).model();
                    let peers = old(self).peers_view().remove_value(peer);
                    &&& final(self).peers_view() == peers
                    &&& final(state).model() == released(m, peer)
                    &&& final(actions)@ == old(actions)@ + disconnect_actions(
                        peers,
                        peer,
                        "peer exited",
                        false,
                        !release_fails(m.pieces, peer),
                    )
                    &&& r == (if release_fails(m.pieces, peer) {
                        Err(StateError::PieceIndexOverflow)
                    } else if peers.len() == 0 && !all_verified(requeue_peer(m.pieces, peer)) {
                        Err(StateError::Incomplete)
                    } else {
                        Ok(Flow::Continue)
                    })
                },
            },
    {
        match event {
            PeerEvent::BlockDownloaded(block) => {
                let not_stolen = match state.verify_piece_not_stolen(peer, block.index as usize) {
                    Ok(b) => b,
                    Err(e) => return Err(e),
                };
                if !not_stolen {
                    return Ok(Flow::Continue);
                }
                let ghost a0 = actions@;
                let ghost s = block_step(state.model(), self.meta(), self.hashes(), peer, block, now);
                let accepted = self.add_block(state, peer, block, now, actions);
                match accepted {
                    Ok(true) => Ok(Flow::Continue),
                    Ok(false) => {
                        let ghost a1 = actions@;
                        let res = self.disconnect_peer(
                            state,
                            peer,
                            "error while adding a block",
                            true,
                            actions,
                        );
                        proof {
                            assert(actions@ == a0 + s.actions + (actions@.skip(a1.len() as int)));
                        }
                        match res {
                            Ok(()) => Ok(Flow::Continue),
                            Err(e) => Err(e),
                        }
                    },
                    Err(e) => Err(e),
                }
            },
            PeerEvent::Disconnected => {
                self.remove_peer(peer);
                let res = self.disconnect_peer(state, peer, "peer exited", false, actions);
                match res {
                    Ok(()) => {},
                    Err(e) => return Err(e),
                }
                if self.peers.len() == 0 && !state.finished_downloading() {
                    return Err(StateError::Incomplete);
                }
                Ok(Flow::Continue)
            },
        }
    }

    /// Handles the verdict of the hash check of piece `piece_idx`, which
    /// `peer` downloaded. A failed check disconnects the peer ("piece hash
    /// verification failed") and releases its pieces. A passed one marks the
    /// piece verified and counts it with its bytes; where the torrent is then
    /// complete, every listed peer is told so ("finished downloading"), the
    /// list is emptied and the loop stops. An error where the piece does not
    /// exist, or no bytes were counted for it (it is marked verified first).
    pub fn on_piece_checked(
        &mut self,
        state: &mut TorrentSharedState,
        peer: PeerAddr,
        piece_idx: u32,
        is_correct: bool,
        actions: &mut Vec<TorrentAction>,
    ) -> (r: Result<Flow, StateError>)
        requires
            old(self).wf(),
        ensures
            final(self).wf(),
            final(self).meta() == old(self).meta(),
            final(self).hashes() == old(self).hashes(),
            ({
                let m = old(state).model();
                let i = piece_idx as int;
                if !is_correct {
                    &&& r == flow_after_release(m.pieces, peer)
                    &&& final(state).model() == released(m, peer)
                    &&& final(actions)@ == old(actions)@ + disconnect_actions(
                        old(self).peers_view(),
                        peer,
                        "piece hash verification failed",
                        true,
                        r is Ok,
                    )
                    &&& final(self).peers_view() == old(self).peers_view().remove_value(peer)
                } else if i >= m.pieces.len() {
                    &&& r == Err::<Flow, StateError>(StateError::BadPieceIndex)
                    &&& final(state).model() == m
                    &&& final(actions)@ == old(actions)@
                    &&& final(self).peers_view() == old(self).peers_view()
                } else {
                    let pieces = m.pieces.update(i, PieceState::Verified);
                    &&& final(state).model() == SharedModel { pieces, ..m }
                    &&& if !m.progress.contains_key(piece_idx) {
                        &&& r == Err::<Flow, StateError>(StateError::MissingProgress)
                        &&& final(actions)@ == old(actions)@
                        &&& final(self).peers_view() == old(self).peers_view()
                    } else if all_verified(pieces) {
                        &&& r == Ok::<Flow, StateError>(Flow::Stop)
                        &&& final(actions)@ == old(actions)@.push(
                            TorrentAction::PieceVerified(m.progress[piece_idx]),
                        ) + finish_actions(old(self).peers_view())
                        &&& final(self).peers_view() == Seq::<PeerAddr>::empty()
                    } else {
                        &&& r == Ok::<Flow, StateError>(Flow::Continue)
                        &&& final(actions)@ == old(actions)@.push(
                            TorrentAction::PieceVerified(m.progress[piece_idx]),
                        )
                        &&& final(self).peers_view() == old(self).peers_view()
                    }
                }
            }),
    {
        if !is_correct {
            let res = self.disconnect_peer(
                state,
                peer,
                "piece hash verification failed",
                true,
                actions,
            );
            return match res {
                Ok(()) => Ok(Flow::Continue),
                Err(e) => Err(e),
            };
        }
        let (downloaded_bytes, finished) = match state.on_piece_verified(piece_idx) {
            Ok(v) => v,
            Err(e) => return Err(e),
        };
        actions.push(TorrentAction::PieceVerified(downloaded_bytes));
        if !finished {
            return Ok(Flow::Continue);
        }
        let ghost base = actions@;
        let mut k: usize = 0;
        while k < self.peers.len()
            invariant
                k <= self.peers@.len(),
                actions@ == base + finish_actions(self.peers@.take(k as int)),
            decreases self.peers@.len() - k,
        {
            let p = self.peers[k];
            actions.push(
                TorrentAction::Peer(p, TorrentManagerReq::Disconnect("finished downloading")),
            );
            proof {
                assert(finish_actions(self.peers@.take(k + 1)) =~= finish_actions(
                    self.peers@.take(k as int),
                ).push(TorrentAction::Peer(p, TorrentManagerReq::Disconnect("finished downloading"))));
            }
            k = k + 1;
        }
        assert(self.peers@.take(self.peers@.len() as int) =~= self.peers@);
        self.peers = Vec::new();
        Ok(Flow::Stop)
    }

    /// Passes on the pending cancellation requests, oldest first, to the
    /// listed peers that they are for; the others are dropped. No request is
    /// left pending.
    pub fn forward_cancellations(&self, state: &mut TorrentSharedState, actions: &mut Vec<TorrentAction>)
        ensures
            final(state).model() == (SharedModel {
                cancellations: Seq::empty(),
                ..old(state).model()
            }),
            final(actions)@ == old(actions)@ + cancel_actions(
                old(state).cancellations_view(),
                self.peers_view(),
            ),
    {
        let ghost reqs = state.cancellations_view();
        let ghost base = actions@;
        let ghost mut k: int = 0;
        proof {
            assert(reqs.skip(0) =~= reqs);
            assert(reqs.take(0) =~= Seq::<(PeerAddr, u32)>::empty());
            assert(base + Seq::<TorrentAction>::empty() =~= base);
        }
        loop
            invariant
                0 <= k <= reqs.len(),
                state.cancellations_view() == reqs.skip(k),
                state.model() == (SharedModel { cancellations: reqs.skip(k), ..old(state).model() }),
                actions@ == base + cancel_actions(reqs.take(k), self.peers_view()),
            ensures
                state.model() == (SharedModel { cancellations: Seq::empty(), ..old(state).model() }),
                actions@ == base + cancel_actions(reqs, self.peers_view()),
            decreases reqs.len() - k,
        {
            let next = state.pop_cancellation_request();
            match next {
                None => {
                    assert(reqs.skip(k).len() == 0);
                    assert(reqs.take(k) =~= reqs);
                    assert(reqs.skip(k) =~= Seq::<(PeerAddr, u32)>::empty());
                    break;
                },
                Some((p, idx)) => {
                    proof {
                        assert(reqs[k] == (p, idx));
                        assert(reqs.take(k + 1).drop_last() =~= reqs.take(k));
                        assert(reqs.skip(k).drop_first() =~= reqs.skip(k + 1));
                    }
                    if self.peer_position(p).is_some() {
                        actions.push(TorrentAction::Peer(p, TorrentManagerReq::CancelPiece(idx)));
                    }
                    proof {
                        k = k + 1;
                    }
                },
            }
        }
    }
}

} // verus!
