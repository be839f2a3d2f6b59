//! The state of a torrent's pieces that all its peers share: which piece is
//! queued, being downloaded by whom since when, downloaded or verified; how
//! fast each peer has been; how far each piece has come; and which requests
//! must be cancelled at the peers whose pieces were taken over.
//!
//! Times are milliseconds on a clock of the caller's choosing; the caller
//! hands in the current time where a decision depends on it.

use std::collections::{HashMap, VecDeque};
use vstd::prelude::*;

use crate::protocol::bitfield::{bitfield_bits, Bitfield};

verus! {

broadcast use vstd::std_specs::hash::group_hash_axioms;

/// An IPv4 address and port of a peer.
#[derive(Clone, Copy, Debug, PartialEq, Eq, Structural, Hash)]
pub struct PeerAddr {
    pub ip: u32,
    pub port: u16,
}

/// The number under which a peer's statistics are kept: its address and
/// port side by side.
pub open spec fn peer_key(p: PeerAddr) -> u64 {
    (p.ip as u64 * 0x1_0000 + p.port as u64) as u64
}

impl PeerAddr {
    pub fn key(&self) -> (r: u64)
        ensures
            r == peer_key(*self),
    {
        self.ip as u64 * 0x1_0000 + self.port as u64
    }
}

/// Distinct peers have distinct keys.
pub proof fn lemma_peer_key_injective(a: PeerAddr, b: PeerAddr)
    requires
        peer_key(a) == peer_key(b),
    ensures
        a == b,
{
    assert(a.ip == b.ip && a.port == b.port) by (nonlinear_arith)
        requires
            a.ip as u64 * 0x1_0000 + a.port as u64 == b.ip as u64 * 0x1_0000 + b.port as u64,
            a.port < 0x1_0000,
            b.port < 0x1_0000,
    ;
}

/// Where a piece stands.
#[derive(Clone, Copy, Debug, PartialEq, Eq, Structural)]
pub enum PieceState {
    Queued,
    /// Being downloaded by `peer`, since the time `start`.
    Downloading { peer: PeerAddr, start: u64 },
    Downloaded,
    Verified,
}

/// Why a state operation failed.
#[derive(Clone, Copy, Debug, PartialEq, Eq, Structural)]
pub enum StateError {
    /// A piece index does not fit in a `u32`.
    PieceIndexOverflow,
    /// A piece index names no piece.
    BadPieceIndex,
    /// A piece that was reported complete is not being downloaded.
    PieceNotDownloading,
    /// A verified piece has no recorded progress.
    MissingProgress,
    /// Every peer left before the torrent was fully downloaded.
    Incomplete,
}

/// The time that has passed since `start`, or zero if `start` lies ahead.
pub open spec fn elapsed_since(start: u64, now: u64) -> u64 {
    if now >= start {
        (now - start) as u64
    } else {
        0
    }
}

/// `a + b`, or `u64::MAX` where that overflows.
pub open spec fn sat_add(a: u64, b: u64) -> u64 {
    if a + b > u64::MAX {
        u64::MAX
    } else {
        (a + b) as u64
    }
}

/// How many times longer than its own average a peer waits before it takes
/// a piece over from another peer: 3 once at least four fifths of the pieces
/// are downloaded, else 10.
pub open spec fn steal_coeff(total_pieces: int, downloaded_pieces: int) -> u64 {
    if total_pieces == 0 {
        if downloaded_pieces > 0 {
            3
        } else {
            10
        }
    } else if downloaded_pieces * 5 >= total_pieces * 4 {
        3
    } else {
        10
    }
}

/// A piece held by another peer for `elapsed` is taken over by a peer whose
/// statistics are `(time_sum, count)` where `elapsed` exceeds `coeff` times
/// its average download time.
pub open spec fn steals(elapsed: u64, stats: (u64, u64), coeff: u64) -> bool {
    elapsed as int * stats.1 as int > stats.0 as int * coeff as int
}

/// The statistics of `key`, with empty ones added where it has none.
pub open spec fn with_entry(stats: Map<u64, (u64, u64)>, key: u64) -> Map<u64, (u64, u64)> {
    if stats.contains_key(key) {
        stats
    } else {
        stats.insert(key, (0, 0))
    }
}

/// What a selection has done so far: the pieces' states, the peers'
/// statistics, the pieces picked with the peers they were taken from, and
/// whether a picked index failed to fit in a `u32`.
pub struct Selection {
    pub pieces: Seq<PieceState>,
    pub stats: Map<u64, (u64, u64)>,
    pub picked: Seq<(u32, Option<PeerAddr>)>,
    pub failed: bool,
}

/// The parameters of a selection: the requesting peer, the pieces it has,
/// the current time and the steal coefficient.
pub struct SelectArgs {
    pub peer: PeerAddr,
    pub available: Seq<bool>,
    pub now: u64,
    pub coeff: u64,
}

/// Picks piece `i` for the requesting peer: `s` with piece `i` downloading
/// by it since now and `i` appended to the picked pieces, or marked failed
/// where `i` does not fit in a `u32`.
pub open spec fn pick(s: Selection, i: int, a: SelectArgs, from: Option<PeerAddr>, stats: Map<
    u64,
    (u64, u64),
>) -> Selection {
    let pieces = s.pieces.update(i, PieceState::Downloading { peer: a.peer, start: a.now });
    if i > u32::MAX {
        Selection { pieces, stats, picked: s.picked, failed: true }
    } else {
        Selection { pieces, stats, picked: s.picked.push((i as u32, from)), failed: false }
    }
}

/// One step of the selection, at piece `i`. A piece that the peer lacks is
/// skipped. A queued piece is picked. A piece that another peer downloads is
/// taken over where the requesting peer has downloaded a piece before and the
/// piece has been downloading `coeff` times longer than the requesting peer's
/// average; the other peer's time sum then grows by that time. Looking at a
/// piece that another peer downloads gives the requesting peer empty
/// statistics where it had none.
pub open spec fn select_step(s: Selection, i: int, a: SelectArgs) -> Selection {
    if !a.available[i] {
        s
    } else {
        match s.pieces[i] {
            PieceState::Queued => pick(s, i, a, None, s.stats),
            PieceState::Downloading { peer, start } => {
                if peer == a.peer {
                    s
                } else {
                    let stats1 = with_entry(s.stats, peer_key(a.peer));
                    let mine = stats1[peer_key(a.peer)];
                    let elapsed = elapsed_since(start, a.now);
                    if mine.1 == 0 || !steals(elapsed, mine, a.coeff) {
                        Selection { stats: stats1, ..s }
                    } else {
                        let stats2 = with_entry(stats1, peer_key(peer));
                        let theirs = stats2[peer_key(peer)];
                        let stats3 = stats2.insert(
                            peer_key(peer),
                            (sat_add(theirs.0, elapsed), theirs.1),
                        );
                        pick(s, i, a, Some(peer), stats3)
                    }
                }
            },
            _ => s,
        }
    }
}

/// The selection after looking at the first `k` pieces, stopping once
/// `limit` pieces are picked or an index failed.
pub open spec fn select_upto(init: Selection, k: int, a: SelectArgs, limit: nat) -> Selection
    decreases k,
{
    if k <= 0 {
        init
    } else {
        let s = select_upto(init, k - 1, a, limit);
        if s.failed || s.picked.len() >= limit {
            s
        } else {
            select_step(s, k - 1, a)
        }
    }
}

/// The cancellations that a selection queues: one for each piece taken over,
/// naming the peer it was taken from.
pub open spec fn stolen_requests(picked: Seq<(u32, Option<PeerAddr>)>) -> Seq<(PeerAddr, u32)>
    decreases picked.len(),
{
    if picked.len() == 0 {
        Seq::empty()
    } else {
        let rest = stolen_requests(picked.drop_last());
        match picked.last().1 {
            Some(p) => rest.push((p, picked.last().0)),
            None => rest,
        }
    }
}

/// The progress map with every piece taken over reset to zero bytes.
pub open spec fn reset_stolen(progress: Map<u32, usize>, picked: Seq<(u32, Option<PeerAddr>)>) -> Map<
    u32,
    usize,
>
    decreases picked.len(),
{
    if picked.len() == 0 {
        progress
    } else {
        let rest = reset_stolen(progress, picked.drop_last());
        match picked.last().1 {
            Some(_) => rest.insert(picked.last().0, 0),
            None => rest,
        }
    }
}

/// What a shared state holds: the piece states, each peer's statistics by
/// key, the bytes counted of each piece, and the pending cancellations.
pub struct SharedModel {
    pub pieces: Seq<PieceState>,
    pub stats: Map<u64, (u64, u64)>,
    pub progress: Map<u32, usize>,
    pub cancellations: Seq<(PeerAddr, u32)>,
}

/// The state that each peer keeps a reference to.
#[derive(Debug)]
pub struct TorrentSharedState {
    /// For each peer, by key: the sum of its piece download times, and the
    /// number of pieces it downloaded.
    peer_download_stats: HashMap<u64, (u64, u64)>,
    pieces: Vec<PieceState>,
    /// The bytes of each piece downloaded so far.
    piece_download_progress: HashMap<u32, usize>,
    /// Requests to cancel at a peer: the peer and the piece.
    cancellation_req_queue: VecDeque<(PeerAddr, u32)>,
}

/// What looking for up to `number_of_pieces` pieces for `peer_addr`, which
/// has the pieces `available`, does: the state goes from `t0` to `t1` and
/// `r` comes back (see `TorrentSharedState::get_next_missing_piece_indexes`).
pub open spec fn next_pieces_picked(
    t0: TorrentSharedState,
    t1: TorrentSharedState,
    peer_addr: PeerAddr,
    available: Seq<bool>,
    number_of_pieces: usize,
    now: u64,
    downloaded_pieces: u64,
    r: Result<Option<Vec<(u32, Option<PeerAddr>)>>, StateError>,
) -> bool {
    let a = SelectArgs {
        peer: peer_addr,
        available: available,
        now,
        coeff: steal_coeff(t0.pieces_view().len() as int, downloaded_pieces as int),
    };
    let init = Selection {
        pieces: t0.pieces_view(),
        stats: t0.stats_view(),
        picked: Seq::empty(),
        failed: false,
    };
    let s = select_upto(init, t0.pieces_view().len() as int, a, number_of_pieces as nat);
    &&& t1.pieces_view() == s.pieces
    &&& t1.stats_view() == s.stats
    &&& match r {
        Err(e) => s.failed && e == StateError::PieceIndexOverflow
            && t1.progress_view() == t0.progress_view()
            && t1.cancellations_view() == t0.cancellations_view(),
        Ok(None) => !s.failed && s.picked.len() == 0
            && t1.progress_view() == t0.progress_view()
            && t1.cancellations_view() == t0.cancellations_view(),
        Ok(Some(v)) => !s.failed && s.picked.len() > 0 && v@ == s.picked
            && t1.progress_view() == reset_stolen(t0.progress_view(), s.picked)
            && t1.cancellations_view() == t0.cancellations_view()
                + stolen_requests(s.picked),
    }
}

impl TorrentSharedState {
    pub closed spec fn pieces_view(&self) -> Seq<PieceState> {
        self.pieces@
    }

    pub closed spec fn stats_view(&self) -> Map<u64, (u64, u64)> {
        self.peer_download_stats@
    }

    pub closed spec fn progress_view(&self) -> Map<u32, usize> {
        self.piece_download_progress@
    }

    pub closed spec fn cancellations_view(&self) -> Seq<(PeerAddr, u32)> {
        self.cancellation_req_queue@
    }

    /// Everything the state holds.
    pub open spec fn model(&self) -> SharedModel {
        SharedModel {
            pieces: self.pieces_view(),
            stats: self.stats_view(),
            progress: self.progress_view(),
            cancellations: self.cancellations_view(),
        }
    }

    /// A state over the given piece states, with no statistics, no progress
    /// and no pending cancellations.
    pub fn new(piece_states: Vec<PieceState>, number_of_pieces: usize) -> (r: Self)
        ensures
            r.pieces_view() == piece_states@,
            r.stats_view() == Map::<u64, (u64, u64)>::empty(),
            r.progress_view() == Map::<u32, usize>::empty(),
            r.cancellations_view() == Seq::<(PeerAddr, u32)>::empty(),
    {
        TorrentSharedState {
            peer_download_stats: HashMap::new(),
            pieces: piece_states,
            piece_download_progress: HashMap::with_capacity(number_of_pieces),
            cancellation_req_queue: VecDeque::new(),
        }
    }

    /// The steal coefficient, given how many pieces are downloaded.
    fn get_piece_steal_coeff(&self, downloaded_pieces: u64) -> (r: u64)
        ensures
            r == steal_coeff(self.pieces_view().len() as int, downloaded_pieces as int),
    {
        let total_pieces = self.pieces.len();
        if total_pieces == 0 {
            if downloaded_pieces > 0 {
                3
            } else {
                10
            }
        } else if downloaded_pieces as u128 * 5 >= total_pieces as u128 * 4 {
            3
        } else {
            10
        }
    }

    /// The statistics of `key`, empty ones where it has none.
    fn stats_or_default(&self, key: u64) -> (r: (u64, u64))
        ensures
            r == with_entry(self.stats_view(), key)[key],
    {
        match self.peer_download_stats.get(&key) {
            Some(v) => *v,
            None => (0, 0),
        }
    }

    /// Sets the statistics of `key`.
    fn set_stats(&mut self, key: u64, v: (u64, u64))
        ensures
            final(self).stats_view() == old(self).stats_view().insert(key, v),
            final(self).pieces_view() == old(self).pieces_view(),
            final(self).progress_view() == old(self).progress_view(),
            final(self).cancellations_view() == old(self).cancellations_view(),
    {
        self.peer_download_stats.insert(key, v);
    }

    /// Gives `key` empty statistics where it has none.
    fn ensure_stats(&mut self, key: u64)
        ensures
            final(self).stats_view() == with_entry(old(self).stats_view(), key),
            final(self).pieces_view() == old(self).pieces_view(),
            final(self).progress_view() == old(self).progress_view(),
            final(self).cancellations_view() == old(self).cancellations_view(),
    {
        if !self.peer_download_stats.contains_key(&key) {
            self.peer_download_stats.insert(key, (0, 0));
        }
    }

    /// Looks for pieces as `get_next_missing_piece_indexes` does where the
    /// peer's bitfield covers every piece; `None`, and nothing changed, where
    /// it is shorter.
    pub fn try_get_next_missing_piece_indexes(
        &mut self,
        peer_addr: PeerAddr,
        peer_available_pieces: &Bitfield,
        number_of_pieces: usize,
        now: u64,
        downloaded_pieces: u64,
    ) -> (r: Option<Result<Option<Vec<(u32, Option<PeerAddr>)>>, StateError>>)
        ensures
            r is None <==> old(self).pieces_view().len() > bitfield_bits(*peer_available_pieces).len(),
            match r {
                None => *final(self) == *old(self),
                Some(x) => next_pieces_picked(
                    *old(self),
                    *final(self),
                    peer_addr,
                    bitfield_bits(*peer_available_pieces),
                    number_of_pieces,
                    now,
                    downloaded_pieces,
                    x,
                ),
            },
    {
        if !self.bitfield_covers(peer_available_pieces) {
            return None;
        }
        Some(
            self.get_next_missing_piece_indexes(
                peer_addr,
                peer_available_pieces,
                number_of_pieces,
                now,
                downloaded_pieces,
            ),
        )
    }

    /// Returns the pieces that `peer_addr` should download next: pieces that
    /// it has and that are queued, or that another peer has been downloading
    /// for much longer than `peer_addr` takes on average. Looks at the pieces
    /// in order and stops after `number_of_pieces` of them are picked. The
    /// picked pieces become downloading by `peer_addr` since `now`; each one
    /// taken over from another peer is paired with that peer, queued for
    /// cancellation there and has its progress reset. `None` where nothing
    /// was picked. `downloaded_pieces` is the number of pieces downloaded so
    /// far, which sets how eagerly pieces are taken over.
    pub fn get_next_missing_piece_indexes(
        &mut self,
        peer_addr: PeerAddr,
        peer_available_pieces: &Bitfield,
        number_of_pieces: usize,
        now: u64,
        downloaded_pieces: u64,
    ) -> (r: Result<Option<Vec<(u32, Option<PeerAddr>)>>, StateError>)
        requires
            old(self).pieces_view().len() <= bitfield_bits(*peer_available_pieces).len(),
        ensures
            next_pieces_picked(
                *old(self),
                *final(self),
                peer_addr,
                bitfield_bits(*peer_available_pieces),
                number_of_pieces,
                now,
                downloaded_pieces,
                r,
            ),
    {
        let piece_steal_coeff = self.get_piece_steal_coeff(downloaded_pieces);
        let ghost a = SelectArgs {
            peer: peer_addr,
            available: bitfield_bits(*peer_available_pieces),
            now,
            coeff: piece_steal_coeff,
        };
        let ghost init = Selection {
            pieces: self.pieces_view(),
            stats: self.stats_view(),
            picked: Seq::empty(),
            failed: false,
        };
        let ghost old_progress = self.progress_view();
        let ghost old_cancellations = self.cancellations_view();
        let n = self.pieces.len();
        let mut picked: Vec<(u32, Option<PeerAddr>)> = Vec::new();
        let mut idx: usize = 0;
        while idx < n && picked.len() < number_of_pieces
            invariant
                n == self.pieces_view().len(),
                n == init.pieces.len(),
                n <= a.available.len(),
                a.available == bitfield_bits(*peer_available_pieces),
                a.peer == peer_addr,
                a.now == now,
                a.coeff == piece_steal_coeff,
                piece_steal_coeff == steal_coeff(n as int, downloaded_pieces as int),
                piece_steal_coeff <= 10,
                init == (Selection {
                    pieces: old(self).pieces_view(),
                    stats: old(self).stats_view(),
                    picked: Seq::empty(),
                    failed: false,
                }),
                old_progress == old(self).progress_view(),
                old_cancellations == old(self).cancellations_view(),
                idx <= n,
                ({
                    let s = select_upto(init, idx as int, a, number_of_pieces as nat);
                    &&& !s.failed
                    &&& self.pieces_view() == s.pieces
                    &&& self.stats_view() == s.stats
                    &&& picked@ == s.picked
                }),
                self.progress_view() == old_progress,
                self.cancellations_view() == old_cancellations,
            decreases n - idx,
        {
            let ghost before = select_upto(init, idx as int, a, number_of_pieces as nat);
            proof {
                reveal_with_fuel(select_upto, 2);
            }
            if peer_available_pieces.get(idx) {
                let status = self.pieces[idx];
                match status {
                    PieceState::Queued => {
                        self.pieces.set(idx, PieceState::Downloading { peer: peer_addr, start: now });
                        proof {
                            assert(select_upto(init, idx + 1, a, number_of_pieces as nat) == pick(
                                before,
                                idx as int,
                                a,
                                None,
                                before.stats,
                            ));
                            assert(self.pieces_view() =~= before.pieces.update(
                                idx as int,
                                PieceState::Downloading { peer: peer_addr, start: now },
                            ));
                        }
                        if idx > u32::MAX as usize {
                            proof {
                                lemma_select_stops(init, idx + 1, n as int, a, number_of_pieces as nat);
                            }
                            return Err(StateError::PieceIndexOverflow);
                        }
                        picked.push((idx as u32, None));
                    },
                    PieceState::Downloading { peer, start } => {
                        if peer != peer_addr {
                            let my_key = peer_addr.key();
                            self.ensure_stats(my_key);
                            let mine = self.stats_or_default(my_key);
                            let elapsed: u64 = if now >= start {
                                now - start
                            } else {
                                0
                            };
                            proof {
                                assert((elapsed as u128) * (mine.1 as u128) <= u64::MAX as u128 * u64::MAX as u128) by (nonlinear_arith);
                                assert((mine.0 as u128) * (piece_steal_coeff as u128) <= u64::MAX as u128 * 10) by (nonlinear_arith)
                                    requires piece_steal_coeff <= 10;
                            }
                            let lhs: u128 = (elapsed as u128) * (mine.1 as u128);
                            let rhs: u128 = (mine.0 as u128) * (piece_steal_coeff as u128);
                            if mine.1 != 0 && lhs > rhs {
                                let their_key = peer.key();
                                let theirs = self.stats_or_default(their_key);
                                self.set_stats(their_key, (theirs.0.saturating_add(elapsed), theirs.1));
                                self.pieces.set(
                                    idx,
                                    PieceState::Downloading { peer: peer_addr, start: now },
                                );
                                proof {
                                    let stats1 = with_entry(before.stats, peer_key(peer_addr));
                                    let stats2 = with_entry(stats1, peer_key(peer));
                                    assert(self.stats_view() =~= stats2.insert(
                                        peer_key(peer),
                                        (sat_add(theirs.0, elapsed), theirs.1),
                                    ));
                                }
                                if idx > u32::MAX as usize {
                                    proof {
                                        lemma_select_stops(init, idx + 1, n as int, a, number_of_pieces as nat);
                                    }
                                    return Err(StateError::PieceIndexOverflow);
                                }
                                picked.push((idx as u32, Some(peer)));
                            }
                        }
                    },
                    _ => {},
                }
            }
            idx = idx + 1;
        }
        proof {
            lemma_select_stops(init, idx as int, n as int, a, number_of_pieces as nat);
        }
        let ghost s_final = select_upto(init, n as int, a, number_of_pieces as nat);
        if picked.len() == 0 {
            return Ok(None);
        }
        let mut k: usize = 0;
        while k < picked.len()
            invariant
                k <= picked@.len(),
                picked@ == s_final.picked,
                self.progress_view() == reset_stolen(old_progress, picked@.take(k as int)),
                self.cancellations_view() == old_cancellations + stolen_requests(
                    picked@.take(k as int),
                ),
                self.pieces_view() == s_final.pieces,
                self.stats_view() == s_final.stats,
            decreases picked@.len() - k,
        {
            let (piece_idx, stolen_from) = picked[k];
            proof {
                assert(picked@.take(k + 1).drop_last() =~= picked@.take(k as int));
            }
            if let Some(from) = stolen_from {
                self.cancellation_req_queue.push_back((from, piece_idx));
                self.piece_download_progress.insert(piece_idx, 0);
            }
            proof {
                assert(self.cancellations_view() =~= old_cancellations + stolen_requests(
                    picked@.take(k + 1),
                ));
            }
            k = k + 1;
        }
        proof {
            assert(picked@.take(picked@.len() as int) =~= picked@);
        }
        Ok(Some(picked))
    }
}

/// The pieces with every one that `peer` was downloading queued again.
pub open spec fn requeue_peer(pieces: Seq<PieceState>, peer: PeerAddr) -> Seq<PieceState> {
    Seq::new(
        pieces.len(),
        |i: int|
            if pieces[i] matches PieceState::Downloading { peer: p, .. } && p == peer {
                PieceState::Queued
            } else {
                pieces[i]
            },
    )
}

/// Whether piece `i` is being downloaded by `peer`.
pub open spec fn downloading_by(pieces: Seq<PieceState>, i: int, peer: PeerAddr) -> bool {
    pieces[i] matches PieceState::Downloading { peer: p, .. } && p == peer
}

/// Whether every piece is verified.
pub open spec fn all_verified(pieces: Seq<PieceState>) -> bool {
    forall|i: int| 0 <= i < pieces.len() ==> pieces[i] == PieceState::Verified
}

/// The progress map after the pieces that `peer` was downloading, among the
/// first `k`, are reset to zero bytes; indices past `u32::MAX` are skipped.
pub open spec fn reset_progress(
    progress: Map<u32, usize>,
    pieces: Seq<PieceState>,
    peer: PeerAddr,
    k: int,
) -> Map<u32, usize>
    decreases k,
{
    if k <= 0 {
        progress
    } else {
        let rest = reset_progress(progress, pieces, peer, k - 1);
        if downloading_by(pieces, k - 1, peer) && k - 1 <= u32::MAX {
            rest.insert((k - 1) as u32, 0)
        } else {
            rest
        }
    }
}

/// How a block's bytes count toward its piece.
#[derive(Clone, Copy, Debug, PartialEq, Eq, Structural)]
pub enum BlockProgress {
    /// The block would make the piece longer than it is: it is refused.
    TooLarge,
    /// The block is counted; `complete` where the piece now has all its
    /// bytes.
    Accepted { complete: bool },
}

/// The bytes of piece `index` counted so far.
pub open spec fn progress_of(progress: Map<u32, usize>, index: u32) -> usize {
    if progress.contains_key(index) {
        progress[index]
    } else {
        0
    }
}

impl TorrentSharedState {
    /// Whether `bits` has a bit for every piece, as choosing pieces for a
    /// peer with that bitfield needs.
    pub fn bitfield_covers(&self, bits: &Bitfield) -> (r: bool)
        ensures
            r == (self.pieces_view().len() <= bitfield_bits(*bits).len()),
    {
        self.pieces.len() <= bits.len()
    }

    /// The state of piece `idx`, if there is such a piece.
    pub fn get_piece_status(&self, idx: usize) -> (r: Option<&PieceState>)
        ensures
            r == (if idx < self.pieces_view().len() {
                Some(&self.pieces_view()[idx as int])
            } else {
                None
            }),
    {
        if idx < self.pieces.len() {
            Some(&self.pieces[idx])
        } else {
            None
        }
    }

    /// Checks whether the torrent was fully downloaded: every piece verified.
    pub fn finished_downloading(&self) -> (r: bool)
        ensures
            r == all_verified(self.pieces_view()),
    {
        let mut i: usize = 0;
        while i < self.pieces.len()
            invariant
                i <= self.pieces_view().len(),
                forall|j: int| 0 <= j < i ==> self.pieces_view()[j] == PieceState::Verified,
            decreases self.pieces_view().len() - i,
        {
            if self.pieces[i] != PieceState::Verified {
                return false;
            }
            i = i + 1;
        }
        true
    }

    /// The number of pieces of the torrent.
    pub fn get_number_of_pieces(&self) -> (r: usize)
        ensures
            r == self.pieces_view().len(),
    {
        self.pieces.len()
    }

    /// Marks piece `piece_idx` verified, if there is such a piece.
    pub fn mark_piece_as_verified(&mut self, piece_idx: usize)
        ensures
            final(self).pieces_view() == (if piece_idx < old(self).pieces_view().len() {
                old(self).pieces_view().update(piece_idx as int, PieceState::Verified)
            } else {
                old(self).pieces_view()
            }),
            final(self).stats_view() == old(self).stats_view(),
            final(self).progress_view() == old(self).progress_view(),
            final(self).cancellations_view() == old(self).cancellations_view(),
    {
        if piece_idx < self.pieces.len() {
            self.pieces.set(piece_idx, PieceState::Verified);
        }
    }

    /// Queues again every piece that `dead_peer_addr` was downloading; no
    /// piece is left downloading by it.
    pub fn on_peer_disconnect(&mut self, dead_peer_addr: &PeerAddr)
        ensures
            final(self).pieces_view() == requeue_peer(old(self).pieces_view(), *dead_peer_addr),
            forall|i: int|
                0 <= i < final(self).pieces_view().len() ==> !downloading_by(
                    final(self).pieces_view(),
                    i,
                    *dead_peer_addr,
                ),
            final(self).stats_view() == old(self).stats_view(),
            final(self).progress_view() == old(self).progress_view(),
            final(self).cancellations_view() == old(self).cancellations_view(),
    {
        let ghost old_pieces = self.pieces_view();
        let mut i: usize = 0;
        while i < self.pieces.len()
            invariant
                i <= self.pieces_view().len(),
                self.pieces_view().len() == old_pieces.len(),
                forall|j: int|
                    0 <= j < i ==> self.pieces_view()[j] == requeue_peer(old_pieces, *dead_peer_addr)[j],
                forall|j: int| i <= j < self.pieces_view().len() ==> self.pieces_view()[j] == old_pieces[j],
                self.stats_view() == old(self).stats_view(),
                self.progress_view() == old(self).progress_view(),
                self.cancellations_view() == old(self).cancellations_view(),
            decreases self.pieces_view().len() - i,
        {
            if let PieceState::Downloading { peer, .. } = self.pieces[i] {
                if peer == *dead_peer_addr {
                    self.pieces.set(i, PieceState::Queued);
                }
            }
            i = i + 1;
        }
        assert(self.pieces_view() =~= requeue_peer(old_pieces, *dead_peer_addr));
    }

    /// Whether piece `piece_idx` is still being downloaded by `peer_addr`,
    /// that is, not taken over by another peer. An error where there is no
    /// such piece.
    pub fn verify_piece_not_stolen(&self, peer_addr: PeerAddr, piece_idx: usize) -> (r: Result<
        bool,
        StateError,
    >)
        ensures
            piece_idx >= self.pieces_view().len() ==> r == Err::<bool, StateError>(
                StateError::BadPieceIndex,
            ),
            piece_idx < self.pieces_view().len() ==> r == Ok::<bool, StateError>(
                downloading_by(self.pieces_view(), piece_idx as int, peer_addr),
            ),
    {
        match self.get_piece_status(piece_idx) {
            None => Err(StateError::BadPieceIndex),
            Some(PieceState::Downloading { peer, .. }) => Ok(*peer == peer_addr),
            Some(_) => Ok(false),
        }
    }

    /// Counts `block_len` more bytes of piece `index`, whose full size is
    /// `expected_piece_size`, unless that would make the piece too long.
    /// The piece gets a zero count first where it had none.
    pub fn record_block(&mut self, index: u32, block_len: usize, expected_piece_size: usize) -> (r:
        BlockProgress)
        ensures
            ({
                let before = progress_of(old(self).progress_view(), index);
                if before + block_len > expected_piece_size {
                    &&& r == BlockProgress::TooLarge
                    &&& final(self).progress_view() == old(self).progress_view().insert(index, before)
                } else {
                    &&& r == (BlockProgress::Accepted {
                        complete: before + block_len == expected_piece_size,
                    })
                    &&& final(self).progress_view() == old(self).progress_view().insert(
                        index,
                        (before + block_len) as usize,
                    )
                }
            }),
            final(self).pieces_view() == old(self).pieces_view(),
            final(self).stats_view() == old(self).stats_view(),
            final(self).cancellations_view() == old(self).cancellations_view(),
    {
        let before = match self.piece_download_progress.get(&index) {
            Some(b) => *b,
            None => 0,
        };
        self.piece_download_progress.insert(index, before);
        let after = match before.checked_add(block_len) {
            Some(a) => a,
            None => return BlockProgress::TooLarge,
        };
        if after > expected_piece_size {
            return BlockProgress::TooLarge;
        }
        self.piece_download_progress.insert(index, after);
        BlockProgress::Accepted { complete: after == expected_piece_size }
    }

    /// Records that `peer_addr` finished downloading piece `index` at time
    /// `now`: its statistics gain the time that the piece took and one
    /// piece, and the piece becomes downloaded. Returns the piece's expected
    /// hash, or `None`, changing nothing, where `piece_hashes` has none for
    /// it. An error where the piece does not exist or is not downloading.
    pub fn finish_piece(
        &mut self,
        piece_hashes: &[[u8; 20]],
        peer_addr: PeerAddr,
        index: u32,
        now: u64,
    ) -> (r: Result<Option<[u8; 20]>, StateError>)
        ensures
            ({
                let i = index as int;
                let pieces = old(self).pieces_view();
                if i >= piece_hashes@.len() {
                    &&& r == Ok::<Option<[u8; 20]>, StateError>(None)
                    &&& final(self).pieces_view() == pieces
                    &&& final(self).stats_view() == old(self).stats_view()
                } else if i >= pieces.len() {
                    &&& r == Err::<Option<[u8; 20]>, StateError>(StateError::BadPieceIndex)
                    &&& final(self).pieces_view() == pieces
                    &&& final(self).stats_view() == old(self).stats_view()
                } else {
                    match pieces[i] {
                        PieceState::Downloading { start, .. } => {
                            let stats = with_entry(old(self).stats_view(), peer_key(peer_addr));
                            let mine = stats[peer_key(peer_addr)];
                            &&& r == Ok::<Option<[u8; 20]>, StateError>(Some(piece_hashes@[i]))
                            &&& final(self).pieces_view() == pieces.update(i, PieceState::Downloaded)
                            &&& final(self).stats_view() == old(self).stats_view().insert(
                                peer_key(peer_addr),
                                (sat_add(mine.0, elapsed_since(start, now)), sat_add(mine.1, 1)),
                            )
                        },
                        _ => {
                            &&& r == Err::<Option<[u8; 20]>, StateError>(
                                StateError::PieceNotDownloading,
                            )
                            &&& final(self).pieces_view() == pieces
                            &&& final(self).stats_view() == old(self).stats_view()
                        },
                    }
                }
            }),
            final(self).progress_view() == old(self).progress_view(),
            final(self).cancellations_view() == old(self).cancellations_view(),
    {
        let idx = index as usize;
        if idx >= piece_hashes.len() {
            return Ok(None);
        }
        let expected_piece_hash = piece_hashes[idx];
        if idx >= self.pieces.len() {
            return Err(StateError::BadPieceIndex);
        }
        let start = match self.pieces[idx] {
            PieceState::Downloading { start, .. } => start,
            _ => return Err(StateError::PieceNotDownloading),
        };
        let elapsed: u64 = if now >= start {
            now - start
        } else {
            0
        };
        let key = peer_addr.key();
        let mine = self.stats_or_default(key);
        self.set_stats(key, (mine.0.saturating_add(elapsed), mine.1.saturating_add(1)));
        self.pieces.set(idx, PieceState::Downloaded);
        Ok(Some(expected_piece_hash))
    }

    /// Marks piece `piece_idx` verified after its hash checked out. Returns
    /// the bytes counted for it and whether the torrent is now complete. An
    /// error where there is no such piece or no bytes were counted for it;
    /// the piece is marked first.
    pub fn on_piece_verified(&mut self, piece_idx: u32) -> (r: Result<(usize, bool), StateError>)
        ensures
            ({
                let i = piece_idx as int;
                let pieces = old(self).pieces_view();
                if i >= pieces.len() {
                    &&& r == Err::<(usize, bool), StateError>(StateError::BadPieceIndex)
                    &&& final(self).pieces_view() == pieces
                } else {
                    &&& final(self).pieces_view() == pieces.update(i, PieceState::Verified)
                    &&& if old(self).progress_view().contains_key(piece_idx) {
                        r == Ok::<(usize, bool), StateError>(
                            (
                                old(self).progress_view()[piece_idx],
                                all_verified(pieces.update(i, PieceState::Verified)),
                            ),
                        )
                    } else {
                        r == Err::<(usize, bool), StateError>(StateError::MissingProgress)
                    }
                }
            }),
            final(self).stats_view() == old(self).stats_view(),
            final(self).progress_view() == old(self).progress_view(),
            final(self).cancellations_view() == old(self).cancellations_view(),
    {
        let idx = piece_idx as usize;
        if idx >= self.pieces.len() {
            return Err(StateError::BadPieceIndex);
        }
        self.pieces.set(idx, PieceState::Verified);
        let downloaded_bytes = match self.piece_download_progress.get(&piece_idx) {
            Some(b) => *b,
            None => return Err(StateError::MissingProgress),
        };
        Ok((downloaded_bytes, self.finished_downloading()))
    }

    /// Queues again every piece that `peer_addr` was downloading and resets
    /// their progress to zero bytes, as when the peer is disconnected. An
    /// error where such a piece's index does not fit in a `u32`; the pieces
    /// are queued again all the same.
    pub fn release_peer_pieces(&mut self, peer_addr: &PeerAddr) -> (r: Result<(), StateError>)
        ensures
            final(self).pieces_view() == requeue_peer(old(self).pieces_view(), *peer_addr),
            final(self).progress_view() == reset_progress(
                old(self).progress_view(),
                old(self).pieces_view(),
                *peer_addr,
                old(self).pieces_view().len() as int,
            ),
            r is Err <==> exists|i: int|
                u32::MAX < i < old(self).pieces_view().len() && downloading_by(
                    old(self).pieces_view(),
                    i,
                    *peer_addr,
                ),
            r is Err ==> r == Err::<(), StateError>(StateError::PieceIndexOverflow),
            final(self).stats_view() == old(self).stats_view(),
            final(self).cancellations_view() == old(self).cancellations_view(),
    {
        let ghost old_pieces = self.pieces_view();
        let ghost old_progress = self.progress_view();
        let mut failed = false;
        let mut i: usize = 0;
        while i < self.pieces.len()
            invariant
                i <= self.pieces_view().len(),
                self.pieces_view().len() == old_pieces.len(),
                forall|j: int|
                    0 <= j < i ==> self.pieces_view()[j] == requeue_peer(old_pieces, *peer_addr)[j],
                forall|j: int| i <= j < self.pieces_view().len() ==> self.pieces_view()[j] == old_pieces[j],
                self.progress_view() == reset_progress(old_progress, old_pieces, *peer_addr, i as int),
                failed <==> exists|j: int| u32::MAX < j < i && downloading_by(old_pieces, j, *peer_addr),
                old_pieces == old(self).pieces_view(),
                old_progress == old(self).progress_view(),
                self.stats_view() == old(self).stats_view(),
                self.cancellations_view() == old(self).cancellations_view(),
            decreases self.pieces_view().len() - i,
        {
            if let PieceState::Downloading { peer, .. } = self.pieces[i] {
                if peer == *peer_addr {
                    self.pieces.set(i, PieceState::Queued);
                    if i <= u32::MAX as usize {
                        self.piece_download_progress.insert(i as u32, 0);
                    } else {
                        failed = true;
                    }
                }
            }
            proof {
                if failed {
                    if downloading_by(old_pieces, i as int, *peer_addr) && i > u32::MAX {
                        assert(u32::MAX < i < i + 1 && downloading_by(old_pieces, i as int, *peer_addr));
                    }
                }
            }
            i = i + 1;
        }
        assert(self.pieces_view() =~= requeue_peer(old_pieces, *peer_addr));
        if failed {
            Err(StateError::PieceIndexOverflow)
        } else {
            Ok(())
        }
    }

    /// Takes the oldest pending cancellation request, if any.
    pub fn pop_cancellation_request(&mut self) -> (r: Option<(PeerAddr, u32)>)
        ensures
            old(self).cancellations_view().len() == 0 ==> r is None
                && final(self).cancellations_view() == old(self).cancellations_view(),
            old(self).cancellations_view().len() > 0 ==> r == Some(old(self).cancellations_view()[0])
                && final(self).cancellations_view() == old(self).cancellations_view().drop_first(),
            final(self).pieces_view() == old(self).pieces_view(),
            final(self).stats_view() == old(self).stats_view(),
            final(self).progress_view() == old(self).progress_view(),
    {
        self.cancellation_req_queue.pop_front()
    }
}

/// Once the selection has stopped, looking at further pieces changes
/// nothing.
proof fn lemma_select_stops(init: Selection, k: int, n: int, a: SelectArgs, limit: nat)
    requires
        0 <= k <= n,
        k == n || select_upto(init, k, a, limit).failed || select_upto(init, k, a, limit).picked.len()
            >= limit,
    ensures
        select_upto(init, n, a, limit) == select_upto(init, k, a, limit),
    decreases n - k,
{
    if k < n {
        assert(select_upto(init, k + 1, a, limit) == select_upto(init, k, a, limit));
        lemma_select_stops(init, k + 1, n, a, limit);
    }
}

} // verus!
