//! What holds of every selection of pieces, and of every torrent that has
//! finished downloading.

use vstd::prelude::*;

use super::handler::{block_step, released, BlockStep};
use super::torrent::{
    all_verified, downloading_by, elapsed_since, next_pieces_picked, peer_key, requeue_peer,
    select_step, select_upto, steal_coeff, PeerAddr, PieceState, SelectArgs, Selection,
    SharedModel, StateError, TorrentSharedState,
};
use crate::protocol::Block;
use crate::torrent::TorrentMeta;

verus! {

/// Whether piece `i` is among the picked ones.
pub open spec fn is_picked(s: Selection, i: int) -> bool {
    exists|j: int| 0 <= j < s.picked.len() && s.picked[j].0 == i
}

/// One step changes no piece but piece `i`, and picks at most that one.
proof fn lemma_step_shape(prev: Selection, i: int, a: SelectArgs)
    requires
        0 <= i < prev.pieces.len(),
        i < a.available.len(),
    ensures
        ({
            let s = select_step(prev, i, a);
            &&& s.pieces.len() == prev.pieces.len()
            &&& forall|m: int| 0 <= m < prev.pieces.len() && m != i ==> s.pieces[m] == prev.pieces[m]
            &&& s.picked == prev.picked || (!s.failed && s.picked == prev.picked.push(
                s.picked.last(),
            ) && s.picked.last().0 == i)
        }),
{
}

/// What a selection over the first `k` pieces does, for a start with nothing
/// picked: no more than `limit` pieces are picked, in increasing order; each
/// picked piece is one that the peer has, that was queued (and is paired with
/// no peer) or being downloaded by another peer (and is paired with it), and
/// that is now being downloaded by the requesting peer since `now`. Every
/// other piece keeps its state, but for one whose index does not fit in a
/// `u32` where the selection failed; the pieces past `k` are untouched.
pub proof fn lemma_selection(init: Selection, k: int, a: SelectArgs, limit: nat)
    requires
        init.picked.len() == 0,
        !init.failed,
        0 <= k <= init.pieces.len(),
        init.pieces.len() <= a.available.len(),
    ensures
        ({
            let s = select_upto(init, k, a, limit);
            &&& s.pieces.len() == init.pieces.len()
            &&& s.picked.len() <= limit
            &&& forall|j: int|
                #![trigger s.picked[j]]
                0 <= j < s.picked.len() ==> {
                    let idx = s.picked[j].0 as int;
                    &&& idx < k
                    &&& a.available[idx]
                    &&& s.pieces[idx] == PieceState::Downloading { peer: a.peer, start: a.now }
                    &&& match s.picked[j].1 {
                        None => init.pieces[idx] == PieceState::Queued,
                        Some(p) => p != a.peer && downloading_by(init.pieces, idx, p),
                    }
                }
            &&& forall|j1: int, j2: int|
                #![trigger s.picked[j1], s.picked[j2]]
                0 <= j1 < j2 < s.picked.len() ==> s.picked[j1].0 < s.picked[j2].0
            &&& forall|i: int|
                0 <= i < init.pieces.len() && s.pieces[i] != init.pieces[i] ==> is_picked(s, i) || (
                s.failed && i > u32::MAX)
            &&& forall|i: int|
                0 <= i < init.pieces.len() && s.pieces[i] != init.pieces[i] ==> s.pieces[i]
                    == PieceState::Downloading { peer: a.peer, start: a.now } && (init.pieces[i]
                    == PieceState::Queued || init.pieces[i] is Downloading)
            &&& forall|i: int| k <= i < init.pieces.len() ==> s.pieces[i] == init.pieces[i]
        }),
    decreases k,
{
    if k > 0 {
        lemma_selection(init, k - 1, a, limit);
        let prev = select_upto(init, k - 1, a, limit);
        let s = select_upto(init, k, a, limit);
        if !(prev.failed || prev.picked.len() >= limit) {
            assert(s == select_step(prev, k - 1, a));
            lemma_step_shape(prev, k - 1, a);
            assert forall|i: int|
                0 <= i < init.pieces.len() && s.pieces[i] != init.pieces[i] implies is_picked(s, i)
                || (s.failed && i > u32::MAX) by {
                if i == k - 1 {
                    if !s.failed && s.picked != prev.picked {
                        assert(s.picked[s.picked.len() - 1].0 == i);
                    }
                } else {
                    assert(prev.pieces[i] != init.pieces[i]);
                    assert(is_picked(prev, i));
                    let j = choose|j: int| 0 <= j < prev.picked.len() && prev.picked[j].0 == i;
                    assert(s.picked[j] == prev.picked[j]);
                }
            }
        }
    }
}

/// Once the first piece is looked at, the selection keeps what that look
/// did to it: its state, and the pick it made first.
proof fn lemma_first_piece_kept(init: Selection, k: int, a: SelectArgs, limit: nat)
    requires
        init.picked.len() == 0,
        !init.failed,
        0 < limit,
        1 <= k <= init.pieces.len(),
        init.pieces.len() <= a.available.len(),
    ensures
        ({
            let s1 = select_step(init, 0, a);
            let s = select_upto(init, k, a, limit);
            &&& s.pieces[0] == s1.pieces[0]
            &&& s1.picked.len() <= s.picked.len()
            &&& s1.picked.len() > 0 ==> s.picked[0] == s1.picked[0]
        }),
    decreases k,
{
    if k == 1 {
        assert(select_upto(init, 0, a, limit) == init);
        lemma_step_shape(init, 0, a);
    } else {
        lemma_first_piece_kept(init, k - 1, a, limit);
        lemma_selection(init, k - 1, a, limit);
        lemma_step_shape(init, 0, a);
        let prev = select_upto(init, k - 1, a, limit);
        if !(prev.failed || prev.picked.len() >= limit) {
            lemma_step_shape(prev, k - 1, a);
        }
    }
}

/// A queued piece goes to the first peer that has it: where piece 0 is
/// queued and the requesting peer has it, piece 0 is now downloading by that
/// peer since `now`, and where the selection succeeds it is the first piece
/// handed out, taken from no one. Where the peer lacks piece 0, piece 0
/// keeps its state and is not handed out.
pub proof fn lemma_queued_piece_taken(
    t0: TorrentSharedState,
    t1: TorrentSharedState,
    peer: PeerAddr,
    available: Seq<bool>,
    number_of_pieces: usize,
    now: u64,
    downloaded_pieces: u64,
    r: Result<Option<Vec<(u32, Option<PeerAddr>)>>, StateError>,
)
    requires
        next_pieces_picked(t0, t1, peer, available, number_of_pieces, now, downloaded_pieces, r),
        number_of_pieces >= 1,
        0 < t0.pieces_view().len() <= available.len(),
        t0.pieces_view()[0] == PieceState::Queued,
    ensures
        available[0] ==> t1.pieces_view()[0] == (PieceState::Downloading { peer, start: now }),
        available[0] && r is Ok ==> (r matches Ok(Some(v)) && v@.len() > 0 && v@[0] == (
            0u32,
            None::<PeerAddr>,
        )),
        !available[0] ==> t1.pieces_view()[0] == PieceState::Queued,
        !available[0] ==> (r matches Ok(Some(v)) ==> v@.len() > 0 && v@[0].0 != 0),
{
    let n = t0.pieces_view().len() as int;
    let a = SelectArgs {
        peer,
        available,
        now,
        coeff: steal_coeff(n, downloaded_pieces as int),
    };
    let init = Selection {
        pieces: t0.pieces_view(),
        stats: t0.stats_view(),
        picked: Seq::empty(),
        failed: false,
    };
    let s = select_upto(init, n, a, number_of_pieces as nat);
    lemma_first_piece_kept(init, n, a, number_of_pieces as nat);
    lemma_selection(init, n, a, number_of_pieces as nat);
    let s1 = select_step(init, 0, a);
    if s.picked.len() > 0 && s1.picked.len() == 0 {
        let j = 0int;
        assert(s.picked[j].0 as int != 0) by {
            if s.picked[j].0 as int == 0 {
                assert(a.available[0]);
            }
        }
    }
}

/// Taking a piece over from a slow peer: a peer that has piece 0, which
/// another peer has been downloading, and that has downloaded pieces before,
/// takes piece 0 over exactly where the other peer has been at it for more
/// than a multiple of the requesting peer's average download time: three
/// times once at least four fifths of the pieces are downloaded, and ten
/// times before. A piece taken over is now downloading by the requesting
/// peer since `now`, and where the selection succeeds it is the first piece
/// handed out, paired with the peer it was taken from; a piece not taken
/// over keeps its state.
pub proof fn lemma_takeover_threshold(
    t0: TorrentSharedState,
    t1: TorrentSharedState,
    peer: PeerAddr,
    available: Seq<bool>,
    number_of_pieces: usize,
    now: u64,
    downloaded_pieces: u64,
    r: Result<Option<Vec<(u32, Option<PeerAddr>)>>, StateError>,
    other: PeerAddr,
    start: u64,
)
    requires
        next_pieces_picked(t0, t1, peer, available, number_of_pieces, now, downloaded_pieces, r),
        number_of_pieces >= 1,
        0 < t0.pieces_view().len() <= available.len(),
        available[0],
        t0.pieces_view()[0] == (PieceState::Downloading { peer: other, start }),
        other != peer,
        t0.stats_view().contains_key(peer_key(peer)),
        t0.stats_view()[peer_key(peer)].1 > 0,
    ensures
        ({
            let n = t0.pieces_view().len() as int;
            let (sum, count) = t0.stats_view()[peer_key(peer)];
            let elapsed = elapsed_since(start, now) as int;
            let multiple: int = if downloaded_pieces * 5 >= n * 4 {
                3
            } else {
                10
            };
            let taken = elapsed * count > multiple * sum;
            &&& taken ==> t1.pieces_view()[0] == (PieceState::Downloading { peer, start: now })
            &&& !taken ==> t1.pieces_view()[0] == t0.pieces_view()[0]
            &&& (taken && r is Ok) ==> (r matches Ok(Some(v)) && v@.len() > 0 && v@[0] == (
                0u32,
                Some(other),
            ))
            &&& !taken ==> (r matches Ok(Some(v)) ==> v@.len() > 0 && v@[0].0 != 0)
        }),
{
    let n = t0.pieces_view().len() as int;
    let a = SelectArgs {
        peer,
        available,
        now,
        coeff: steal_coeff(n, downloaded_pieces as int),
    };
    let init = Selection {
        pieces: t0.pieces_view(),
        stats: t0.stats_view(),
        picked: Seq::empty(),
        failed: false,
    };
    let s = select_upto(init, n, a, number_of_pieces as nat);
    lemma_first_piece_kept(init, n, a, number_of_pieces as nat);
    lemma_selection(init, n, a, number_of_pieces as nat);
    let s1 = select_step(init, 0, a);
    let (sum, count) = t0.stats_view()[peer_key(peer)];
    let elapsed = elapsed_since(start, now);
    assert(a.coeff == (if downloaded_pieces * 5 >= n * 4 {
        3u64
    } else {
        10u64
    }));
    assert(elapsed as int * count as int > sum as int * a.coeff as int <==> elapsed as int * count
        > (if downloaded_pieces * 5 >= n * 4 {
        3int
    } else {
        10int
    }) * sum) by (nonlinear_arith)
        requires
            a.coeff == 3 || a.coeff == 10,
            a.coeff == 3 <==> downloaded_pieces * 5 >= n * 4,
    ;
    if s.picked.len() > 0 && s1.picked.len() == 0 {
        let j = 0int;
        assert(s.picked[j].0 as int != 0) by {
            if s.picked[j].0 as int == 0 {
                assert(s.pieces[0] == PieceState::Downloading { peer: a.peer, start: a.now });
            }
        }
    }
}

/// A torrent that has finished downloading stays finished whatever peer
/// asks for pieces: no piece is picked and no piece changes.
pub proof fn lemma_finished_selection_picks_nothing(init: Selection, a: SelectArgs, limit: nat)
    requires
        init.picked.len() == 0,
        !init.failed,
        init.pieces.len() <= a.available.len(),
        all_verified(init.pieces),
    ensures
        select_upto(init, init.pieces.len() as int, a, limit).picked.len() == 0,
        select_upto(init, init.pieces.len() as int, a, limit).pieces == init.pieces,
        all_verified(select_upto(init, init.pieces.len() as int, a, limit).pieces),
{
    let n = init.pieces.len() as int;
    lemma_selection(init, n, a, limit);
    let s = select_upto(init, n, a, limit);
    if s.picked.len() > 0 {
        let idx = s.picked[0].0 as int;
        assert(init.pieces[idx] == PieceState::Verified);
    }
    assert forall|i: int| 0 <= i < n implies s.pieces[i] == init.pieces[i] by {
        assert(init.pieces[i] == PieceState::Verified);
    }
    assert(s.pieces =~= init.pieces);
}

/// A torrent that has finished downloading stays finished when a peer
/// disconnects.
pub proof fn lemma_finished_survives_disconnect(pieces: Seq<PieceState>, peer: super::torrent::PeerAddr)
    requires
        all_verified(pieces),
    ensures
        requeue_peer(pieces, peer) == pieces,
{
    assert(requeue_peer(pieces, peer) =~= pieces);
}

/// Once a peer is disconnected, whether it left or was sent away, it
/// downloads no piece, and the other pieces keep their states.
pub proof fn lemma_released_peer_downloads_nothing(m: SharedModel, peer: PeerAddr)
    ensures
        released(m, peer).pieces.len() == m.pieces.len(),
        forall|i: int|
            0 <= i < m.pieces.len() ==> !downloading_by(released(m, peer).pieces, i, peer),
        forall|i: int|
            0 <= i < m.pieces.len() && !downloading_by(m.pieces, i, peer) ==> #[trigger] released(
                m,
                peer,
            ).pieces[i] == m.pieces[i],
{
}

/// Taking a block in never undoes a verified piece: every piece that was
/// verified stays verified, and the number of pieces stays.
pub proof fn lemma_block_keeps_verified(
    m: SharedModel,
    meta: TorrentMeta,
    hashes: Seq<[u8; 20]>,
    peer: PeerAddr,
    block: Block,
    now: u64,
)
    ensures
        ({
            let s: BlockStep = block_step(m, meta, hashes, peer, block, now);
            &&& s.model.pieces.len() == m.pieces.len()
            &&& forall|i: int|
                0 <= i < m.pieces.len() && m.pieces[i] == PieceState::Verified ==> #[trigger] s.model.pieces[i]
                    == PieceState::Verified
        }),
{
}

/// Disconnecting a peer never undoes a verified piece.
pub proof fn lemma_release_keeps_verified(m: SharedModel, peer: PeerAddr)
    ensures
        forall|i: int|
            0 <= i < m.pieces.len() && m.pieces[i] == PieceState::Verified ==> #[trigger] released(
                m,
                peer,
            ).pieces[i] == PieceState::Verified,
{
}

} // verus!
