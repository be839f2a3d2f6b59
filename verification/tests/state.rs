use rustybit::protocol::bitfield::Bitfield;
use rustybit::protocol::Block;
use rustybit::state::handler::{Flow, StorageOp, Torrent, TorrentAction};
use rustybit::state::{PeerAddr, PeerEvent, PieceState, StateError, TorrentManagerReq, TorrentSharedState};
use rustybit::torrent::TorrentMeta;

fn peer(n: u32) -> PeerAddr {
    PeerAddr { ip: n, port: 6881 }
}

#[test]
fn queued_pieces_that_the_peer_has_are_picked_in_order() {
    let mut state = TorrentSharedState::new(vec![PieceState::Queued; 3], 3);
    let bits = Bitfield::from_bytes(vec![0b1010_0000]);
    let picked = state.get_next_missing_piece_indexes(peer(1), &bits, 3, 100, 0).unwrap();
    assert_eq!(picked, Some(vec![(0, None), (2, None)]));
    assert_eq!(state.get_piece_status(0), Some(&PieceState::Downloading { peer: peer(1), start: 100 }));
    assert_eq!(state.get_piece_status(1), Some(&PieceState::Queued));
    assert_eq!(state.get_piece_status(2), Some(&PieceState::Downloading { peer: peer(1), start: 100 }));
}

#[test]
fn picking_stops_at_the_limit() {
    let mut state = TorrentSharedState::new(vec![PieceState::Queued; 3], 3);
    let bits = Bitfield::from_bytes(vec![0xff]);
    let picked = state.get_next_missing_piece_indexes(peer(1), &bits, 1, 0, 0).unwrap();
    assert_eq!(picked, Some(vec![(0, None)]));
    assert_eq!(state.get_piece_status(1), Some(&PieceState::Queued));
}

#[test]
fn nothing_to_pick_gives_none() {
    let mut state = TorrentSharedState::new(vec![PieceState::Queued, PieceState::Verified], 2);
    let bits = Bitfield::from_bytes(vec![0b0100_0000]);
    assert_eq!(state.get_next_missing_piece_indexes(peer(1), &bits, 2, 0, 0).unwrap(), None);
}

#[test]
fn a_peer_does_not_pick_its_own_piece_again() {
    let mut state = TorrentSharedState::new(vec![PieceState::Downloading { peer: peer(1), start: 0 }], 1);
    let bits = Bitfield::from_bytes(vec![0x80]);
    assert_eq!(state.get_next_missing_piece_indexes(peer(1), &bits, 1, 10, 0).unwrap(), None);
}

#[test]
fn finished_only_when_all_verified() {
    let mut state = TorrentSharedState::new(vec![PieceState::Verified, PieceState::Downloaded], 2);
    assert!(!state.finished_downloading());
    state.mark_piece_as_verified(1);
    assert!(state.finished_downloading());
    assert_eq!(state.get_number_of_pieces(), 2);
    state.mark_piece_as_verified(7);
    assert!(state.finished_downloading());
}

#[test]
fn disconnect_requeues_the_peers_pieces() {
    let mut state = TorrentSharedState::new(
        vec![
            PieceState::Downloading { peer: peer(1), start: 0 },
            PieceState::Downloading { peer: peer(2), start: 0 },
            PieceState::Verified,
        ],
        3,
    );
    state.on_peer_disconnect(&peer(1));
    assert_eq!(state.get_piece_status(0), Some(&PieceState::Queued));
    assert_eq!(state.get_piece_status(1), Some(&PieceState::Downloading { peer: peer(2), start: 0 }));
    assert_eq!(state.get_piece_status(2), Some(&PieceState::Verified));
}

#[test]
fn stolen_check() {
    let state = TorrentSharedState::new(vec![PieceState::Downloading { peer: peer(1), start: 0 }], 1);
    assert_eq!(state.verify_piece_not_stolen(peer(1), 0), Ok(true));
    assert_eq!(state.verify_piece_not_stolen(peer(2), 0), Ok(false));
    assert_eq!(state.verify_piece_not_stolen(peer(1), 1), Err(StateError::BadPieceIndex));
}

fn meta() -> TorrentMeta {
    // Two pieces of 4 bytes, 6 bytes in all: the last piece has 2.
    TorrentMeta::new([0; 20], 4, 6, 2).unwrap()
}

#[test]
fn a_complete_piece_is_stored_and_checked() {
    let mut torrent = Torrent::new(meta(), vec![[7; 20], [8; 20]]);
    torrent.on_new_peer(peer(1));
    let mut state = TorrentSharedState::new(
        vec![PieceState::Downloading { peer: peer(1), start: 10 }, PieceState::Queued],
        2,
    );
    let mut actions = Vec::new();

    let first = Block { index: 0, begin: 0, block: vec![1, 2] };
    let flow = torrent.on_peer_event(&mut state, peer(1), PeerEvent::BlockDownloaded(first), 20, &mut actions);
    assert_eq!(flow, Ok(Flow::Continue));
    assert_eq!(actions.len(), 1);
    assert!(matches!(&actions[0], TorrentAction::Storage(StorageOp::AddBlock(b)) if b.block == vec![1, 2]));

    let second = Block { index: 0, begin: 2, block: vec![3, 4] };
    let flow = torrent.on_peer_event(&mut state, peer(1), PeerEvent::BlockDownloaded(second), 30, &mut actions);
    assert_eq!(flow, Ok(Flow::Continue));
    assert_eq!(actions.len(), 3);
    assert!(matches!(
        &actions[2],
        TorrentAction::Storage(StorageOp::CheckPieceHash((p, 0, h))) if *p == peer(1) && *h == [7; 20]
    ));
    assert_eq!(state.get_piece_status(0), Some(&PieceState::Downloaded));
}

#[test]
fn an_oversized_block_disconnects_the_peer() {
    let mut torrent = Torrent::new(meta(), vec![[7; 20], [8; 20]]);
    torrent.on_new_peer(peer(1));
    torrent.on_new_peer(peer(2));
    let mut state = TorrentSharedState::new(
        vec![PieceState::Queued, PieceState::Downloading { peer: peer(1), start: 0 }],
        2,
    );
    let mut actions = Vec::new();
    let block = Block { index: 1, begin: 0, block: vec![0; 3] };
    let flow = torrent.on_peer_event(&mut state, peer(1), PeerEvent::BlockDownloaded(block), 5, &mut actions);
    assert_eq!(flow, Ok(Flow::Continue));
    assert_eq!(actions.len(), 2);
    assert!(matches!(
        &actions[0],
        TorrentAction::Peer(p, TorrentManagerReq::Disconnect("error while adding a block")) if *p == peer(1)
    ));
    assert!(matches!(&actions[1], TorrentAction::PeerLeft));
    assert_eq!(state.get_piece_status(1), Some(&PieceState::Queued));
}

#[test]
fn a_block_of_a_taken_over_piece_is_ignored() {
    let mut torrent = Torrent::new(meta(), vec![[7; 20], [8; 20]]);
    let mut state = TorrentSharedState::new(
        vec![PieceState::Downloading { peer: peer(2), start: 0 }, PieceState::Queued],
        2,
    );
    let mut actions = Vec::new();
    let block = Block { index: 0, begin: 0, block: vec![0; 4] };
    let flow = torrent.on_peer_event(&mut state, peer(1), PeerEvent::BlockDownloaded(block), 5, &mut actions);
    assert_eq!(flow, Ok(Flow::Continue));
    assert!(actions.is_empty());
}

#[test]
fn the_last_peer_leaving_an_unfinished_torrent_is_an_error() {
    let mut torrent = Torrent::new(meta(), vec![[7; 20], [8; 20]]);
    torrent.on_new_peer(peer(1));
    let mut state = TorrentSharedState::new(vec![PieceState::Queued, PieceState::Verified], 2);
    let mut actions = Vec::new();
    let flow = torrent.on_peer_event(&mut state, peer(1), PeerEvent::Disconnected, 0, &mut actions);
    assert_eq!(flow, Err(StateError::Incomplete));
    assert_eq!(actions.len(), 1);
    assert!(matches!(&actions[0], TorrentAction::PeerLeft));
}

#[test]
fn verifying_the_last_piece_stops_every_peer() {
    let mut torrent = Torrent::new(meta(), vec![[7; 20], [8; 20]]);
    torrent.on_new_peer(peer(1));
    torrent.on_new_peer(peer(2));
    torrent.on_new_peer(peer(1));
    let mut state = TorrentSharedState::new(
        vec![PieceState::Verified, PieceState::Downloading { peer: peer(1), start: 0 }],
        2,
    );
    let mut actions = Vec::new();
    let block = Block { index: 1, begin: 0, block: vec![5, 6] };
    let flow = torrent.on_peer_event(&mut state, peer(1), PeerEvent::BlockDownloaded(block), 9, &mut actions);
    assert_eq!(flow, Ok(Flow::Continue));
    assert_eq!(actions.len(), 2);

    actions.clear();
    let flow = torrent.on_piece_checked(&mut state, peer(1), 1, true, &mut actions);
    assert_eq!(flow, Ok(Flow::Stop));
    assert_eq!(actions.len(), 3);
    assert!(matches!(&actions[0], TorrentAction::PieceVerified(2)));
    assert!(matches!(
        &actions[1],
        TorrentAction::Peer(p, TorrentManagerReq::Disconnect("finished downloading")) if *p == peer(1)
    ));
    assert!(matches!(
        &actions[2],
        TorrentAction::Peer(p, TorrentManagerReq::Disconnect("finished downloading")) if *p == peer(2)
    ));
    assert!(state.finished_downloading());
}

#[test]
fn a_failed_hash_check_disconnects_the_peer() {
    let mut torrent = Torrent::new(meta(), vec![[7; 20], [8; 20]]);
    torrent.on_new_peer(peer(1));
    let mut state = TorrentSharedState::new(
        vec![PieceState::Downloaded, PieceState::Downloading { peer: peer(1), start: 0 }],
        2,
    );
    let mut actions = Vec::new();
    let flow = torrent.on_piece_checked(&mut state, peer(1), 0, false, &mut actions);
    assert_eq!(flow, Ok(Flow::Continue));
    assert!(matches!(
        &actions[0],
        TorrentAction::Peer(_, TorrentManagerReq::Disconnect("piece hash verification failed"))
    ));
    assert_eq!(state.get_piece_status(1), Some(&PieceState::Queued));
    assert_eq!(state.get_piece_status(0), Some(&PieceState::Downloaded));
}

#[test]
fn verifying_a_piece_without_progress_is_an_error() {
    let mut torrent = Torrent::new(meta(), vec![[7; 20], [8; 20]]);
    let mut state = TorrentSharedState::new(vec![PieceState::Downloaded, PieceState::Queued], 2);
    let mut actions = Vec::new();
    assert_eq!(
        torrent.on_piece_checked(&mut state, peer(1), 0, true, &mut actions),
        Err(StateError::MissingProgress)
    );
    assert_eq!(state.get_piece_status(0), Some(&PieceState::Verified));
    assert_eq!(
        torrent.on_piece_checked(&mut state, peer(1), 5, true, &mut actions),
        Err(StateError::BadPieceIndex)
    );
}

#[test]
fn taking_over_a_slow_peers_piece_queues_a_cancellation() {
    let mut torrent = Torrent::new(meta(), vec![[7; 20], [8; 20]]);
    torrent.on_new_peer(peer(2));
    let mut state = TorrentSharedState::new(
        vec![PieceState::Downloading { peer: peer(1), start: 0 }, PieceState::Downloading { peer: peer(2), start: 0 }],
        2,
    );
    // peer 2 finishes piece 1 in 10 ms, so its average is 10 ms.
    let mut actions = Vec::new();
    let block = Block { index: 1, begin: 0, block: vec![1, 2] };
    torrent.on_peer_event(&mut state, peer(2), PeerEvent::BlockDownloaded(block), 10, &mut actions).unwrap();
    // Piece 0 has been downloading by peer 1 for much longer than that.
    let bits = Bitfield::from_bytes(vec![0xc0]);
    let picked = state.get_next_missing_piece_indexes(peer(2), &bits, 2, 1_000_000, 0).unwrap();
    assert_eq!(picked, Some(vec![(0, Some(peer(1)))]));

    actions.clear();
    torrent.on_new_peer(peer(1));
    torrent.forward_cancellations(&mut state, &mut actions);
    assert_eq!(actions.len(), 1);
    assert!(matches!(&actions[0], TorrentAction::Peer(p, TorrentManagerReq::CancelPiece(0)) if *p == peer(1)));
    // Nothing is left pending.
    actions.clear();
    torrent.forward_cancellations(&mut state, &mut actions);
    assert!(actions.is_empty());
}

#[test]
fn cancellations_for_unknown_peers_are_dropped() {
    let torrent = Torrent::new(meta(), vec![[7; 20], [8; 20]]);
    let mut state = TorrentSharedState::new(vec![PieceState::Downloading { peer: peer(1), start: 0 }], 1);
    let mut actions = Vec::new();
    // peer 2 has an average of zero pieces, so it takes nothing over.
    let bits = Bitfield::from_bytes(vec![0x80]);
    assert_eq!(state.get_next_missing_piece_indexes(peer(2), &bits, 1, 1_000_000, 0).unwrap(), None);
    torrent.forward_cancellations(&mut state, &mut actions);
    assert!(actions.is_empty());
}

#[test]
fn a_finished_torrent_stays_finished() {
    let mut state = TorrentSharedState::new(vec![PieceState::Verified; 3], 3);
    let bits = Bitfield::from_bytes(vec![0xff]);
    assert_eq!(state.get_next_missing_piece_indexes(peer(1), &bits, 3, 0, 3).unwrap(), None);
    state.on_peer_disconnect(&peer(1));
    assert!(state.finished_downloading());
}

#[test]
fn verified_pieces_survive_a_bad_block_and_a_departure() {
    let mut torrent = Torrent::new(meta(), vec![[7; 20], [8; 20]]);
    torrent.on_new_peer(peer(1));
    torrent.on_new_peer(peer(2));
    let mut state = TorrentSharedState::new(
        vec![PieceState::Verified, PieceState::Downloading { peer: peer(1), start: 0 }],
        2,
    );
    let mut actions = Vec::new();
    let block = Block { index: 1, begin: 0, block: vec![0; 9] };
    torrent.on_peer_event(&mut state, peer(1), PeerEvent::BlockDownloaded(block), 1, &mut actions).unwrap();
    torrent.on_peer_event(&mut state, peer(2), PeerEvent::Disconnected, 2, &mut actions).ok();
    assert_eq!(state.get_piece_status(0), Some(&PieceState::Verified));
    assert_eq!(state.get_piece_status(1), Some(&PieceState::Queued));
}
