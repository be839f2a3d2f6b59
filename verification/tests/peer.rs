use std::path::{Path, PathBuf};

use rustybit::parser::{File, Info};
use rustybit::peer::PeerHandler;
use rustybit::protocol::bitfield::Bitfield;
use rustybit::protocol::{BittorrentP2pMessage, Block, BlockRequest};
use rustybit::state::{PeerAddr, PeerEvent, PieceState, SystemEvent, TorrentSharedState};
use rustybit::storage::TorrentFileMetadata;
use rustybit::torrent::{params, TorrentMeta};
use rustybit::tracker::TrackerRequest;

fn local_peer() -> PeerAddr {
    PeerAddr { ip: 0x7f00_0001, port: 6881 }
}

fn two_piece_meta() -> TorrentMeta {
    // Two pieces: 20000 bytes, then 10000.
    TorrentMeta::new([0; 20], 20000, 30000, 2).unwrap()
}

#[test]
fn a_peer_session_requests_and_receives_blocks() {
    let mut state = TorrentSharedState::new(vec![PieceState::Queued, PieceState::Queued], 2);
    let mut handler = PeerHandler::new(two_piece_meta(), local_peer());
    let mut out = Vec::new();

    let bitfield = BittorrentP2pMessage::Bitfield(Bitfield::from_bytes(vec![0xc0]));
    assert!(handler.can_handle(&bitfield));
    assert!(matches!(handler.handle_message(&state, bitfield, &mut out), Ok(None)));
    assert_eq!(out, vec![0, 0, 0, 1, 1, 0, 0, 0, 1, 2]);
    assert!(handler.client_interested);
    out.clear();

    assert!(matches!(handler.handle_message(&state, BittorrentP2pMessage::Unchoke, &mut out), Ok(None)));
    assert!(!handler.peer_choked);

    let wanted = handler.pieces_wanted().unwrap();
    assert_eq!(wanted, 31);
    let bits = handler.present_pieces.as_ref().unwrap();
    assert!(state.bitfield_covers(bits));
    let next = state.get_next_missing_piece_indexes(local_peer(), bits, wanted, 5, 0).unwrap();
    assert_eq!(next, Some(vec![(0, None), (1, None)]));
    handler.on_next_pieces(next, &mut out);
    assert!(out.is_empty());
    assert_eq!(
        handler.block_requests_queue.iter().copied().collect::<Vec<_>>(),
        vec![
            BlockRequest { index: 0, begin: 0, length: 16384 },
            BlockRequest { index: 0, begin: 16384, length: 3616 },
            BlockRequest { index: 1, begin: 0, length: 10000 },
        ]
    );

    handler.send_block_requests(&mut out);
    assert_eq!(out.len(), 3 * 17);
    assert_eq!(&out[..17], &[0, 0, 0, 13, 6, 0, 0, 0, 0, 0, 0, 0, 0, 0, 0, 0x40, 0]);
    assert!(handler.block_requests_queue.is_empty());
    assert_eq!(handler.sent_block_requests.len(), 3);
    out.clear();

    let piece = BittorrentP2pMessage::Piece { index: 0, begin: 0, block: vec![9; 16384] };
    let event = handler.handle_message(&state, piece, &mut out).unwrap();
    match event {
        Some(PeerEvent::BlockDownloaded(Block { index, begin, block })) => {
            assert_eq!((index, begin, block.len()), (0, 0, 16384));
        }
        other => panic!("unexpected event: {:?}", other),
    }
    assert_eq!(handler.sent_block_requests.len(), 2);

    // Another peer took piece 1 over: its blocks are cancelled.
    state.on_peer_disconnect(&local_peer());
    let piece = BittorrentP2pMessage::Piece { index: 1, begin: 0, block: vec![1; 10000] };
    assert!(handler.handle_message(&state, piece, &mut out).is_err());
}

#[test]
fn have_marks_a_piece_and_new_pieces_are_announced() {
    let state = TorrentSharedState::new(vec![PieceState::Queued, PieceState::Queued], 2);
    let mut handler = PeerHandler::new(two_piece_meta(), local_peer());
    let mut out = Vec::new();
    assert!(handler.handle_message(&state, BittorrentP2pMessage::Have(1), &mut out).is_err());
    handler
        .handle_message(&state, BittorrentP2pMessage::Bitfield(Bitfield::from_bytes(vec![0x00])), &mut out)
        .unwrap();
    out.clear();
    assert!(handler.can_handle(&BittorrentP2pMessage::Have(1)));
    assert!(!handler.can_handle(&BittorrentP2pMessage::Have(2)));
    assert!(matches!(handler.handle_message(&state, BittorrentP2pMessage::Have(1), &mut out), Ok(None)));
    assert!(handler.try_get_piece);
    handler.handle_system_event(SystemEvent::NewPieceAdded(3), &mut out);
    assert_eq!(out, vec![0, 0, 0, 5, 4, 0, 0, 0, 3]);
}

#[test]
fn announce_url_keeps_its_own_query_first() {
    let request = TrackerRequest::new("id", *b"aaaaaaaaaaaaaaaaaaaa", &[None, None, None], None);
    let url = params("http://tracker.example/announce?key=1", request).unwrap();
    assert_eq!(
        url.as_str(),
        "http://tracker.example/announce?key=1&peer_id=id&port=6881&uploaded=0&downloaded=0&left=0&compact=1&info_hash=aaaaaaaaaaaaaaaaaaaa"
    );
    let request = TrackerRequest::new("id", *b"aaaaaaaaaaaaaaaaaaaa", &[None, None, None], None);
    assert!(params("not a url", request).is_err());
}

#[test]
fn single_file_lies_under_the_base_path() {
    let mut info = Info {
        files: None,
        length: Some(6),
        name: "a.txt".into(),
        piece_length: 4,
        pieces: vec![0u8; 40].into(),
        private: None,
        md5sum: None,
    };
    let metadata = TorrentFileMetadata::new(&mut info, Path::new("out")).unwrap();
    assert_eq!(metadata.file_infos.len(), 1);
    assert_eq!(metadata.file_infos[0].path, PathBuf::from("out/a.txt"));
    assert_eq!(metadata.file_infos[0].length, 6);
}

#[test]
fn files_lie_at_their_paths_under_the_base_path() {
    let mut info = Info {
        files: Some(vec![
            File { length: 3, md5sum: None, path: vec!["d".into(), "x.bin".into()] },
            File { length: 5, md5sum: None, path: vec!["y.bin".into()] },
        ]),
        length: None,
        name: "t".into(),
        piece_length: 4,
        pieces: vec![0u8; 40].into(),
        private: None,
        md5sum: None,
    };
    let metadata = TorrentFileMetadata::new(&mut info, Path::new("out")).unwrap();
    assert_eq!(metadata.file_infos.len(), 2);
    assert_eq!(metadata.file_infos[0].path, PathBuf::from("out/d/x.bin"));
    assert_eq!(metadata.file_infos[0].length, 3);
    assert_eq!(metadata.file_infos[1].path, PathBuf::from("out/y.bin"));
    assert_eq!(metadata.file_infos[1].length, 5);
}

#[test]
fn a_download_keeps_its_files_under_the_download_path() {
    let mut single = Info {
        files: None,
        length: Some(6),
        name: "a.txt".into(),
        piece_length: 4,
        pieces: vec![0u8; 40].into(),
        private: None,
        md5sum: None,
    };
    let metadata = TorrentFileMetadata::for_download(&mut single, Path::new("dl")).unwrap();
    assert_eq!(metadata.file_infos[0].path, PathBuf::from("dl/a.txt"));

    let mut several = Info {
        files: Some(vec![File { length: 3, md5sum: None, path: vec!["d".into(), "x.bin".into()] }]),
        length: None,
        name: "t".into(),
        piece_length: 4,
        pieces: vec![0u8; 40].into(),
        private: None,
        md5sum: None,
    };
    let metadata = TorrentFileMetadata::for_download(&mut several, Path::new("dl")).unwrap();
    assert_eq!(metadata.file_infos[0].path, PathBuf::from("dl/t/d/x.bin"));
}

#[test]
fn nothing_is_requested_while_choked() {
    let state = TorrentSharedState::new(vec![PieceState::Queued, PieceState::Queued], 2);
    let mut handler = PeerHandler::new(two_piece_meta(), local_peer());
    let mut out = Vec::new();
    handler.block_requests_queue.push_back(BlockRequest { index: 1, begin: 0, length: 10000 });
    assert!(handler.peer_choked);
    handler.send_block_requests(&mut out);
    assert!(out.is_empty());
    assert_eq!(handler.block_requests_queue.len(), 1);

    assert!(matches!(handler.handle_message(&state, BittorrentP2pMessage::Unchoke, &mut out), Ok(None)));
    handler.send_block_requests(&mut out);
    assert_eq!(out.len(), 17);
    assert_eq!(handler.sent_block_requests.len(), 1);
    out.clear();

    // A choke drops the pending request; it is asked for again after the unchoke.
    assert!(matches!(handler.handle_message(&state, BittorrentP2pMessage::Choke, &mut out), Ok(None)));
    assert!(handler.sent_block_requests.is_empty());
    assert_eq!(
        handler.block_requests_queue.iter().copied().collect::<Vec<_>>(),
        vec![BlockRequest { index: 1, begin: 0, length: 10000 }]
    );
    handler.send_block_requests(&mut out);
    assert!(out.is_empty());
}

#[test]
fn messages_and_pieces_are_refused_where_the_bitfield_is_short() {
    let mut state = TorrentSharedState::new(vec![PieceState::Queued, PieceState::Queued], 2);
    let mut handler = PeerHandler::new(two_piece_meta(), local_peer());
    let mut out = Vec::new();
    let bitfield = BittorrentP2pMessage::Bitfield(Bitfield::from_bytes(vec![0x80]));
    assert!(matches!(handler.try_handle_message(&state, bitfield, &mut out), Some(Ok(None))));
    out.clear();
    assert!(handler.try_handle_message(&state, BittorrentP2pMessage::Have(9), &mut out).is_none());
    assert!(out.is_empty());
    assert!(matches!(handler.try_handle_message(&state, BittorrentP2pMessage::Have(1), &mut out), Some(Ok(None))));

    let short = Bitfield::from_bytes(Vec::new());
    assert!(state.try_get_next_missing_piece_indexes(local_peer(), &short, 4, 0, 0).is_none());
    let bits = handler.present_pieces.as_ref().unwrap();
    let next = state.try_get_next_missing_piece_indexes(local_peer(), bits, 4, 0, 0).unwrap().unwrap();
    assert_eq!(next, Some(vec![(0, None), (1, None)]));
}
