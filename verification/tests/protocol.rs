use rustybit::protocol::bitfield::Bitfield;
use rustybit::protocol::{BittorrentP2pMessage, Decode, Handshake, MessageId};

fn encoded(m: &BittorrentP2pMessage) -> Vec<u8> {
    let mut out = Vec::new();
    m.encode(&mut out).expect("encoding failed");
    out
}

#[test]
fn have_message_bytes() {
    let m = BittorrentP2pMessage::Have(5);
    assert_eq!(encoded(&m), vec![0, 0, 0, 5, 4, 0, 0, 0, 5]);
    assert_eq!(m.message_id(), Some(MessageId::Have));
    assert_eq!(m.length_and_message_id(), (5, Some(MessageId::Have)));
}

#[test]
fn keep_alive_is_four_zero_bytes() {
    assert_eq!(encoded(&BittorrentP2pMessage::KeepAlive), vec![0, 0, 0, 0]);
    assert_eq!(BittorrentP2pMessage::KeepAlive.message_id(), None);
}

#[test]
fn messages_round_trip() {
    let messages = vec![
        BittorrentP2pMessage::KeepAlive,
        BittorrentP2pMessage::Choke,
        BittorrentP2pMessage::Unchoke,
        BittorrentP2pMessage::Interested,
        BittorrentP2pMessage::NotInterested,
        BittorrentP2pMessage::Have(0xdead_beef),
        BittorrentP2pMessage::Request { index: 1, begin: 16384, length: 16384 },
        BittorrentP2pMessage::Piece { index: 2, begin: 0, block: vec![1, 2, 3] },
        BittorrentP2pMessage::Cancel { index: 3, begin: 4, length: 5 },
        BittorrentP2pMessage::Port(6881),
        BittorrentP2pMessage::Bitfield(Bitfield::from_bytes(Vec::new())),
        BittorrentP2pMessage::Bitfield(Bitfield::from_bytes(vec![0b1011_0000, 0xff])),
    ];
    for m in messages {
        let bytes = encoded(&m);
        assert!(!BittorrentP2pMessage::decode_overruns(&bytes));
        let back = BittorrentP2pMessage::decode(&bytes).expect("decoding failed");
        assert_eq!(back, m);
    }
}

#[test]
fn bitfield_length_counts_bytes() {
    let m = BittorrentP2pMessage::Bitfield(Bitfield::from_bytes(vec![0b1011_0000]));
    assert_eq!(m.length_and_message_id(), (2, Some(MessageId::Bitfield)));
    assert_eq!(encoded(&m), vec![0, 0, 0, 2, 5, 0b1011_0000]);
}

#[test]
fn request_message_bytes() {
    let m = BittorrentP2pMessage::Request { index: 1, begin: 2, length: 3 };
    assert_eq!(encoded(&m), vec![0, 0, 0, 13, 6, 0, 0, 0, 1, 0, 0, 0, 2, 0, 0, 0, 3]);
}

#[test]
fn piece_message_bytes() {
    let m = BittorrentP2pMessage::Piece { index: 7, begin: 8, block: vec![9, 9] };
    assert_eq!(encoded(&m), vec![0, 0, 0, 11, 7, 0, 0, 0, 7, 0, 0, 0, 8, 9, 9]);
}

#[test]
fn unknown_message_id_is_an_error() {
    let bytes = [0u8, 0, 0, 1, 42];
    assert!(!BittorrentP2pMessage::decode_overruns(&bytes));
    assert!(BittorrentP2pMessage::decode(&bytes).is_err());
}

#[test]
fn handshake_bytes_and_round_trip() {
    let h = Handshake::new([1; 20], [2; 20]);
    let mut out = Vec::new();
    h.encode(&mut out).expect("encoding failed");
    assert_eq!(out.len(), 68);
    assert_eq!(out[0], 19);
    assert_eq!(&out[1..20], b"BitTorrent protocol");
    assert_eq!(&out[20..28], &[0u8; 8]);
    assert_eq!(&out[28..48], &[1u8; 20]);
    assert_eq!(&out[48..68], &[2u8; 20]);

    let back = Handshake::decode(&out).expect("decoding failed");
    assert_eq!(back.pstr, "BitTorrent protocol");
    assert_eq!(back.extension_bytes, 0);
    assert_eq!(back.info_hash, [1; 20]);
    assert_eq!(back.peer_id, [2; 20]);
}
