use std::borrow::Cow;
use std::path::PathBuf;

use rustybit::bencode::ser::to_bytes;
use rustybit::bencode::{BencodeValue, Bytes};
use rustybit::buffer::{Frame, FrameStep, MessageStep, ReadBuf};
use rustybit::hash::{calculate_piece_hash, sha1_array};
use rustybit::parser::{MetaInfo, MetaInfoError};
use rustybit::protocol::{BittorrentP2pMessage, Block, Handshake};
use rustybit::state::{PeerAddr, StorageOp};
use rustybit::stats::CircularBuffer;
use rustybit::storage::util::{find_file_offsets_for_data, read_data_from_files, write_data_to_files, FileOffsets};
use rustybit::storage::piece_hash_verifier::layout_fits_u64;
use rustybit::storage::{FileInfo, PieceHashVerifier, Storage, StorageError, StorageManager, TorrentFileMetadata};
use rustybit::tracker::{EventType, TrackerRequest, TrackerResponse};
use rustybit::util::{generate_node_id, generate_peer_id, piece_size_from_idx};

const ABC_SHA1: [u8; 20] = [
    0xa9, 0x99, 0x3e, 0x36, 0x47, 0x06, 0x81, 0x6a, 0xba, 0x3e, 0x25, 0x71, 0x78, 0x50, 0xc2, 0x6c, 0x9c, 0xd0,
    0xd8, 0x9d,
];

#[test]
fn sha1_of_abc() {
    assert_eq!(sha1_array(b"abc"), ABC_SHA1);
    assert_eq!(calculate_piece_hash(b"abc"), ABC_SHA1);
    assert_ne!(calculate_piece_hash(b"abd"), ABC_SHA1);
}

#[test]
fn last_piece_is_the_remainder() {
    assert_eq!(piece_size_from_idx(3, 10, 4, 0), 4);
    assert_eq!(piece_size_from_idx(3, 10, 4, 2), 2);
    assert_eq!(piece_size_from_idx(3, 12, 4, 2), 4);
}

#[test]
fn piece_sizes_add_up_to_the_length() {
    for (total, piece) in [(10usize, 4usize), (12, 4), (1, 7), (7, 7), (16385, 16384)] {
        let n = (total + piece - 1) / piece;
        let sum: usize = (0..n).map(|i| piece_size_from_idx(n, total, piece, i)).sum();
        assert_eq!(sum, total);
    }
}

#[test]
fn peer_ids_carry_the_client_prefix() {
    let id = generate_peer_id();
    assert_eq!(id.len(), 20);
    assert!(id.starts_with("RustyBit-"));
    assert!(id.chars().all(|c| c.is_ascii_alphanumeric() || c == '-'));
    let node = generate_node_id();
    assert_eq!(&node[..9], b"RustyBit-");
}

#[test]
fn tracker_query_string() {
    let request = TrackerRequest::new("abc def", [0xff; 20], &[Some(1), None, Some(3)], Some(EventType::Started));
    let query = request.into_query_params().unwrap();
    let mut expected = String::from("peer_id=abc+def&port=6881&uploaded=1&downloaded=0&left=3&compact=1&event=started&info_hash=");
    for _ in 0..20 {
        expected.push_str("%FF");
    }
    assert_eq!(query, expected);
}

#[test]
fn tracker_query_string_without_event() {
    let request = TrackerRequest::new("id", *b"aaaaaaaaaaaaaaaaaaaa", &[None, None, None], None);
    let query = request.into_query_params().unwrap();
    assert_eq!(
        query,
        "peer_id=id&port=6881&uploaded=0&downloaded=0&left=0&compact=1&info_hash=aaaaaaaaaaaaaaaaaaaa"
    );
}

#[test]
fn tracker_response_with_compact_peers() {
    let body = b"d8:intervali900e5:peers12:\x0a\x00\x00\x01\x1a\xe1\xc0\xa8\x00\x02\x00\x50e";
    let response = TrackerResponse::from_bytes(body).unwrap();
    assert_eq!(response.interval, Some(900));
    assert_eq!(response.failure_reason, None);
    let peers = response.get_peers().unwrap().unwrap();
    assert_eq!(
        peers,
        vec![PeerAddr { ip: 0x0a00_0001, port: 6881 }, PeerAddr { ip: 0xc0a8_0002, port: 80 }]
    );
}

#[test]
fn tracker_failure_and_bad_responses() {
    let response = TrackerResponse::from_bytes(b"d14:failure reason4:nopee").unwrap();
    assert_eq!(response.failure_reason, Some(String::from("nope")));
    assert!(response.get_peers().is_none());
    assert!(TrackerResponse::from_bytes(b"i3e").is_err());
    assert!(TrackerResponse::from_bytes(b"d8:interval3:abce").is_err());
    assert!(TrackerResponse::from_bytes(b"d8:intervali-1ee").is_err());
}

fn files() -> Vec<FileInfo> {
    vec![FileInfo::new(PathBuf::from("a"), 10), FileInfo::new(PathBuf::from("b"), 10)]
}

#[test]
fn layouts_that_overflow_are_refused() {
    assert!(layout_fits_u64(&files(), 3, 8));
    let big = vec![FileInfo::new(PathBuf::from("a"), u64::MAX), FileInfo::new(PathBuf::from("b"), 1)];
    assert!(!layout_fits_u64(&big, 1, 1));
    assert!(!layout_fits_u64(&files(), usize::MAX, 2));
}

#[test]
fn offsets_of_data_in_files() {
    let f = files();
    let o = find_file_offsets_for_data(&f, 1, 8, None).unwrap().unwrap();
    assert_eq!((o.file_idx, o.offset_into_file), (0, 8));
    let o = find_file_offsets_for_data(&f, 1, 8, Some(4)).unwrap().unwrap();
    assert_eq!((o.file_idx, o.offset_into_file), (1, 2));
    assert!(matches!(find_file_offsets_for_data(&f, 3, 8, None), Err(StorageError::NoFileForPiece)));
}

#[derive(Default)]
struct Recorder {
    writes: Vec<(usize, u64, Vec<u8>)>,
}

impl Storage for Recorder {
    fn write_all(&mut self, file_idx: usize, offset: u64, data: &[u8]) -> Result<(), StorageError> {
        self.writes.push((file_idx, offset, data.to_vec()));
        Ok(())
    }

    fn read_exact(&mut self, _file_idx: usize, _offset: u64, buf: &mut [u8]) -> Result<bool, StorageError> {
        for b in buf.iter_mut() {
            *b = 7;
        }
        Ok(true)
    }
}

#[test]
fn data_is_split_across_files() {
    let f = files();
    let mut storage = Recorder::default();
    let offsets = FileOffsets { file_idx: 0, offset_into_file: 8 };
    let written = write_data_to_files(&mut storage, &[1, 2, 3, 4, 5, 6], offsets, &f).unwrap();
    assert!(written);
    assert_eq!(storage.writes, vec![(0, 8, vec![1, 2]), (1, 0, vec![3, 4, 5, 6])]);
}

struct FailsOnFile {
    failing: usize,
    calls: Vec<(usize, u64, usize)>,
}

impl Storage for FailsOnFile {
    fn write_all(&mut self, file_idx: usize, offset: u64, data: &[u8]) -> Result<(), StorageError> {
        self.calls.push((file_idx, offset, data.len()));
        if file_idx == self.failing {
            Err(StorageError::Io("disk full".to_string()))
        } else {
            Ok(())
        }
    }

    fn read_exact(&mut self, file_idx: usize, offset: u64, buf: &mut [u8]) -> Result<bool, StorageError> {
        self.calls.push((file_idx, offset, buf.len()));
        for b in buf.iter_mut() {
            *b = file_idx as u8 + 1;
        }
        Ok(file_idx != self.failing)
    }
}

#[test]
fn the_first_failed_call_ends_the_transfer() {
    let f = vec![
        FileInfo::new(PathBuf::from("a"), 2),
        FileInfo::new(PathBuf::from("b"), 2),
        FileInfo::new(PathBuf::from("c"), 2),
    ];
    let start = FileOffsets { file_idx: 0, offset_into_file: 1 };
    let mut storage = FailsOnFile { failing: 1, calls: Vec::new() };
    let r = write_data_to_files(&mut storage, &[1, 2, 3, 4, 5], start, &f);
    assert!(matches!(r, Err(StorageError::Io(_))));
    assert_eq!(storage.calls, vec![(0, 1, 1), (1, 0, 2)]);

    let mut storage = FailsOnFile { failing: 1, calls: Vec::new() };
    let mut buf = [0u8; 6];
    let r = read_data_from_files(&mut storage, &mut buf, start, &f, 5);
    assert!(matches!(r, Ok(false)));
    assert_eq!(storage.calls, vec![(0, 1, 1), (1, 0, 2)]);
    assert_eq!(buf, [1, 2, 2, 0, 0, 0]);

    let mut storage = FailsOnFile { failing: 9, calls: Vec::new() };
    let r = read_data_from_files(&mut storage, &mut buf, start, &f, 5);
    assert!(matches!(r, Ok(true)));
    assert_eq!(storage.calls, vec![(0, 1, 1), (1, 0, 2), (2, 0, 2)]);
    assert_eq!(buf, [1, 2, 2, 3, 3, 0]);
}

#[test]
fn data_past_the_last_file_is_an_error() {
    let f = files();
    let mut storage = Recorder::default();
    let offsets = FileOffsets { file_idx: 1, offset_into_file: 8 };
    assert!(write_data_to_files(&mut storage, &[1, 2, 3], offsets, &f).is_err());
}

fn b(s: &'static [u8]) -> Bytes<'static> {
    Bytes(Cow::Borrowed(s))
}

fn sample_info() -> BencodeValue<'static> {
    BencodeValue::Dict(vec![
        (b(b"length"), 6i64.into()),
        (b(b"name"), BencodeValue::Bytes(b(b"a.txt"))),
        (b(b"piece length"), 4i64.into()),
        (b(b"pieces"), BencodeValue::Bytes(Bytes(Cow::Owned(vec![3u8; 40])))),
    ])
}

#[test]
fn metainfo_is_read_and_hashed() {
    let torrent = BencodeValue::Dict(vec![
        (b(b"announce"), BencodeValue::Bytes(b(b"http://tracker/announce"))),
        (b(b"info"), sample_info()),
    ]);
    let bytes = to_bytes(&torrent);
    let meta = MetaInfo::from_bytes(&bytes).unwrap();
    assert_eq!(meta.announce, "http://tracker/announce");
    assert_eq!(meta.info.name, "a.txt");
    assert_eq!(meta.info.length, Some(6));
    assert_eq!(meta.info.piece_length, 4);
    assert_eq!(meta.info.pieces.len(), 40);
    assert!(meta.info.files.is_none());
    assert!(meta.announce_list.is_none());
    assert_eq!(meta.info.hash().unwrap(), sha1_array(&to_bytes(&sample_info())));
}

#[test]
fn metainfo_without_announce_is_malformed() {
    let torrent = BencodeValue::Dict(vec![(b(b"info"), sample_info())]);
    let bytes = to_bytes(&torrent);
    assert!(matches!(MetaInfo::from_bytes(&bytes), Err(MetaInfoError::Malformed)));
    assert!(matches!(MetaInfo::from_bytes(b"i1e2"), Err(MetaInfoError::Decode(_))));
}

#[test]
fn handshake_reads_land_at_the_front() {
    let h = Handshake::new([1; 20], [2; 20]);
    let mut bytes = Vec::new();
    h.encode(&mut bytes).expect("encoding failed");
    let mut buf = ReadBuf::new();
    buf.fill_front(&bytes[..10]);
    assert!(buf.read_handshake().is_none());
    buf.fill_front(&bytes);
    match buf.read_handshake() {
        Some(Ok(back)) => {
            assert_eq!(back.info_hash, [1; 20]);
            assert_eq!(back.peer_id, [2; 20]);
        }
        other => panic!("unexpected step: {:?}", other.map(|r| r.map(|_| ()))),
    }
}

#[test]
fn read_buffer_hands_out_whole_messages() {
    let mut buf = ReadBuf::new();
    buf.append_read(&[0, 0, 0, 1]);
    assert!(matches!(buf.read_message(), MessageStep::NeedMore(4)));
    buf.append_read(&[2, 0, 0]);
    match buf.read_message() {
        MessageStep::Message(Ok(m)) => assert_eq!(m, BittorrentP2pMessage::Interested),
        other => panic!("unexpected step: {:?}", other),
    }
    // Two bytes are left: the length prefix is not complete yet.
    assert!(matches!(buf.read_message(), MessageStep::NeedMore(4)));
    buf.append_read(&[0, 0, 0, 0, 0, 5, 4]);
    match buf.read_message() {
        MessageStep::Message(Ok(m)) => assert_eq!(m, BittorrentP2pMessage::KeepAlive),
        other => panic!("unexpected step: {:?}", other),
    }
    // A `have` message of nine bytes has five of them in.
    assert!(matches!(buf.read_message(), MessageStep::NeedMore(4)));
    buf.append_read(&[0, 0, 0, 9]);
    match buf.read_message() {
        MessageStep::Message(Ok(m)) => assert_eq!(m, BittorrentP2pMessage::Have(9)),
        other => panic!("unexpected step: {:?}", other),
    }
}

#[test]
fn frame_lengths() {
    let mut frame = Frame::new();
    assert_eq!(frame.find_message_length(), FrameStep::Read(4));
    assert_eq!(frame.find_handshake_length(), FrameStep::Read(1));
    frame.get_buf_of_size(4).copy_from_slice(&[0, 0, 0, 3]);
    frame.advance_offset(4);
    assert_eq!(frame.find_message_length(), FrameStep::Read(3));
    frame.get_buf_of_size(3).copy_from_slice(&[1, 2, 3]);
    frame.advance_offset(3);
    assert_eq!(frame.find_message_length(), FrameStep::Ready(7));
    assert_eq!(frame.peek_bytes(4), Some(&[0u8, 0, 0, 3][..]));
    assert_eq!(frame.read_bytes(7), Some(&[0u8, 0, 0, 3, 1, 2, 3][..]));
    assert!(frame.is_empty());
}

#[test]
fn circular_buffer_fills_then_overwrites() {
    let mut c: CircularBuffer<u32> = CircularBuffer::new(3);
    c.push_back(1);
    c.push_back(2);
    assert_eq!(c.as_slice(), &[1, 2]);
    c.push_back(3);
    assert_eq!(c.as_slice(), &[1, 2, 3]);
    // The position wrapped to the start before the last slot, so the next
    // sample lands in the second slot.
    c.push_back(4);
    assert_eq!(c.as_slice(), &[1, 4, 3]);
    c.push_back(5);
    assert_eq!(c.as_slice(), &[5, 4, 3]);
}

#[test]
fn storage_manager_writes_blocks_and_checks_pieces() {
    let metadata = TorrentFileMetadata { file_infos: files() };
    let mut manager = StorageManager::new(metadata, 4, PieceHashVerifier::new(4), 5, 20).unwrap();
    let mut storage = Recorder::default();

    let op = StorageOp::AddBlock(Block { index: 2, begin: 1, block: vec![1, 2, 3] });
    assert!(manager.handle_op(&mut storage, op).unwrap().is_none());
    assert_eq!(storage.writes, vec![(0, 9, vec![1]), (1, 0, vec![2, 3])]);

    let peer = PeerAddr { ip: 1, port: 2 };
    let good = StorageOp::CheckPieceHash((peer, 1, sha1_array(&[7, 7, 7, 7])));
    assert_eq!(manager.handle_op(&mut storage, good).unwrap(), Some((peer, 1, true)));
    let bad = StorageOp::CheckPieceHash((peer, 1, [0; 20]));
    assert_eq!(manager.handle_op(&mut storage, bad).unwrap(), Some((peer, 1, false)));
    let missing = StorageOp::CheckPieceHash((peer, 9, [0; 20]));
    assert!(matches!(manager.handle_op(&mut storage, missing), Err(StorageError::NoFileForPiece)));

    assert_eq!(manager.checksum_verification(&mut storage, &[sha1_array(&[7, 7, 7, 7]), [0; 20]]).unwrap(), Some(1));
}

#[test]
fn storage_manager_refuses_a_mismatched_verifier() {
    let metadata = TorrentFileMetadata { file_infos: files() };
    assert!(matches!(
        StorageManager::new(metadata, 4, PieceHashVerifier::new(8), 5, 20),
        Err(StorageError::Conversion)
    ));
}

#[test]
fn empty_data_and_a_start_past_the_files() {
    let f = files();
    let mut storage = Recorder::default();
    let start = FileOffsets { file_idx: 0, offset_into_file: 3 };
    assert!(write_data_to_files(&mut storage, &[], start, &f).unwrap());
    let past = FileOffsets { file_idx: 2, offset_into_file: 0 };
    assert!(matches!(write_data_to_files(&mut storage, &[1], past, &f), Err(StorageError::BadFileIdx)));
    assert!(storage.writes.is_empty());
    let mut buf = [0u8; 4];
    assert!(matches!(read_data_from_files(&mut storage, &mut buf, past, &f, 4), Err(StorageError::BadFileIdx)));
    assert!(read_data_from_files(&mut storage, &mut buf, start, &f, 0).unwrap());
    assert!(read_data_from_files(&mut storage, &mut buf, start, &f, 4).unwrap());
    assert_eq!(buf, [7, 7, 7, 7]);
}
