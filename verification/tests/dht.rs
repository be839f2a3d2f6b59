use std::borrow::Cow;

use rustybit::bencode::de::{from_bytes, from_str};
use rustybit::bencode::ser::{to_bytes, to_string};
use rustybit::dht::messages::{
    CompactPeerInfo, DhtError, GetPeersQueryMessage, GetPeersResponse, KrpcMessage, KrpcMessageType,
};
use rustybit::dht::requester::{DhtAction, DhtRequester};
use rustybit::state::PeerAddr;

#[test]
fn get_peers_roundtrip_test() {
    let query_message = KrpcMessage {
        transaction_id: "123".into(),
        message_type: KrpcMessageType::Query {
            name: "get_peers".into(),
            query: GetPeersQueryMessage {
                id: [0; 20],
                info_hash: [1; 20],
            },
        },
    };

    let ser_result = to_string(&query_message.to_value()).expect("serialization failed");

    let value = from_str(&ser_result).expect("deserialization failed");
    let deserialized_query_message = KrpcMessage::from_value(&value).expect("deserialization failed");

    assert_eq!(query_message, deserialized_query_message);
}

#[test]
fn get_peers_resp_roundtrip_test() {
    let peer_info = vec![CompactPeerInfo(b"test".as_ref().into())];
    let nodes = b"big node";

    let query_resp_message = KrpcMessage {
        transaction_id: "123".into(),
        message_type: KrpcMessageType::Response {
            response: GetPeersResponse {
                values: Some(peer_info.into()),
                nodes: Some(nodes.as_ref().into()),
            },
        },
    };

    let ser_result = to_string(&query_resp_message.to_value()).expect("serialization failed");

    let value = from_str(&ser_result).expect("deserialization failed");
    let deserialized_query_resp_message = KrpcMessage::from_value(&value).expect("deserialization failed");

    assert_eq!(query_resp_message, deserialized_query_resp_message);
}

#[test]
fn error_message_round_trips() {
    let message = KrpcMessage {
        transaction_id: "aa".into(),
        message_type: KrpcMessageType::Error { error: (201, Cow::Borrowed("A Generic Error Ocurred")) },
    };
    let bytes = to_bytes(&message.to_value());
    let value = from_bytes(&bytes).unwrap();
    assert_eq!(KrpcMessage::from_value(&value).unwrap(), message);
}

#[test]
fn a_value_that_is_no_message_is_malformed() {
    let value = from_bytes(b"i3e").unwrap();
    assert_eq!(KrpcMessage::from_value(&value), Err(DhtError::Malformed));
}

fn addr(ip: u32, port: u16) -> PeerAddr {
    PeerAddr { ip, port }
}

#[test]
fn requester_needs_a_bootstrap_node() {
    assert!(matches!(DhtRequester::new(Vec::new(), [0; 20], [1; 20]), Err(DhtError::NoBootstrapNodes)));
}

#[test]
fn requester_sends_the_get_peers_query() {
    let requester = DhtRequester::new(vec![addr(1, 2)], [7; 20], [9; 20]).unwrap();
    let value = from_bytes(requester.serialized_message()).unwrap();
    let message = KrpcMessage::from_value(&value).unwrap();
    assert_eq!(message.transaction_id, "10");
    match message.message_type {
        KrpcMessageType::Query { name, query } => {
            assert_eq!(name, "get_peers");
            assert_eq!(query.id, [7; 20]);
            assert_eq!(query.info_hash, [9; 20]);
        }
        other => panic!("unexpected message: {:?}", other),
    }
}

fn answer(values: Vec<Vec<u8>>, nodes: Vec<u8>) -> Vec<u8> {
    let message = KrpcMessage {
        transaction_id: "10".into(),
        message_type: KrpcMessageType::Response {
            response: GetPeersResponse {
                values: Some(values.into_iter().map(|v| CompactPeerInfo(v.into())).collect::<Vec<_>>().into()),
                nodes: Some(nodes.into()),
            },
        },
    };
    to_bytes(&message.to_value())
}

fn node_info(id: u8, ip: [u8; 4], port: u16) -> Vec<u8> {
    let mut v = vec![id; 20];
    v.extend_from_slice(&ip);
    v.extend_from_slice(&port.to_be_bytes());
    v
}

#[test]
fn requester_asks_every_node_then_stops() {
    let mut requester = DhtRequester::new(vec![addr(1, 1), addr(2, 2)], [0; 20], [0; 20]).unwrap();
    assert_eq!(requester.next_action(0), DhtAction::Query(addr(1, 1)));
    assert_eq!(requester.next_action(0), DhtAction::Query(addr(2, 2)));
    assert_eq!(requester.next_action(0), DhtAction::Wait);

    let data = answer(vec![vec![10, 0, 0, 1, 0x1a, 0xe1]], Vec::new());
    assert!(!DhtRequester::datagram_overruns(&data));
    let peers = requester.on_message(addr(1, 1), &data);
    assert_eq!(peers, vec![addr(0x0a00_0001, 6881)]);

    // The other request is given up once it waited too long.
    assert_eq!(requester.next_action(1000), DhtAction::Wait);
    assert_eq!(requester.next_action(1001), DhtAction::Stop);
}

#[test]
fn answers_queue_their_nodes_and_each_peer_goes_out_once() {
    let mut requester = DhtRequester::new(vec![addr(1, 1)], [0; 20], [0; 20]).unwrap();
    assert_eq!(requester.next_action(0), DhtAction::Query(addr(1, 1)));

    let mut nodes = node_info(7, [10, 0, 0, 2], 6881);
    nodes.extend(node_info(8, [0, 0, 0, 1], 1)); // already asked
    nodes.extend(node_info(9, [10, 0, 0, 2], 6881)); // already queued
    nodes.extend(node_info(7, [10, 0, 0, 3], 80));
    let data = answer(
        vec![vec![10, 0, 0, 5, 0, 1], vec![10, 0, 0, 5, 0, 2], vec![10, 0, 0, 6, 0, 1]],
        nodes,
    );
    assert!(!DhtRequester::datagram_overruns(&data));
    let peers = requester.on_message(addr(1, 1), &data);
    assert_eq!(peers, vec![addr(0x0a00_0005, 1), addr(0x0a00_0006, 1)]);
    // The same answer again hands out no peer, and queues no node twice.
    assert!(requester.on_message(addr(1, 1), &data).is_empty());

    assert_eq!(requester.next_action(5), DhtAction::Query(addr(0x0a00_0002, 6881)));
    assert_eq!(requester.next_action(5), DhtAction::Query(addr(0x0a00_0003, 80)));
    assert_eq!(requester.next_action(5), DhtAction::Wait);
}

#[test]
fn answers_cut_short_overrun() {
    let data = answer(Vec::new(), vec![0u8; 25]);
    assert!(DhtRequester::datagram_overruns(&data));
    let data = answer(vec![vec![1, 2, 3, 4, 5]], Vec::new());
    assert!(DhtRequester::datagram_overruns(&data));
}

#[test]
fn empty_nodes_read_back_as_empty_and_no_peers_as_malformed() {
    let message = KrpcMessage {
        transaction_id: "10".into(),
        message_type: KrpcMessageType::Response {
            response: GetPeersResponse { values: Some(Vec::new().into()), nodes: None },
        },
    };
    let bytes = to_bytes(&message.to_value());
    let value = from_bytes(&bytes).unwrap();
    match KrpcMessage::from_value(&value).unwrap().message_type {
        KrpcMessageType::Response { response } => assert_eq!(response.nodes.as_deref(), Some(&[][..])),
        other => panic!("unexpected message: {:?}", other),
    }
    let message = KrpcMessage {
        transaction_id: "10".into(),
        message_type: KrpcMessageType::Response { response: GetPeersResponse { values: None, nodes: None } },
    };
    let bytes = to_bytes(&message.to_value());
    let value = from_bytes(&bytes).unwrap();
    assert_eq!(KrpcMessage::from_value(&value), Err(DhtError::Malformed));
}

#[test]
fn garbage_datagrams_name_no_peer() {
    let mut requester = DhtRequester::new(vec![addr(1, 1)], [0; 20], [0; 20]).unwrap();
    assert_eq!(requester.on_message(addr(1, 1), b"not bencode"), Vec::new());
}
