//! KRPC messages of the DHT, as bencode dictionaries: a transaction id, a
//! type (`y`) of query, response or error, and the type's fields.

use std::borrow::Cow;
use vstd::prelude::*;
use vstd::utf8::encode_utf8;

use crate::bencode::access::{as_text, dict_get, get, opt_view, text_of};
use crate::bencode::grammar::find_key;
use crate::bencode::value::{
    lemma_view_dict_push, lemma_view_list, lemma_view_list_push, view_dict, view_list, view_value,
    BValue, BencodeValue, Bytes,
};

verus! {

/// A query message: it names the type of its answer.
pub trait KrpcQueryMessage<'a> {
    type ResponseType: KrpcResponseMessage<'a>;
}

/// A response message.
pub trait KrpcResponseMessage<'a> {
}

/// A `get_peers` query: the querying node's id and the torrent's info hash.
#[derive(Debug, PartialEq, Eq)]
pub struct GetPeersQueryMessage {
    pub id: [u8; 20],
    pub info_hash: [u8; 20],
}

/// A peer's address, compact: four bytes of IPv4 address and two of port.
#[derive(Debug, PartialEq, Eq)]
pub struct CompactPeerInfo<'a>(pub Cow<'a, [u8]>);

impl<'a> View for CompactPeerInfo<'a> {
    type V = Seq<u8>;

    open spec fn view(&self) -> Seq<u8> {
        self.0@
    }
}

impl<'a> Clone for CompactPeerInfo<'a> {
    /// A copy that owns its bytes.
    fn clone(&self) -> (r: Self)
        ensures
            r@ == self@,
    {
        CompactPeerInfo(Cow::Owned(vstd::slice::slice_to_vec(cow_u8(&self.0))))
    }
}

/// The answer to `get_peers`: peers that have the torrent, or nodes closer
/// to it.
#[derive(Debug, PartialEq, Eq)]
pub struct GetPeersResponse<'a> {
    pub values: Option<Cow<'a, [CompactPeerInfo<'a>]>>,
    pub nodes: Option<Cow<'a, [u8]>>,
}

/// A `ping` query.
#[derive(Debug, PartialEq, Eq)]
pub struct PingQueryMessage {
    pub id: [u8; 20],
}

/// The answer to `ping`.
#[derive(Debug, PartialEq, Eq)]
pub struct PingResponse {
    pub id: [u8; 20],
}

impl<'a> KrpcQueryMessage<'a> for GetPeersQueryMessage {
    type ResponseType = GetPeersResponse<'a>;
}

impl<'a> KrpcResponseMessage<'a> for GetPeersResponse<'a> {
}

impl<'a> KrpcQueryMessage<'a> for PingQueryMessage {
    type ResponseType = PingResponse;
}

impl<'a> KrpcResponseMessage<'a> for PingResponse {
}

/// The body of a KRPC message, by its type.
#[derive(Debug, PartialEq, Eq)]
pub enum KrpcMessageType<'a> {
    /// A query: its name and arguments.
    Query { name: Cow<'a, str>, query: GetPeersQueryMessage },
    /// A response.
    Response { response: GetPeersResponse<'a> },
    /// An error: its code and message.
    Error { error: (u16, Cow<'a, str>) },
}

/// A KRPC message of the `get_peers` exchange.
#[derive(Debug, PartialEq, Eq)]
pub struct KrpcMessage<'a> {
    pub transaction_id: Cow<'a, str>,
    pub message_type: KrpcMessageType<'a>,
}

/// Why a DHT message or exchange failed.
#[derive(Debug, Clone, Copy, PartialEq, Eq)]
pub enum DhtError {
    /// No bootstrap node was given.
    NoBootstrapNodes,
    /// A message is not a KRPC message of the expected form.
    Malformed,
}

/// `t`
pub open spec fn key_t() -> Seq<u8> {
    seq![116u8]
}

/// `y`
pub open spec fn key_y() -> Seq<u8> {
    seq![121u8]
}

/// `q`
pub open spec fn key_q() -> Seq<u8> {
    seq![113u8]
}

/// `a`
pub open spec fn key_a() -> Seq<u8> {
    seq![97u8]
}

/// `r`
pub open spec fn key_r() -> Seq<u8> {
    seq![114u8]
}

/// `e`
pub open spec fn key_e() -> Seq<u8> {
    seq![101u8]
}

/// `id`
pub open spec fn key_id() -> Seq<u8> {
    seq![105u8, 100]
}

/// `info_hash`
pub open spec fn key_info_hash() -> Seq<u8> {
    seq![105u8, 110, 102, 111, 95, 104, 97, 115, 104]
}

/// `values`
pub open spec fn key_values() -> Seq<u8> {
    seq![118u8, 97, 108, 117, 101, 115]
}

/// `nodes`
pub open spec fn key_nodes() -> Seq<u8> {
    seq![110u8, 111, 100, 101, 115]
}

/// A string as a bencode byte string.
pub open spec fn text(s: Seq<char>) -> BValue {
    BValue::Bytes(encode_utf8(s))
}

/// The compact peer infos as a bencode list of byte strings.
pub open spec fn peers_value(values: Seq<CompactPeerInfo>) -> BValue {
    BValue::List(values.map_values(|p: CompactPeerInfo| BValue::Bytes(p.0@)))
}

/// A message as bencode: `t`, then `y` and the fields of its type. A
/// missing optional field is written as an empty byte string.
pub open spec fn krpc_bvalue(m: KrpcMessage) -> BValue {
    let t = (key_t(), text(m.transaction_id@));
    BValue::Dict(
        match m.message_type {
            KrpcMessageType::Query { name, query } => seq![
                t,
                (key_y(), BValue::Bytes(key_q())),
                (key_q(), text(name@)),
                (
                    key_a(),
                    BValue::Dict(
                        seq![
                            (key_id(), BValue::Bytes(query.id@)),
                            (key_info_hash(), BValue::Bytes(query.info_hash@)),
                        ],
                    ),
                ),
            ],
            KrpcMessageType::Response { response } => seq![
                t,
                (key_y(), BValue::Bytes(key_r())),
                (
                    key_r(),
                    BValue::Dict(
                        seq![
                            (
                                key_values(),
                                match response.values {
                                    Some(v) => peers_value(v@),
                                    None => BValue::Bytes(Seq::empty()),
                                },
                            ),
                            (
                                key_nodes(),
                                match response.nodes {
                                    Some(n) => BValue::Bytes(n@),
                                    None => BValue::Bytes(Seq::empty()),
                                },
                            ),
                        ],
                    ),
                ),
            ],
            KrpcMessageType::Error { error } => seq![
                t,
                (key_y(), BValue::Bytes(key_e())),
                (key_e(), BValue::List(seq![BValue::Int(error.0 as int), text(error.1@)])),
            ],
        },
    )
}

/// The bytes of a byte string of twenty bytes.
pub open spec fn as_id(v: Option<BValue>) -> Option<Seq<u8>> {
    match v {
        Some(BValue::Bytes(b)) => if b.len() == 20 {
            Some(b)
        } else {
            None
        },
        _ => None,
    }
}

/// Whether every item of a list is a byte string.
pub open spec fn all_bytes(l: Seq<BValue>) -> bool {
    forall|i: int| 0 <= i < l.len() ==> (#[trigger] l[i]) is Bytes
}

/// What a message reads as, where it is one. Fields that it does not know
/// are passed over. A missing optional field, or one that is an empty byte
/// string, is `None`.
pub enum KrpcModel {
    Query { t: Seq<char>, name: Seq<char>, id: Seq<u8>, info_hash: Seq<u8> },
    Response { t: Seq<char>, values: Option<Seq<Seq<u8>>>, nodes: Option<Seq<u8>> },
    Error { t: Seq<char>, code: int, message: Seq<char> },
}

/// The optional list of compact peers of a response: none where the field
/// is missing, the byte strings of a list of them; nothing else is a list
/// of peers.
pub open spec fn parse_values(v: Option<BValue>) -> Option<Option<Seq<Seq<u8>>>> {
    match v {
        None => Some(None),
        Some(BValue::List(l)) => if all_bytes(l) {
            Some(Some(l.map_values(|x: BValue| x->Bytes_0)))
        } else {
            None
        },
        _ => None,
    }
}

/// The optional compact nodes of a response: none where the field is
/// missing, else its byte string, empty or not.
pub open spec fn parse_nodes(v: Option<BValue>) -> Option<Option<Seq<u8>>> {
    match v {
        None => Some(None),
        Some(BValue::Bytes(b)) => Some(Some(b)),
        _ => None,
    }
}

/// What a bencode value reads as as a KRPC message, if anything.
pub open spec fn parse_krpc(v: BValue) -> Option<KrpcModel> {
    match v {
        BValue::Dict(d) => match as_text(dict_get(d, key_t())) {
            None => None,
            Some(t) => {
                let y = dict_get(d, key_y());
                if y == Some(BValue::Bytes(key_q())) {
                    match (as_text(dict_get(d, key_q())), dict_get(d, key_a())) {
                        (Some(name), Some(BValue::Dict(a))) => match (
                            as_id(dict_get(a, key_id())),
                            as_id(dict_get(a, key_info_hash())),
                        ) {
                            (Some(id), Some(info_hash)) => Some(
                                KrpcModel::Query { t, name, id, info_hash },
                            ),
                            _ => None,
                        },
                        _ => None,
                    }
                } else if y == Some(BValue::Bytes(key_r())) {
                    match dict_get(d, key_r()) {
                        Some(BValue::Dict(r)) => match (
                            parse_values(dict_get(r, key_values())),
                            parse_nodes(dict_get(r, key_nodes())),
                        ) {
                            (Some(values), Some(nodes)) => Some(
                                KrpcModel::Response { t, values, nodes },
                            ),
                            _ => None,
                        },
                        _ => None,
                    }
                } else if y == Some(BValue::Bytes(key_e())) {
                    match dict_get(d, key_e()) {
                        Some(BValue::List(l)) => if l.len() == 2 && l[0] is Int && 0 <= l[0]->Int_0
                            <= u16::MAX {
                            match as_text(Some(l[1])) {
                                Some(message) => Some(
                                    KrpcModel::Error { t, code: l[0]->Int_0, message },
                                ),
                                None => None,
                            }
                        } else {
                            None
                        },
                        _ => None,
                    }
                } else {
                    None
                }
            },
        },
        _ => None,
    }
}

/// The model of a message.
pub open spec fn krpc_model(m: KrpcMessage) -> KrpcModel {
    match m.message_type {
        KrpcMessageType::Query { name, query } => KrpcModel::Query {
            t: m.transaction_id@,
            name: name@,
            id: query.id@,
            info_hash: query.info_hash@,
        },
        KrpcMessageType::Response { response } => KrpcModel::Response {
            t: m.transaction_id@,
            values: match response.values {
                Some(v) => Some(v@.map_values(|p: CompactPeerInfo| p.0@)),
                None => None,
            },
            nodes: match response.nodes {
                Some(n) => Some(n@),
                None => None,
            },
        },
        KrpcMessageType::Error { error } => KrpcModel::Error {
            t: m.transaction_id@,
            code: error.0 as int,
            message: error.1@,
        },
    }
}

/// A byte string value borrowing `b`.
fn bytes_value<'b>(b: &'b [u8]) -> (r: BencodeValue<'b>)
    ensures
        r@ == BValue::Bytes(b@),
{
    BencodeValue::Bytes(Bytes(Cow::Borrowed(b)))
}

/// A byte string value owning `b`.
fn owned_bytes_value<'b>(b: Vec<u8>) -> (r: BencodeValue<'b>)
    ensures
        r@ == BValue::Bytes(b@),
{
    BencodeValue::Bytes(Bytes(Cow::Owned(b)))
}

/// A key owning `b`.
fn key<'b>(b: Vec<u8>) -> (r: Bytes<'b>)
    ensures
        r@ == b@,
{
    Bytes(Cow::Owned(b))
}

/// The string that a `Cow` holds.
fn cow_str<'b>(c: &'b Cow<'_, str>) -> (r: &'b str)
    ensures
        r@ == c@,
{
    match c {
        Cow::Borrowed(s) => s,
        Cow::Owned(s) => s.as_str(),
    }
}

/// A string as a byte string value.
fn text_value<'b>(s: &'b Cow<'_, str>) -> (r: BencodeValue<'b>)
    ensures
        r@ == text(s@),
{
    bytes_value(cow_str(s).as_bytes())
}

/// The bytes that a `Cow` holds.
pub(crate) fn cow_u8<'b>(c: &'b Cow<'_, [u8]>) -> (r: &'b [u8])
    ensures
        r@ == c@,
{
    match c {
        Cow::Borrowed(b) => b,
        Cow::Owned(v) => v.as_slice(),
    }
}

/// The peers that a `Cow` holds.
fn cow_peers<'b, 'c>(c: &'b Cow<'c, [CompactPeerInfo<'c>]>) -> (r: &'b [CompactPeerInfo<'c>])
    ensures
        r@ == c@,
{
    match c {
        Cow::Borrowed(b) => b,
        Cow::Owned(v) => v.as_slice(),
    }
}

/// A dictionary value of the given entries.
fn dict_of<'b>(entries: Vec<(Bytes<'b>, BencodeValue<'b>)>) -> (r: BencodeValue<'b>)
    ensures
        r@ == BValue::Dict(view_dict(entries@)),
{
    BencodeValue::Dict(entries)
}

/// Appends an entry to a dictionary being built.
fn push_entry<'b>(d: &mut Vec<(Bytes<'b>, BencodeValue<'b>)>, k: Bytes<'b>, v: BencodeValue<'b>)
    ensures
        view_dict(final(d)@) == view_dict(old(d)@).push((k@, v@)),
{
    let ghost e = (k, v);
    d.push((k, v));
    proof {
        lemma_view_dict_push(old(d)@, e);
    }
}

impl<'a> KrpcMessage<'a> {
    /// The message as a bencode dictionary.
    pub fn to_value(&self) -> (r: BencodeValue<'_>)
        ensures
            r@ == krpc_bvalue(*self),
    {
        let mut d: Vec<(Bytes<'_>, BencodeValue<'_>)> = Vec::new();
        push_entry(&mut d, key(vec![116u8]), text_value(&self.transaction_id));
        match &self.message_type {
            KrpcMessageType::Query { name, query } => {
                let tag = vec![113u8];
                assert(tag@ =~= key_q());
                push_entry(&mut d, key(vec![121u8]), owned_bytes_value(tag));
                push_entry(&mut d, key(vec![113u8]), text_value(name));
                let mut a: Vec<(Bytes<'_>, BencodeValue<'_>)> = Vec::new();
                push_entry(&mut a, key(vec![105u8, 100]), bytes_value(query.id.as_slice()));
                push_entry(
                    &mut a,
                    key(vec![105u8, 110, 102, 111, 95, 104, 97, 115, 104]),
                    bytes_value(query.info_hash.as_slice()),
                );
                assert(view_dict(a@) =~= seq![
                    (key_id(), BValue::Bytes(query.id@)),
                    (key_info_hash(), BValue::Bytes(query.info_hash@)),
                ]);
                push_entry(&mut d, key(vec![97u8]), dict_of(a));
                let ghost expected = krpc_bvalue(*self)->Dict_0;
                assert(view_dict(d@).len() == 4);
                assert(view_dict(d@)[0] == expected[0]);
                assert(view_dict(d@)[1].0 == expected[1].0);
                assert(view_dict(d@)[1].1 == expected[1].1);
                assert(view_dict(d@)[2] == expected[2]);
                assert(view_dict(d@)[3] == expected[3]);
                assert(view_dict(d@) =~= krpc_bvalue(*self)->Dict_0);
            },
            KrpcMessageType::Response { response } => {
                let tag = vec![114u8];
                assert(tag@ =~= key_r());
                push_entry(&mut d, key(vec![121u8]), owned_bytes_value(tag));
                let mut r: Vec<(Bytes<'_>, BencodeValue<'_>)> = Vec::new();
                let values = match &response.values {
                    Some(v) => {
                        let peers = cow_peers(v);
                        let mut items: Vec<BencodeValue<'_>> = Vec::new();
                        let mut i: usize = 0;
                        while i < peers.len()
                            invariant
                                i <= peers@.len(),
                                view_list(items@) == peers@.take(i as int).map_values(
                                    |p: CompactPeerInfo| BValue::Bytes(p.0@),
                                ),
                            decreases peers@.len() - i,
                        {
                            let item = bytes_value(cow_u8(&peers[i].0));
                            let ghost before = items@;
                            items.push(item);
                            proof {
                                lemma_view_list_push(before, item);
                                assert(peers@.take(i + 1).map_values(
                                    |p: CompactPeerInfo| BValue::Bytes(p.0@),
                                ) =~= peers@.take(i as int).map_values(
                                    |p: CompactPeerInfo| BValue::Bytes(p.0@),
                                ).push(BValue::Bytes(peers@[i as int].0@)));
                            }
                            i = i + 1;
                        }
                        assert(peers@.take(peers@.len() as int) =~= peers@);
                        BencodeValue::List(items)
                    },
                    None => {
                        let empty: Vec<u8> = Vec::new();
                        assert(empty@ =~= Seq::<u8>::empty());
                        owned_bytes_value(empty)
                    },
                };
                push_entry(&mut r, key(vec![118u8, 97, 108, 117, 101, 115]), values);
                let nodes = match &response.nodes {
                    Some(n) => bytes_value(cow_u8(n)),
                    None => {
                        let empty: Vec<u8> = Vec::new();
                        assert(empty@ =~= Seq::<u8>::empty());
                        owned_bytes_value(empty)
                    },
                };
                push_entry(&mut r, key(vec![110u8, 111, 100, 101, 115]), nodes);
                assert(view_dict(r@) =~= krpc_bvalue(*self)->Dict_0[2].1->Dict_0);
                push_entry(&mut d, key(vec![114u8]), dict_of(r));
                let ghost expected = krpc_bvalue(*self)->Dict_0;
                assert(view_dict(d@).len() == 3);
                assert(view_dict(d@)[0] == expected[0]);
                assert(view_dict(d@)[1].0 == expected[1].0);
                assert(view_dict(d@)[1].1 == expected[1].1);
                assert(view_dict(d@)[2] == expected[2]);
                assert(view_dict(d@) =~= krpc_bvalue(*self)->Dict_0);
            },
            KrpcMessageType::Error { error } => {
                let tag = vec![101u8];
                assert(tag@ =~= key_e());
                push_entry(&mut d, key(vec![121u8]), owned_bytes_value(tag));
                let mut items: Vec<BencodeValue<'_>> = Vec::new();
                items.push(BencodeValue::Int(error.0 as i64));
                items.push(text_value(&error.1));
                proof {
                    lemma_view_list(items@);
                }
                assert(view_list(items@) =~= seq![BValue::Int(error.0 as int), text(error.1@)]);
                push_entry(&mut d, key(vec![101u8]), BencodeValue::List(items));
                let ghost expected = krpc_bvalue(*self)->Dict_0;
                assert(view_dict(d@).len() == 3);
                assert(view_dict(d@)[0] == expected[0]);
                assert(view_dict(d@)[1].0 == expected[1].0);
                assert(view_dict(d@)[1].1 == expected[1].1);
                assert(view_dict(d@)[2] == expected[2]);
                assert(view_dict(d@) =~= krpc_bvalue(*self)->Dict_0);
            },
        }
        dict_of(d)
    }
}

/// The bytes of a value that is a byte string of twenty bytes.
fn id_of(v: Option<&BencodeValue>) -> (r: Option<[u8; 20]>)
    ensures
        match as_id(opt_view(v)) {
            Some(id) => r matches Some(a) && a@ == id,
            None => r is None,
        },
{
    match v {
        Some(BencodeValue::Bytes(b)) => {
            let bytes = b.as_slice();
            if bytes.len() != 20 {
                return None;
            }
            let mut a = [0u8; 20];
            let mut i: usize = 0;
            while i < 20
                invariant
                    i <= 20,
                    bytes@.len() == 20,
                    a@.len() == 20,
                    forall|j: int| 0 <= j < i ==> a@[j] == bytes@[j],
                decreases 20 - i,
            {
                a[i] = bytes[i];
                i = i + 1;
            }
            assert(a@ =~= bytes@);
            Some(a)
        },
        _ => None,
    }
}

/// The optional compact peers of a response, where the value is of the
/// right form.
fn values_of(v: Option<&BencodeValue>) -> (r: Option<Option<Vec<CompactPeerInfo<'static>>>>)
    ensures
        match parse_values(opt_view(v)) {
            None => r is None,
            Some(None) => r == Some(None::<Vec<CompactPeerInfo<'static>>>),
            Some(Some(peers)) => r matches Some(Some(list)) && list@.map_values(
                |p: CompactPeerInfo| p.0@,
            ) == peers,
        },
{
    match v {
        None => Some(None),
        Some(BencodeValue::List(l)) => {
            let ghost vl = view_list(l@);
            proof {
                lemma_view_list(l@);
            }
            assert(opt_view(v) == Some(BValue::List(vl)));
            let mut peers: Vec<CompactPeerInfo<'static>> = Vec::new();
            let mut i: usize = 0;
            while i < l.len()
                invariant
                    i <= l@.len(),
                    vl == view_list(l@),
                    opt_view(v) == Some(BValue::List(vl)),
                    vl =~= Seq::new(l@.len(), |k: int| view_value(l@[k])),
                    all_bytes(vl.take(i as int)),
                    peers@.map_values(|p: CompactPeerInfo| p.0@) == vl.take(i as int).map_values(
                        |x: BValue| x->Bytes_0,
                    ),
                decreases l@.len() - i,
            {
                match &l[i] {
                    BencodeValue::Bytes(b) => {
                        let p = CompactPeerInfo(Cow::Owned(vstd::slice::slice_to_vec(b.as_slice())));
                        let ghost before = peers@;
                        peers.push(p);
                        proof {
                            assert(vl[i as int] == BValue::Bytes(b@));
                            assert(p.0@ == b@);
                            assert(peers@ =~= before.push(p));
                            assert(vl.take(i + 1) =~= vl.take(i as int).push(vl[i as int]));
                            assert(peers@.map_values(|p: CompactPeerInfo| p.0@) =~= before.map_values(
                                |p: CompactPeerInfo| p.0@,
                            ).push(b@));
                            assert(vl.take(i + 1).map_values(|x: BValue| x->Bytes_0) =~= vl.take(
                                i as int,
                            ).map_values(|x: BValue| x->Bytes_0).push(b@));
                        }
                    },
                    _ => {
                        proof {
                            assert(!(vl[i as int] is Bytes));
                            assert(!all_bytes(vl));
                            assert(opt_view(v) == Some(BValue::List(vl)));
                            assert(parse_values(opt_view(v)) is None);
                        }
                        return None;
                    },
                }
                i = i + 1;
            }
            assert(vl.take(l@.len() as int) =~= vl);
            Some(Some(peers))
        },
        _ => None,
    }
}

/// The optional compact nodes of a response, where the value is of the
/// right form.
fn nodes_of(v: Option<&BencodeValue>) -> (r: Option<Option<Vec<u8>>>)
    ensures
        match parse_nodes(opt_view(v)) {
            None => r is None,
            Some(None) => r == Some(None::<Vec<u8>>),
            Some(Some(n)) => r matches Some(Some(b)) && b@ == n,
        },
{
    match v {
        None => Some(None),
        Some(BencodeValue::Bytes(b)) => Some(Some(vstd::slice::slice_to_vec(b.as_slice()))),
        _ => None,
    }
}

/// The one-byte tag of a value: its byte where it is a byte string of one
/// byte, else 0.
fn tag_of(y: Option<&BencodeValue>) -> (k: u8)
    ensures
        (k == 113) == (opt_view(y) == Some(BValue::Bytes(key_q()))),
        (k == 114) == (opt_view(y) == Some(BValue::Bytes(key_r()))),
        (k == 101) == (opt_view(y) == Some(BValue::Bytes(key_e()))),
{
    match y {
        Some(BencodeValue::Bytes(b)) => {
            let bytes = b.as_slice();
            if bytes.len() == 1 {
                proof {
                    assert(bytes@ =~= seq![bytes@[0]]);
                    if bytes@ == key_q() || bytes@ == key_r() || bytes@ == key_e() {
                        assert(bytes@[0] == b@[0]);
                    }
                }
                if bytes[0] == 0 {
                    0
                } else {
                    bytes[0]
                }
            } else {
                proof {
                    assert(b@ != key_q() && b@ != key_r() && b@ != key_e()) by {
                        if b@ == key_q() || b@ == key_r() || b@ == key_e() {
                            assert(b@.len() == 1);
                        }
                    }
                }
                0
            }
        },
        _ => 0,
    }
}

impl KrpcMessage<'static> {
    /// Reads a message from a bencode value: a dictionary with a text `t`
    /// and a `y` of `q` (with a text `q` and arguments `a` of a twenty-byte
    /// `id` and `info_hash`), `r` (with a dictionary `r` of optional compact
    /// `values` and `nodes`) or `e` (with a list `e` of a code and a text).
    /// An error where the value is not of that form.
    pub fn from_value(v: &BencodeValue) -> (r: Result<KrpcMessage<'static>, DhtError>)
        ensures
            match parse_krpc(v@) {
                None => r == Err::<KrpcMessage<'static>, DhtError>(DhtError::Malformed),
                Some(model) => r matches Ok(m) && krpc_model(m) == model,
            },
    {
        let d = match v {
            BencodeValue::Dict(d) => d,
            _ => return Err(DhtError::Malformed),
        };
        let k_t = [116u8];
        let k_y = [121u8];
        let k_q = [113u8];
        let k_a = [97u8];
        let k_r = [114u8];
        let k_e = [101u8];
        let k_id = [105u8, 100];
        let k_info_hash = [105u8, 110, 102, 111, 95, 104, 97, 115, 104];
        let k_values = [118u8, 97, 108, 117, 101, 115];
        let k_nodes = [110u8, 111, 100, 101, 115];
        proof {
            assert(k_t@ =~= key_t());
            assert(k_y@ =~= key_y());
            assert(k_q@ =~= key_q());
            assert(k_a@ =~= key_a());
            assert(k_r@ =~= key_r());
            assert(k_e@ =~= key_e());
            assert(k_id@ =~= key_id());
            assert(k_info_hash@ =~= key_info_hash());
            assert(k_values@ =~= key_values());
            assert(k_nodes@ =~= key_nodes());
        }
        let t = match text_of(get(d, k_t.as_slice())) {
            Some(t) => t,
            None => return Err(DhtError::Malformed),
        };
        let y = get(d, k_y.as_slice());
        let kind = tag_of(y);
        if kind == 113 {
            let name = match text_of(get(d, k_q.as_slice())) {
                Some(n) => n,
                None => return Err(DhtError::Malformed),
            };
            let a = match get(d, k_a.as_slice()) {
                Some(BencodeValue::Dict(a)) => a,
                _ => return Err(DhtError::Malformed),
            };
            let id = match id_of(get(a, k_id.as_slice())) {
                Some(id) => id,
                None => return Err(DhtError::Malformed),
            };
            let info_hash = match id_of(get(a, k_info_hash.as_slice())) {
                Some(h) => h,
                None => return Err(DhtError::Malformed),
            };
            Ok(
                KrpcMessage {
                    transaction_id: Cow::Owned(t),
                    message_type: KrpcMessageType::Query {
                        name: Cow::Owned(name),
                        query: GetPeersQueryMessage { id, info_hash },
                    },
                },
            )
        } else if kind == 114 {
            let r = match get(d, k_r.as_slice()) {
                Some(BencodeValue::Dict(r)) => r,
                _ => return Err(DhtError::Malformed),
            };
            let values = match values_of(get(r, k_values.as_slice())) {
                Some(v) => v,
                None => return Err(DhtError::Malformed),
            };
            let nodes = match nodes_of(get(r, k_nodes.as_slice())) {
                Some(n) => n,
                None => return Err(DhtError::Malformed),
            };
            let values = match values {
                Some(list) => Some(Cow::Owned(list)),
                None => None,
            };
            let nodes = match nodes {
                Some(n) => Some(Cow::Owned(n)),
                None => None,
            };
            Ok(
                KrpcMessage {
                    transaction_id: Cow::Owned(t),
                    message_type: KrpcMessageType::Response {
                        response: GetPeersResponse { values, nodes },
                    },
                },
            )
        } else if kind == 101 {
            let l = match get(d, k_e.as_slice()) {
                Some(BencodeValue::List(l)) => l,
                _ => return Err(DhtError::Malformed),
            };
            proof {
                lemma_view_list(l@);
            }
            if l.len() != 2 {
                return Err(DhtError::Malformed);
            }
            let code = match &l[0] {
                BencodeValue::Int(c) => {
                    if 0 <= *c && *c <= u16::MAX as i64 {
                        *c as u16
                    } else {
                        return Err(DhtError::Malformed);
                    }
                },
                _ => return Err(DhtError::Malformed),
            };
            let message = match text_of(Some(&l[1])) {
                Some(m) => m,
                None => return Err(DhtError::Malformed),
            };
            Ok(
                KrpcMessage {
                    transaction_id: Cow::Owned(t),
                    message_type: KrpcMessageType::Error { error: (code, Cow::Owned(message)) },
                },
            )
        } else {
            Err(DhtError::Malformed)
        }
    }
}

/// A `get_peers` query is written as a dictionary that says it is a query
/// (`y` is `q`), names the query under `q`, and holds its arguments under
/// `a`: the querying node's id under `id` and the torrent's info hash under
/// `info_hash`, each as its twenty bytes.
pub proof fn lemma_query_fields(m: KrpcMessage)
    ensures
        match m.message_type {
            KrpcMessageType::Query { name, query } => {
                let d = krpc_bvalue(m)->Dict_0;
                &&& krpc_bvalue(m) is Dict
                &&& dict_get(d, seq![121u8]) == Some(BValue::Bytes(seq![113u8]))
                &&& dict_get(d, seq![113u8]) == Some(text(name@))
                &&& (dict_get(d, seq![97u8]) matches Some(BValue::Dict(a)) && dict_get(
                    a,
                    seq![105u8, 100],
                ) == Some(BValue::Bytes(query.id@)) && dict_get(
                    a,
                    seq![105u8, 110, 102, 111, 95, 104, 97, 115, 104],
                ) == Some(BValue::Bytes(query.info_hash@)))
            },
            _ => true,
        },
{
    reveal_with_fuel(find_key, 5);
    if let KrpcMessageType::Query { name, query } = m.message_type {
        let d = krpc_bvalue(m)->Dict_0;
        assert(key_t() =~= seq![116u8]);
        assert(key_y() =~= seq![121u8]);
        assert(key_q() =~= seq![113u8]);
        assert(key_a() =~= seq![97u8]);
        assert(key_id() =~= seq![105u8, 100]);
        assert(key_info_hash() =~= seq![105u8, 110, 102, 111, 95, 104, 97, 115, 104]);
        assert(key_t()[0] == 116 && key_y()[0] == 121 && key_q()[0] == 113 && key_a()[0] == 97);
        assert(key_t() != key_y() && key_t() != key_q() && key_t() != key_a());
        assert(key_y() != key_q() && key_y() != key_a() && key_q() != key_a());
        assert(key_id() != key_info_hash());
        let a = d[3].1->Dict_0;
        assert(dict_get(a, key_id()) == Some(BValue::Bytes(query.id@)));
        assert(dict_get(a, key_info_hash()) == Some(BValue::Bytes(query.info_hash@)));
    }
}

/// An answer is written as a dictionary that carries the transaction id
/// under `t`, says it is an answer (`y` is `r`), and holds under `r` the
/// compact peers, as a list of byte strings, under `values`, and the
/// compact nodes, as a byte string, under `nodes`. An error carries its
/// code and message, in that order, as a list under `e`, and `y` is `e`.
pub proof fn lemma_answer_fields(m: KrpcMessage)
    ensures
        ({
            let d = krpc_bvalue(m)->Dict_0;
            &&& krpc_bvalue(m) is Dict
            &&& dict_get(d, seq![116u8]) == Some(text(m.transaction_id@))
            &&& match m.message_type {
                KrpcMessageType::Response { response } => {
                    &&& dict_get(d, seq![121u8]) == Some(BValue::Bytes(seq![114u8]))
                    &&& (dict_get(d, seq![114u8]) matches Some(BValue::Dict(r)) && (
                    response.values matches Some(v) ==> dict_get(
                        r,
                        seq![118u8, 97, 108, 117, 101, 115],
                    ) == Some(
                        BValue::List(v@.map_values(|p: CompactPeerInfo| BValue::Bytes(p.0@))),
                    )) && (response.nodes matches Some(n) ==> dict_get(
                        r,
                        seq![110u8, 111, 100, 101, 115],
                    ) == Some(BValue::Bytes(n@))))
                },
                KrpcMessageType::Error { error } => {
                    &&& dict_get(d, seq![121u8]) == Some(BValue::Bytes(seq![101u8]))
                    &&& dict_get(d, seq![101u8]) == Some(
                        BValue::List(seq![BValue::Int(error.0 as int), text(error.1@)]),
                    )
                },
                _ => true,
            }
        }),
{
    reveal_with_fuel(find_key, 5);
    let d = krpc_bvalue(m)->Dict_0;
    assert(key_t() =~= seq![116u8]);
    assert(key_y() =~= seq![121u8]);
    assert(key_q() =~= seq![113u8]);
    assert(key_a() =~= seq![97u8]);
    assert(key_r() =~= seq![114u8]);
    assert(key_e() =~= seq![101u8]);
    assert(key_values() =~= seq![118u8, 97, 108, 117, 101, 115]);
    assert(key_nodes() =~= seq![110u8, 111, 100, 101, 115]);
    assert(key_t()[0] == 116 && key_y()[0] == 121 && key_r()[0] == 114 && key_e()[0] == 101);
    assert(key_values()[0] == 118 && key_nodes()[0] == 110);
    assert(key_t() != key_y() && key_t() != key_r() && key_y() != key_r());
    assert(key_t() != key_e() && key_y() != key_e());
    assert(key_values() != key_nodes());
    assert(dict_get(d, key_t()) == Some(text(m.transaction_id@)));
    match m.message_type {
        KrpcMessageType::Response { response } => {
            assert(dict_get(d, key_y()) == Some(BValue::Bytes(key_r())));
            assert(dict_get(d, key_r()) == Some(d[2].1));
        },
        KrpcMessageType::Error { error } => {
            assert(dict_get(d, key_y()) == Some(BValue::Bytes(key_e())));
        },
        _ => {},
    }
}

/// Reading back the bencode of a message gives the message: its model is
/// what the bencode reads as. An answer must carry both its peers and its
/// nodes: a missing one is written as an empty byte string, which reads back
/// as empty nodes, and as no list of peers at all.
pub proof fn lemma_krpc_roundtrip(m: KrpcMessage)
    requires
        m.message_type matches KrpcMessageType::Response { response } ==> response.values is Some
            && response.nodes is Some,
    ensures
        parse_krpc(krpc_bvalue(m)) == Some(krpc_model(m)),
{
    reveal_with_fuel(find_key, 5);
    assert(key_t()[0] == 116 && key_y()[0] == 121 && key_q()[0] == 113 && key_a()[0] == 97);
    assert(key_r()[0] == 114 && key_e()[0] == 101);
    vstd::utf8::encode_utf8_valid_utf8(m.transaction_id@);
    vstd::utf8::encode_utf8_decode_utf8(m.transaction_id@);
    let d = krpc_bvalue(m)->Dict_0;
    assert(dict_get(d, key_t()) == Some(text(m.transaction_id@)));
    match m.message_type {
        KrpcMessageType::Query { name, query } => {
            vstd::utf8::encode_utf8_valid_utf8(name@);
            vstd::utf8::encode_utf8_decode_utf8(name@);
            assert(key_t() != key_y() && key_t() != key_q() && key_t() != key_a());
            assert(key_y() != key_q() && key_y() != key_a() && key_q() != key_a());
            assert(key_id() != key_info_hash());
            assert(dict_get(d, key_y()) == Some(BValue::Bytes(key_q())));
            assert(key_q() != key_r() && key_q() != key_e());
        },
        KrpcMessageType::Response { response } => {
            assert(key_t() != key_y() && key_t() != key_r() && key_y() != key_r());
            assert(key_values() != key_nodes());
            assert(key_r() != key_q());
            assert(dict_get(d, key_y()) == Some(BValue::Bytes(key_r())));
            let rd = d[2].1->Dict_0;
            match response.values {
                Some(v) => {
                    let l = v@.map_values(|p: CompactPeerInfo| BValue::Bytes(p.0@));
                    assert(all_bytes(l));
                    assert(l.map_values(|x: BValue| x->Bytes_0) =~= v@.map_values(
                        |p: CompactPeerInfo| p.0@,
                    ));
                },
                None => {},
            }
        },
        KrpcMessageType::Error { error } => {
            vstd::utf8::encode_utf8_valid_utf8(error.1@);
            vstd::utf8::encode_utf8_decode_utf8(error.1@);
            assert(key_t() != key_y() && key_t() != key_e() && key_y() != key_e());
            assert(key_e() != key_q() && key_e() != key_r());
            assert(dict_get(d, key_y()) == Some(BValue::Bytes(key_e())));
        },
    }
}

} // verus!
