//! The decisions of a DHT lookup for a torrent's peers: which node to ask
//! next, which answers to read, when to give up on a request and when the
//! lookup is over. The caller sends and receives the datagrams and keeps
//! the time.

use std::borrow::Cow;
use std::collections::VecDeque;
use vstd::prelude::*;

use super::messages::{
    cow_u8, krpc_bvalue, krpc_model, lemma_krpc_roundtrip, parse_krpc, DhtError,
    GetPeersQueryMessage, KrpcMessage, KrpcMessageType, KrpcModel,
};
use crate::bencode::laws::{lemma_decode_encode, wf_value};
use crate::bencode::de::checked_from_bytes;
use crate::bencode::grammar::{spec_value, Parsed};
use crate::bencode::ser::{spec_encode, to_bytes};
use crate::protocol::bytes::{be_u16_at, be_u32_at, read_be_u16, read_be_u32};
use crate::state::PeerAddr;

verus! {

/// After how many milliseconds an unanswered request is given up.
pub const INFLIGHT_REQUEST_TIMEOUT_MS: u64 = 1000;

/// What to do next.
#[derive(Debug, Clone, Copy, PartialEq, Eq)]
pub enum DhtAction {
    /// Send the `get_peers` query to this node.
    Query(PeerAddr),
    /// Wait for answers or for the next tick.
    Wait,
    /// Stop: no node is left to ask and no answer is awaited.
    Stop,
}

/// A lookup in progress.
#[derive(Debug)]
pub struct DhtRequester {
    serialized_get_peers_message: Vec<u8>,
    node_queue: VecDeque<PeerAddr>,
    processed_nodes: Vec<PeerAddr>,
    /// The IP addresses of the peers handed out so far.
    seen_peers: Vec<u32>,
    /// The requests awaiting an answer: when each was sent, and to whom.
    inflight_requests: VecDeque<(u64, PeerAddr)>,
}

/// The requests that are not to `from`, in their order.
pub open spec fn without_node(reqs: Seq<(u64, PeerAddr)>, from: PeerAddr) -> Seq<(u64, PeerAddr)>
    decreases reqs.len(),
{
    if reqs.len() == 0 {
        Seq::empty()
    } else {
        let rest = without_node(reqs.drop_last(), from);
        if reqs.last().1 != from {
            rest.push(reqs.last())
        } else {
            rest
        }
    }
}

/// The address in a compact peer info: four bytes of address and two of
/// port, big-endian.
pub open spec fn compact_addr(b: Seq<u8>) -> PeerAddr {
    PeerAddr { ip: be_u32_at(b, 0), port: be_u16_at(b, 4) }
}

/// What a datagram reads as, as a message, where it is one.
pub open spec fn datagram_model(data: Seq<u8>) -> Option<KrpcModel> {
    match spec_value(data, 0) {
        Parsed::Done(v, q) => if q == data.len() {
            parse_krpc(v)
        } else {
            None
        },
        _ => None,
    }
}

/// The bytes of a message read back as that message, where its bencode is
/// well formed and an answer carries both its peers and its nodes.
pub proof fn lemma_datagram_roundtrip(m: KrpcMessage)
    requires
        wf_value(krpc_bvalue(m)),
        m.message_type matches KrpcMessageType::Response { response } ==> response.values is Some
            && response.nodes is Some,
    ensures
        datagram_model(spec_encode(krpc_bvalue(m))) == Some(krpc_model(m)),
{
    lemma_decode_encode(krpc_bvalue(m));
    lemma_krpc_roundtrip(m);
}

/// The addresses of the compact node infos in `nodes`, first to last: each
/// takes twenty bytes of node id, then a compact address.
pub open spec fn node_addrs(nodes: Seq<u8>) -> Seq<PeerAddr>
    decreases nodes.len(),
{
    if nodes.len() < 26 {
        Seq::empty()
    } else {
        seq![compact_addr(nodes.subrange(20, 26))] + node_addrs(nodes.skip(26))
    }
}

/// A compact address is four bytes of IPv4 address, most significant
/// first, then two bytes of port, most significant first.
pub proof fn lemma_compact_addr(b: Seq<u8>)
    requires
        b.len() >= 6,
    ensures
        compact_addr(b).ip as int == b[0] * 0x100_0000 + b[1] * 0x1_0000 + b[2] * 0x100 + b[3],
        compact_addr(b).port as int == b[4] * 0x100 + b[5],
{
}

/// The compact node infos of an answer are read one after another, each
/// of twenty-six bytes: node `i`'s address is bytes 20 to 26 of the `i`th
/// twenty-six; bytes past the last whole info are not read.
pub proof fn lemma_node_addrs(nodes: Seq<u8>)
    ensures
        node_addrs(nodes).len() == nodes.len() / 26,
        forall|i: int|
            0 <= i < nodes.len() / 26 ==> #[trigger] node_addrs(nodes)[i] == compact_addr(
                nodes.subrange(26 * i + 20, 26 * i + 26),
            ),
    decreases nodes.len(),
{
    if nodes.len() >= 26 {
        let rest = nodes.skip(26);
        lemma_node_addrs(rest);
        assert(rest.len() / 26 == nodes.len() / 26 - 1);
        assert forall|i: int| 0 <= i < nodes.len() / 26 implies #[trigger] node_addrs(nodes)[i]
            == compact_addr(nodes.subrange(26 * i + 20, 26 * i + 26)) by {
            if i > 0 {
                assert(node_addrs(nodes)[i] == node_addrs(rest)[i - 1]);
                assert(rest.subrange(26 * (i - 1) + 20, 26 * (i - 1) + 26) =~= nodes.subrange(
                    26 * i + 20,
                    26 * i + 26,
                ));
            }
        }
    }
}

/// Reading a datagram runs past the end of what it holds: its answer has
/// compact nodes whose length is not a whole number of node infos, or a
/// compact peer info shorter than six bytes.
pub open spec fn datagram_overruns(data: Seq<u8>) -> bool {
    match datagram_model(data) {
        Some(KrpcModel::Response { values, nodes, .. }) => {
            ||| nodes matches Some(n) && n.len() % 26 != 0
            ||| values matches Some(vs) && exists|i: int| 0 <= i < vs.len() && #[trigger] vs[i].len() < 6
        },
        _ => false,
    }
}

/// The node queue once the nodes `found` are offered to it, in order: each
/// joins at the end unless it was asked already or waits in the queue.
pub open spec fn enqueue_nodes(processed: Seq<PeerAddr>, queue: Seq<PeerAddr>, found: Seq<PeerAddr>) -> Seq<
    PeerAddr,
>
    decreases found.len(),
{
    if found.len() == 0 {
        queue
    } else {
        let a = found[0];
        let queue1 = if processed.contains(a) || queue.contains(a) {
            queue
        } else {
            queue.push(a)
        };
        enqueue_nodes(processed, queue1, found.drop_first())
    }
}

/// No node waits twice in `queue`, and none of them was asked already.
pub open spec fn queue_fresh(processed: Seq<PeerAddr>, queue: Seq<PeerAddr>) -> bool {
    &&& forall|i: int, j: int| 0 <= i < j < queue.len() ==> queue[i] != queue[j]
    &&& forall|i: int| 0 <= i < queue.len() ==> !processed.contains(#[trigger] queue[i])
}

/// Offering nodes to a queue keeps what waits in it, in front, and keeps
/// every node from waiting twice or waiting once it was asked.
pub proof fn lemma_enqueue_nodes(processed: Seq<PeerAddr>, queue: Seq<PeerAddr>, found: Seq<PeerAddr>)
    requires
        queue_fresh(processed, queue),
    ensures
        queue_fresh(processed, enqueue_nodes(processed, queue, found)),
        enqueue_nodes(processed, queue, found).take(queue.len() as int) == queue,
        queue.len() <= enqueue_nodes(processed, queue, found).len(),
    decreases found.len(),
{
    if found.len() > 0 {
        let a = found[0];
        if processed.contains(a) || queue.contains(a) {
            lemma_enqueue_nodes(processed, queue, found.drop_first());
        } else {
            let q1 = queue.push(a);
            assert forall|i: int, j: int| 0 <= i < j < q1.len() implies q1[i] != q1[j] by {
                if j == queue.len() {
                    assert(queue[i] == q1[i]);
                }
            }
            lemma_enqueue_nodes(processed, q1, found.drop_first());
            let r = enqueue_nodes(processed, q1, found.drop_first());
            assert(r.take(queue.len() as int) =~= r.take(q1.len() as int).take(queue.len() as int));
            assert(q1.take(queue.len() as int) =~= queue);
        }
    } else {
        assert(queue.take(queue.len() as int) =~= queue);
    }
}

/// Asking the first node of a fresh queue asks a node not asked before,
/// and leaves the rest of the queue fresh: no node is asked twice.
pub proof fn lemma_ask_next_keeps_fresh(processed: Seq<PeerAddr>, queue: Seq<PeerAddr>)
    requires
        queue_fresh(processed, queue),
        queue.len() > 0,
    ensures
        !processed.contains(queue[0]),
        queue_fresh(processed.push(queue[0]), queue.drop_first()),
{
    let p1 = processed.push(queue[0]);
    let q1 = queue.drop_first();
    assert forall|i: int| 0 <= i < q1.len() implies !p1.contains(#[trigger] q1[i]) by {
        assert(q1[i] == queue[i + 1]);
        assert(queue[0] != queue[i + 1]);
        if p1.contains(q1[i]) {
            let k = choose|k: int| 0 <= k < p1.len() && p1[k] == q1[i];
            if k < processed.len() {
                assert(processed[k] == q1[i]);
            }
        }
    }
    assert forall|i: int, j: int| 0 <= i < j < q1.len() implies q1[i] != q1[j] by {
        assert(q1[i] == queue[i + 1] && q1[j] == queue[j + 1]);
    }
}

/// The IP addresses handed out, and the peers handed out, once the peers
/// `found` are read in order after the addresses `seen`: a peer goes out
/// where its IP address did not go out before.
pub open spec fn fresh_peers(seen: Seq<u32>, found: Seq<PeerAddr>) -> (Seq<u32>, Seq<PeerAddr>)
    decreases found.len(),
{
    if found.len() == 0 {
        (seen, Seq::empty())
    } else {
        let a = found[0];
        if seen.contains(a.ip) {
            fresh_peers(seen, found.drop_first())
        } else {
            let rest = fresh_peers(seen.push(a.ip), found.drop_first());
            (rest.0, seq![a] + rest.1)
        }
    }
}

/// Each peer handed out has an IP address that was not seen before and that
/// no other peer handed out with it has, and the addresses seen afterwards
/// are those seen before and then theirs: no IP address goes out twice.
pub proof fn lemma_fresh_peers(seen: Seq<u32>, found: Seq<PeerAddr>)
    ensures
        ({
            let (seen1, out) = fresh_peers(seen, found);
            &&& seen1 == seen + out.map_values(|p: PeerAddr| p.ip)
            &&& forall|i: int| 0 <= i < out.len() ==> !seen.contains(#[trigger] out[i].ip)
            &&& forall|i: int, j: int| 0 <= i < j < out.len() ==> out[i].ip != out[j].ip
        }),
    decreases found.len(),
{
    if found.len() == 0 {
        assert(seen + Seq::<PeerAddr>::empty().map_values(|p: PeerAddr| p.ip) =~= seen);
    } else {
        let a = found[0];
        if seen.contains(a.ip) {
            lemma_fresh_peers(seen, found.drop_first());
        } else {
            let s1 = seen.push(a.ip);
            lemma_fresh_peers(s1, found.drop_first());
            let rest = fresh_peers(s1, found.drop_first());
            let out = seq![a] + rest.1;
            assert(out.map_values(|p: PeerAddr| p.ip) =~= seq![a.ip] + rest.1.map_values(
                |p: PeerAddr| p.ip,
            ));
            assert(seen + out.map_values(|p: PeerAddr| p.ip) =~= s1 + rest.1.map_values(
                |p: PeerAddr| p.ip,
            ));
            assert forall|i: int| 0 <= i < out.len() implies !seen.contains(#[trigger] out[i].ip) by {
                if i > 0 {
                    assert(out[i] == rest.1[i - 1]);
                    assert(!s1.contains(rest.1[i - 1].ip));
                    if seen.contains(out[i].ip) {
                        let k = choose|k: int| 0 <= k < seen.len() && seen[k] == out[i].ip;
                        assert(s1[k] == out[i].ip);
                    }
                }
            }
            assert forall|i: int, j: int| 0 <= i < j < out.len() implies out[i].ip != out[j].ip by {
                assert(out[j] == rest.1[j - 1]);
                assert(!s1.contains(rest.1[j - 1].ip));
                if i == 0 {
                    assert(s1[seen.len() as int] == a.ip);
                } else {
                    assert(out[i] == rest.1[i - 1]);
                }
            }
        }
    }
}

/// How long a request sent at `sent` has waited at `now`.
pub open spec fn waited(now: u64, sent: u64) -> int {
    if now >= sent {
        now - sent
    } else {
        0
    }
}

/// The requests that have not waited longer than the timeout at `now`, in
/// their order.
pub open spec fn keep_recent(reqs: Seq<(u64, PeerAddr)>, now: u64) -> Seq<(u64, PeerAddr)>
    decreases reqs.len(),
{
    if reqs.len() == 0 {
        Seq::empty()
    } else {
        let rest = keep_recent(reqs.drop_last(), now);
        if waited(now, reqs.last().0) <= INFLIGHT_REQUEST_TIMEOUT_MS {
            rest.push(reqs.last())
        } else {
            rest
        }
    }
}

/// The requests still awaited at `now`: where the oldest has waited longer
/// than the timeout, all that have are given up.
pub open spec fn live_requests(reqs: Seq<(u64, PeerAddr)>, now: u64) -> Seq<(u64, PeerAddr)> {
    if reqs.len() > 0 && waited(now, reqs[0].0) > INFLIGHT_REQUEST_TIMEOUT_MS {
        keep_recent(reqs, now)
    } else {
        reqs
    }
}

/// The peers that an answer names, in order, and the nodes it names.
pub open spec fn answer_parts(model: Option<KrpcModel>) -> (Seq<PeerAddr>, Seq<PeerAddr>) {
    match model {
        Some(KrpcModel::Response { values, nodes, .. }) => (
            match values {
                Some(vs) => vs.map_values(|b: Seq<u8>| compact_addr(b)),
                None => Seq::empty(),
            },
            match nodes {
                Some(n) => node_addrs(n),
                None => Seq::empty(),
            },
        ),
        _ => (Seq::empty(), Seq::empty()),
    }
}

/// Reads the compact address at the start of `b`.
fn read_compact_addr(b: &[u8]) -> (r: PeerAddr)
    requires
        b@.len() >= 6,
    ensures
        r == compact_addr(b@),
{
    PeerAddr { ip: read_be_u32(b, 0), port: read_be_u16(b, 4) }
}

/// Whether `a` is in the queue.
fn queue_has(q: &VecDeque<PeerAddr>, a: PeerAddr) -> (r: bool)
    ensures
        r == q@.contains(a),
{
    let mut i: usize = 0;
    while i < q.len()
        invariant
            i <= q@.len(),
            forall|j: int| 0 <= j < i ==> q@[j] != a,
        decreases q@.len() - i,
    {
        if q[i] == a {
            assert(q@[i as int] == a);
            return true;
        }
        i = i + 1;
    }
    false
}

/// Whether `a` is in the list.
fn list_has(v: &Vec<PeerAddr>, a: PeerAddr) -> (r: bool)
    ensures
        r == v@.contains(a),
{
    let mut i: usize = 0;
    while i < v.len()
        invariant
            i <= v@.len(),
            forall|j: int| 0 <= j < i ==> v@[j] != a,
        decreases v@.len() - i,
    {
        if v[i] == a {
            assert(v@[i as int] == a);
            return true;
        }
        i = i + 1;
    }
    false
}

/// Whether `ip` is in the list.
fn ip_in(v: &Vec<u32>, ip: u32) -> (r: bool)
    ensures
        r == v@.contains(ip),
{
    let mut i: usize = 0;
    while i < v.len()
        invariant
            i <= v@.len(),
            forall|j: int| 0 <= j < i ==> v@[j] != ip,
        decreases v@.len() - i,
    {
        if v[i] == ip {
            assert(v@[i as int] == ip);
            return true;
        }
        i = i + 1;
    }
    false
}

impl DhtRequester {
    pub closed spec fn message_view(&self) -> Seq<u8> {
        self.serialized_get_peers_message@
    }

    pub closed spec fn queue_view(&self) -> Seq<PeerAddr> {
        self.node_queue@
    }

    pub closed spec fn processed_view(&self) -> Seq<PeerAddr> {
        self.processed_nodes@
    }

    /// The IP addresses of the peers handed out so far.
    pub closed spec fn seen_view(&self) -> Seq<u32> {
        self.seen_peers@
    }

    pub closed spec fn inflight_view(&self) -> Seq<(u64, PeerAddr)> {
        self.inflight_requests@
    }

    /// A lookup that asks the bootstrap nodes first, with the `get_peers`
    /// query for `info_hash` from the node `id`. An error where no
    /// bootstrap node is given.
    pub fn new(bootstrap_node_addrs: Vec<PeerAddr>, id: [u8; 20], info_hash: [u8; 20]) -> (r: Result<
        Self,
        DhtError,
    >)
        ensures
            bootstrap_node_addrs@.len() == 0 ==> r == Err::<Self, DhtError>(
                DhtError::NoBootstrapNodes,
            ),
            bootstrap_node_addrs@.len() > 0 ==> (r matches Ok(d) && d.queue_view()
                == bootstrap_node_addrs@ && d.processed_view().len() == 0 && d.seen_view().len()
                == 0 && d.inflight_view().len() == 0 && exists|m: KrpcMessage|
                #![trigger krpc_bvalue(m)]
                d.message_view() == spec_encode(krpc_bvalue(m)) && m.transaction_id@ == "10"@ && (
                m.message_type matches KrpcMessageType::Query { name, query } && name@
                    == "get_peers"@ && query.id == id && query.info_hash == info_hash)),
    {
        if bootstrap_node_addrs.len() == 0 {
            return Err(DhtError::NoBootstrapNodes);
        }
        let mut node_queue: VecDeque<PeerAddr> = VecDeque::new();
        let mut i: usize = 0;
        while i < bootstrap_node_addrs.len()
            invariant
                i <= bootstrap_node_addrs@.len(),
                node_queue@ == bootstrap_node_addrs@.take(i as int),
            decreases bootstrap_node_addrs@.len() - i,
        {
            node_queue.push_back(bootstrap_node_addrs[i]);
            assert(bootstrap_node_addrs@.take(i + 1) =~= bootstrap_node_addrs@.take(i as int).push(
                bootstrap_node_addrs@[i as int],
            ));
            i = i + 1;
        }
        assert(bootstrap_node_addrs@.take(bootstrap_node_addrs@.len() as int) =~= bootstrap_node_addrs@);
        let message = KrpcMessage {
            transaction_id: Cow::Borrowed("10"),
            message_type: KrpcMessageType::Query {
                name: Cow::Borrowed("get_peers"),
                query: GetPeersQueryMessage { id, info_hash },
            },
        };
        let value = message.to_value();
        let serialized_message = to_bytes(&value);
        Ok(
            DhtRequester {
                serialized_get_peers_message: serialized_message,
                node_queue,
                processed_nodes: Vec::new(),
                seen_peers: Vec::new(),
                inflight_requests: VecDeque::new(),
            },
        )
    }

    /// The `get_peers` query, as bytes to send.
    pub fn serialized_message(&self) -> (r: &[u8])
        ensures
            r@ == self.message_view(),
    {
        self.serialized_get_peers_message.as_slice()
    }

    /// Whether reading the datagram would run past the end of what it
    /// holds.
    pub fn datagram_overruns(data: &[u8]) -> (r: bool)
        ensures
            r == datagram_overruns(data@),
    {
        let message = match checked_from_bytes(data) {
            Some(Ok(v)) => match KrpcMessage::from_value(&v) {
                Ok(m) => m,
                Err(_) => return false,
            },
            _ => return false,
        };
        proof {
            assert(datagram_model(data@) == Some(krpc_model(message)));
        }
        let response = match &message.message_type {
            KrpcMessageType::Response { response } => response,
            _ => return false,
        };
        if let Some(n) = &response.nodes {
            if cow_u8(n).len() % 26 != 0 {
                return true;
            }
        }
        if let Some(values) = &response.values {
            let list: &[super::messages::CompactPeerInfo] = match values {
                Cow::Borrowed(b) => b,
                Cow::Owned(v) => v.as_slice(),
            };
            let ghost vs = list@.map_values(|p: super::messages::CompactPeerInfo| p.0@);
            assert(datagram_model(data@) matches Some(KrpcModel::Response { values: Some(x), .. })
                && x == vs);
            let mut k: usize = 0;
            while k < list.len()
                invariant
                    k <= list@.len(),
                    vs == list@.map_values(|p: super::messages::CompactPeerInfo| p.0@),
                    datagram_model(data@) matches Some(KrpcModel::Response { values: Some(x), .. })
                        && x == vs,
                    forall|j: int| 0 <= j < k ==> #[trigger] vs[j].len() >= 6,
                decreases list@.len() - k,
            {
                let b: &[u8] = match &list[k].0 {
                    Cow::Borrowed(b) => b,
                    Cow::Owned(v) => v.as_slice(),
                };
                if b.len() < 6 {
                    assert(vs[k as int].len() < 6);
                    return true;
                }
                k = k + 1;
            }
        }
        false
    }

    /// Reads a datagram from node `from`: the request to it is no longer
    /// awaited. Where it is an answer, each node that it names joins the
    /// queue unless it was asked already or waits there, and the peers that
    /// it names are returned, in order, but for those whose IP address was
    /// handed out before. A datagram that is not a message, or not an
    /// answer, changes nothing more and names no peer.
    pub fn on_message(&mut self, from: PeerAddr, data: &[u8]) -> (r: Vec<PeerAddr>)
        requires
            !datagram_overruns(data@),
        ensures
            final(self).inflight_view() == without_node(old(self).inflight_view(), from),
            final(self).processed_view() == old(self).processed_view(),
            final(self).message_view() == old(self).message_view(),
            ({
                let (found_peers, found_nodes) = answer_parts(datagram_model(data@));
                let fresh = fresh_peers(old(self).seen_view(), found_peers);
                &&& final(self).queue_view() == enqueue_nodes(
                    old(self).processed_view(),
                    old(self).queue_view(),
                    found_nodes,
                )
                &&& final(self).seen_view() == fresh.0
                &&& r@ == fresh.1
            }),
    {
        let ghost old_inflight = self.inflight_requests@;
        let n = self.inflight_requests.len();
        let mut kept: VecDeque<(u64, PeerAddr)> = VecDeque::new();
        let mut i: usize = 0;
        while i < n
            invariant
                n == old_inflight.len(),
                i <= n,
                old_inflight == old(self).inflight_view(),
                self.inflight_requests@ == old_inflight.skip(i as int),
                kept@ == without_node(old_inflight.take(i as int), from),
                self.node_queue == old(self).node_queue,
                self.processed_nodes == old(self).processed_nodes,
                self.seen_peers == old(self).seen_peers,
                self.serialized_get_peers_message == old(self).serialized_get_peers_message,
            decreases n - i,
        {
            let req = self.inflight_requests.pop_front().unwrap();
            proof {
                assert(old_inflight[i as int] == req);
                assert(old_inflight.skip(i + 1) =~= old_inflight.skip(i as int).drop_first());
                assert(old_inflight.take(i + 1).drop_last() =~= old_inflight.take(i as int));
            }
            if req.1 != from {
                kept.push_back(req);
            }
            i = i + 1;
        }
        assert(old_inflight.take(n as int) =~= old_inflight);
        self.inflight_requests = kept;
        let mut peers: Vec<PeerAddr> = Vec::new();
        let message = match checked_from_bytes(data) {
            Some(Ok(v)) => match KrpcMessage::from_value(&v) {
                Ok(m) => m,
                Err(_) => return peers,
            },
            _ => return peers,
        };
        proof {
            assert(datagram_model(data@) == Some(krpc_model(message)));
        }
        let response = match message.message_type {
            KrpcMessageType::Response { response } => response,
            _ => return peers,
        };
        let ghost parts = answer_parts(datagram_model(data@));
        if let Some(nodes) = &response.nodes {
            let bytes = cow_u8(nodes);
            let ghost all = bytes@;
            let ghost processed = self.processed_nodes@;
            assert(parts.1 == node_addrs(all));
            assert(all.skip(0) =~= all);
            let mut pos: usize = 0;
            while bytes.len() - pos >= 26
                invariant
                    pos <= bytes@.len(),
                    all == bytes@,
                    processed == self.processed_nodes@,
                    processed == old(self).processed_view(),
                    enqueue_nodes(processed, old(self).queue_view(), node_addrs(all))
                        == enqueue_nodes(processed, self.node_queue@, node_addrs(all.skip(pos as int))),
                    self.inflight_view() == without_node(old(self).inflight_view(), from),
                    self.message_view() == old(self).message_view(),
                    self.seen_peers == old(self).seen_peers,
                decreases bytes@.len() - pos,
            {
                let addr = read_compact_addr(&bytes[pos + 20..pos + 26]);
                let ghost rest = all.skip(pos as int);
                let ghost tail = node_addrs(rest.skip(26));
                proof {
                    assert(rest.subrange(20, 26) =~= bytes@.subrange(pos + 20, pos + 26));
                    assert(rest.skip(26) =~= all.skip(pos + 26));
                    assert(node_addrs(rest) == seq![addr] + tail);
                    assert((seq![addr] + tail).drop_first() =~= tail);
                    assert((seq![addr] + tail)[0] == addr);
                }
                let known = list_has(&self.processed_nodes, addr) || queue_has(&self.node_queue, addr);
                if !known {
                    self.node_queue.push_back(addr);
                }
                pos = pos + 26;
            }
            proof {
                assert(node_addrs(all.skip(pos as int)) == Seq::<PeerAddr>::empty());
            }
        } else {
            assert(parts.1 == Seq::<PeerAddr>::empty());
        }
        if let Some(values) = &response.values {
            let list: &[super::messages::CompactPeerInfo] = match values {
                Cow::Borrowed(b) => b,
                Cow::Owned(v) => v.as_slice(),
            };
            let ghost vs = list@.map_values(|p: super::messages::CompactPeerInfo| p.0@);
            let ghost found = vs.map_values(|b: Seq<u8>| compact_addr(b));
            let ghost seen0 = self.seen_peers@;
            assert(parts.0 == found);
            assert(found.skip(0) =~= found);
            let mut k: usize = 0;
            while k < list.len()
                invariant
                    k <= list@.len(),
                    vs == list@.map_values(|p: super::messages::CompactPeerInfo| p.0@),
                    found == vs.map_values(|b: Seq<u8>| compact_addr(b)),
                    forall|j: int| 0 <= j < vs.len() ==> #[trigger] vs[j].len() >= 6,
                    seen0 == old(self).seen_view(),
                    fresh_peers(seen0, found) == (
                        fresh_peers(self.seen_peers@, found.skip(k as int)).0,
                        peers@ + fresh_peers(self.seen_peers@, found.skip(k as int)).1,
                    ),
                    self.inflight_view() == without_node(old(self).inflight_view(), from),
                    self.message_view() == old(self).message_view(),
                    self.processed_view() == old(self).processed_view(),
                    self.node_queue@ == enqueue_nodes(
                        old(self).processed_view(),
                        old(self).queue_view(),
                        parts.1,
                    ),
                decreases list@.len() - k,
            {
                let b: &[u8] = match &list[k].0 {
                    Cow::Borrowed(b) => b,
                    Cow::Owned(v) => v.as_slice(),
                };
                assert(b@ == vs[k as int]);
                let addr = read_compact_addr(b);
                let ghost rest = found.skip(k as int);
                proof {
                    assert(rest[0] == addr);
                    assert(rest.drop_first() =~= found.skip(k + 1));
                }
                if !ip_in(&self.seen_peers, addr.ip) {
                    let ghost before = peers@;
                    let ghost next = fresh_peers(self.seen_peers@.push(addr.ip), found.skip(k + 1));
                    self.seen_peers.push(addr.ip);
                    peers.push(addr);
                    proof {
                        assert(before + (seq![addr] + next.1) =~= peers@ + next.1);
                    }
                }
                k = k + 1;
            }
            proof {
                assert(found.skip(list@.len() as int) =~= Seq::<PeerAddr>::empty());
                assert(peers@ + Seq::<PeerAddr>::empty() =~= peers@);
            }
        } else {
            assert(parts.0 == Seq::<PeerAddr>::empty());
            assert(peers@ =~= Seq::<PeerAddr>::empty());
        }
        peers
    }

    /// Takes the next node to ask: it counts as processed, and a request to
    /// it, sent at `now`, is awaited. `None` where no node is left.
    pub fn query_next_node(&mut self, now: u64) -> (r: Option<PeerAddr>)
        ensures
            final(self).message_view() == old(self).message_view(),
            final(self).seen_view() == old(self).seen_view(),
            old(self).queue_view().len() == 0 ==> r is None && final(self).queue_view()
                == old(self).queue_view() && final(self).processed_view()
                == old(self).processed_view() && final(self).inflight_view()
                == old(self).inflight_view(),
            old(self).queue_view().len() > 0 ==> ({
                let node = old(self).queue_view()[0];
                &&& r == Some(node)
                &&& final(self).queue_view() == old(self).queue_view().drop_first()
                &&& final(self).processed_view() == old(self).processed_view().push(node)
                &&& final(self).inflight_view() == old(self).inflight_view().push((now, node))
            }),
    {
        let next_node = match self.node_queue.pop_front() {
            Some(n) => n,
            None => return None,
        };
        self.processed_nodes.push(next_node);
        self.inflight_requests.push_back((now, next_node));
        Some(next_node)
    }

    /// Gives up, at `now`, the requests that waited longer than the timeout,
    /// where the oldest did.
    fn drop_expired(&mut self, now: u64)
        ensures
            final(self).inflight_view() == live_requests(old(self).inflight_view(), now),
            final(self).queue_view() == old(self).queue_view(),
            final(self).processed_view() == old(self).processed_view(),
            final(self).seen_view() == old(self).seen_view(),
            final(self).message_view() == old(self).message_view(),
    {
        if self.inflight_requests.len() == 0 {
            return;
        }
        let sent_at = self.inflight_requests[0].0;
        let waited_ms = if now >= sent_at {
            now - sent_at
        } else {
            0
        };
        if waited_ms <= INFLIGHT_REQUEST_TIMEOUT_MS {
            return;
        }
        let ghost old_inflight = self.inflight_requests@;
        let n = self.inflight_requests.len();
        let mut kept: VecDeque<(u64, PeerAddr)> = VecDeque::new();
        let mut i: usize = 0;
        while i < n
            invariant
                n == old_inflight.len(),
                i <= n,
                old_inflight == old(self).inflight_view(),
                self.inflight_requests@ == old_inflight.skip(i as int),
                kept@ == keep_recent(old_inflight.take(i as int), now),
                self.node_queue == old(self).node_queue,
                self.processed_nodes == old(self).processed_nodes,
                self.seen_peers == old(self).seen_peers,
                self.serialized_get_peers_message == old(self).serialized_get_peers_message,
            decreases n - i,
        {
            let req = self.inflight_requests.pop_front().unwrap();
            proof {
                assert(old_inflight[i as int] == req);
                assert(old_inflight.skip(i + 1) =~= old_inflight.skip(i as int).drop_first());
                assert(old_inflight.take(i + 1).drop_last() =~= old_inflight.take(i as int));
            }
            let w = if now >= req.0 {
                now - req.0
            } else {
                0
            };
            if w <= INFLIGHT_REQUEST_TIMEOUT_MS {
                kept.push_back(req);
            }
            i = i + 1;
        }
        assert(old_inflight.take(n as int) =~= old_inflight);
        self.inflight_requests = kept;
    }

    /// The next step at time `now`: where the oldest request has waited
    /// longer than the timeout, the requests that have are given up; then
    /// the next node in the queue is asked, and where none is left the
    /// lookup stops once no request is awaited.
    pub fn next_action(&mut self, now: u64) -> (r: DhtAction)
        ensures
            ({
                let live = live_requests(old(self).inflight_view(), now);
                let queue = old(self).queue_view();
                if queue.len() > 0 {
                    &&& r == DhtAction::Query(queue[0])
                    &&& final(self).queue_view() == queue.drop_first()
                    &&& final(self).processed_view() == old(self).processed_view().push(queue[0])
                    &&& final(self).inflight_view() == live.push((now, queue[0]))
                } else {
                    &&& r == (if live.len() == 0 {
                        DhtAction::Stop
                    } else {
                        DhtAction::Wait
                    })
                    &&& final(self).queue_view() == queue
                    &&& final(self).processed_view() == old(self).processed_view()
                    &&& final(self).inflight_view() == live
                }
            }),
            final(self).seen_view() == old(self).seen_view(),
            final(self).message_view() == old(self).message_view(),
    {
        self.drop_expired(now);
        match self.query_next_node(now) {
            Some(node) => DhtAction::Query(node),
            None => {
                if self.inflight_requests.len() == 0 {
                    DhtAction::Stop
                } else {
                    DhtAction::Wait
                }
            },
        }
    }
}

} // verus!
