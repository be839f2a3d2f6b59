//! Announcing to a tracker: the query string of a request, and the peers of
//! a compact response.

use vstd::prelude::*;
use vstd::string::StringSliceAdditionalSpecFns;

use crate::bencode::access::{
    dict_get, get, is_absent, opt_text, opt_uint, opt_view, present, text_of, uint_of,
};
use crate::bencode::de::checked_from_bytes;
use crate::bencode::grammar::{
    ascii_chars, lemma_ascii_decode, lemma_nat_digits_ascii, nat_digits, spec_value,
    write_nat_digits, Parsed,
};
use crate::bencode::value::{BValue, BencodeValue};
use crate::protocol::bytes::{be_u16_at, be_u32_at, read_be_u16, read_be_u32};
use crate::protocol::message::extend_from;
use crate::state::PeerAddr;
use crate::utf8::string_from_utf8;

verus! {

/// The port that the client listens on.
pub const PORT: u16 = 6881;

/// The event that a request announces.
#[derive(Debug, Clone, Copy, PartialEq, Eq, Structural)]
pub enum EventType {
    Started,
    Stopped,
    Completed,
}

/// A request to a tracker.
#[derive(Debug)]
pub struct TrackerRequest<'a> {
    /// SHA-1 hash of the info dictionary of the metainfo file.
    pub info_hash: [u8; 20],
    /// The client's peer id.
    pub peer_id: &'a str,
    /// The port that the client listens on.
    pub port: u16,
    /// The bytes uploaded so far.
    pub uploaded: u64,
    /// The bytes downloaded so far.
    pub downloaded: u64,
    /// The bytes still to download.
    pub left: u64,
    /// Whether the client accepts a compact response; always 1.
    pub compact: u8,
    /// The event announced, none for a regular announce.
    pub event: Option<EventType>,
}

/// A tracker's response.
#[derive(Debug)]
pub struct TrackerResponse {
    /// Why the request failed, in words.
    pub failure_reason: Option<String>,
    /// The seconds to wait between regular requests.
    pub interval: Option<u64>,
    /// The peers, six bytes each: an IPv4 address and a port, big-endian.
    pub peers: Option<Vec<u8>>,
}

/// Why a tracker exchange failed.
#[derive(Debug, Clone, Copy, PartialEq, Eq, Structural)]
pub enum TrackerError {
    /// The request could not be serialised.
    Serialization,
    /// The response is not a bencoded tracker response.
    Deserialization,
}

/// The bytes that `form_urlencoded` leaves as they are.
pub open spec fn byte_unchanged(b: u8) -> bool {
    b == 42 || b == 45 || b == 46 || (48 <= b <= 57) || (65 <= b <= 90) || b == 95 || (97 <= b
        <= 122)
}

/// An upper-case hexadecimal digit.
pub open spec fn hex_digit(n: u8) -> u8 {
    if n < 10 {
        (48 + n) as u8
    } else {
        (55 + n) as u8
    }
}

/// One byte, URL-encoded for a form: as it is, `+` for a space, else `%`
/// and two upper-case hexadecimal digits.
pub open spec fn encode_byte(b: u8) -> Seq<u8> {
    if byte_unchanged(b) {
        seq![b]
    } else if b == 32 {
        seq![43u8]
    } else {
        seq![37u8, hex_digit(b / 16), hex_digit(b % 16)]
    }
}

/// Bytes, URL-encoded for a form, byte by byte.
pub open spec fn url_encoded(bytes: Seq<u8>) -> Seq<u8>
    decreases bytes.len(),
{
    if bytes.len() == 0 {
        Seq::empty()
    } else {
        encode_byte(bytes[0]) + url_encoded(bytes.drop_first())
    }
}

/// Calls `form_urlencoded::byte_serialize`, which URL-encodes bytes for a
/// form: the bytes `*-._`, digits and ASCII letters stay, a space becomes
/// `+`, any other byte becomes `%` and two upper-case hexadecimal digits.
#[verifier::external_body]
fn byte_serialize(input: &[u8]) -> (r: Vec<u8>)
    ensures
        r@ == url_encoded(input@),
{
    form_urlencoded::byte_serialize(input).collect::<String>().into_bytes()
}

/// `peer_id=`
pub open spec fn key_peer_id() -> Seq<u8> {
    seq![112u8, 101, 101, 114, 95, 105, 100, 61]
}

/// `&port=`
pub open spec fn key_port() -> Seq<u8> {
    seq![38u8, 112, 111, 114, 116, 61]
}

/// `&uploaded=`
pub open spec fn key_uploaded() -> Seq<u8> {
    seq![38u8, 117, 112, 108, 111, 97, 100, 101, 100, 61]
}

/// `&downloaded=`
pub open spec fn key_downloaded() -> Seq<u8> {
    seq![38u8, 100, 111, 119, 110, 108, 111, 97, 100, 101, 100, 61]
}

/// `&left=`
pub open spec fn key_left() -> Seq<u8> {
    seq![38u8, 108, 101, 102, 116, 61]
}

/// `&compact=`
pub open spec fn key_compact() -> Seq<u8> {
    seq![38u8, 99, 111, 109, 112, 97, 99, 116, 61]
}

/// `&event=`
pub open spec fn key_event() -> Seq<u8> {
    seq![38u8, 101, 118, 101, 110, 116, 61]
}

/// `&info_hash=`
pub open spec fn key_info_hash() -> Seq<u8> {
    seq![38u8, 105, 110, 102, 111, 95, 104, 97, 115, 104, 61]
}

/// The name of an event, in lower case.
pub open spec fn event_name(e: EventType) -> Seq<u8> {
    match e {
        EventType::Started => seq![115u8, 116, 97, 114, 116, 101, 100],
        EventType::Stopped => seq![115u8, 116, 111, 112, 112, 101, 100],
        EventType::Completed => seq![99u8, 111, 109, 112, 108, 101, 116, 101, 100],
    }
}

/// The query string of a request: its fields as `key=value` pairs joined
/// by `&`, in order, the event only where there is one, and the URL-encoded
/// info hash last.
pub open spec fn query_params(r: TrackerRequest) -> Seq<u8> {
    key_peer_id() + url_encoded(r.peer_id.spec_bytes()) + key_port() + nat_digits(r.port as nat)
        + key_uploaded() + nat_digits(r.uploaded as nat) + key_downloaded() + nat_digits(
        r.downloaded as nat,
    ) + key_left() + nat_digits(r.left as nat) + key_compact() + nat_digits(r.compact as nat)
        + match r.event {
        Some(e) => key_event() + event_name(e),
        None => Seq::empty(),
    } + key_info_hash() + url_encoded(r.info_hash@)
}

/// URL-encoded bytes are ASCII.
proof fn lemma_url_encoded_ascii(bytes: Seq<u8>)
    ensures
        forall|i: int| 0 <= i < url_encoded(bytes).len() ==> #[trigger] url_encoded(bytes)[i] < 128,
    decreases bytes.len(),
{
    if bytes.len() > 0 {
        lemma_url_encoded_ascii(bytes.drop_first());
        let e = encode_byte(bytes[0]);
        let rest = url_encoded(bytes.drop_first());
        assert forall|i: int| 0 <= i < url_encoded(bytes).len() implies #[trigger] url_encoded(
            bytes,
        )[i] < 128 by {
            if i < e.len() {
                assert(url_encoded(bytes)[i] == e[i]);
            } else {
                assert(url_encoded(bytes)[i] == rest[i - e.len()]);
            }
        }
    }
}

/// Every byte of a sequence is ASCII.
pub open spec fn all_ascii(s: Seq<u8>) -> bool {
    forall|i: int| 0 <= i < s.len() ==> #[trigger] s[i] < 128
}

proof fn lemma_concat_ascii(a: Seq<u8>, b: Seq<u8>)
    requires
        all_ascii(a),
        all_ascii(b),
    ensures
        all_ascii(a + b),
{
    assert forall|i: int| 0 <= i < (a + b).len() implies #[trigger] (a + b)[i] < 128 by {
        if i < a.len() {
            assert((a + b)[i] == a[i]);
        } else {
            assert((a + b)[i] == b[i - a.len()]);
        }
    }
}

/// The query string of a request is ASCII.
proof fn lemma_query_ascii(r: TrackerRequest)
    ensures
        all_ascii(query_params(r)),
{
    lemma_url_encoded_ascii(r.peer_id.spec_bytes());
    lemma_url_encoded_ascii(r.info_hash@);
    lemma_nat_digits_ascii(r.port as nat);
    lemma_nat_digits_ascii(r.uploaded as nat);
    lemma_nat_digits_ascii(r.downloaded as nat);
    lemma_nat_digits_ascii(r.left as nat);
    lemma_nat_digits_ascii(r.compact as nat);
    let ev = match r.event {
        Some(e) => key_event() + event_name(e),
        None => Seq::<u8>::empty(),
    };
    if let Some(e) = r.event {
        lemma_concat_ascii(key_event(), event_name(e));
    }
    lemma_concat_ascii(key_peer_id(), url_encoded(r.peer_id.spec_bytes()));
    let q = query_params(r);
    let a1 = key_peer_id() + url_encoded(r.peer_id.spec_bytes());
    let a2 = a1 + key_port();
    lemma_concat_ascii(a1, key_port());
    let a3 = a2 + nat_digits(r.port as nat);
    lemma_concat_ascii(a2, nat_digits(r.port as nat));
    let a4 = a3 + key_uploaded();
    lemma_concat_ascii(a3, key_uploaded());
    let a5 = a4 + nat_digits(r.uploaded as nat);
    lemma_concat_ascii(a4, nat_digits(r.uploaded as nat));
    let a6 = a5 + key_downloaded();
    lemma_concat_ascii(a5, key_downloaded());
    let a7 = a6 + nat_digits(r.downloaded as nat);
    lemma_concat_ascii(a6, nat_digits(r.downloaded as nat));
    let a8 = a7 + key_left();
    lemma_concat_ascii(a7, key_left());
    let a9 = a8 + nat_digits(r.left as nat);
    lemma_concat_ascii(a8, nat_digits(r.left as nat));
    let a10 = a9 + key_compact();
    lemma_concat_ascii(a9, key_compact());
    let a11 = a10 + nat_digits(r.compact as nat);
    lemma_concat_ascii(a10, nat_digits(r.compact as nat));
    let a12 = a11 + ev;
    lemma_concat_ascii(a11, ev);
    let a13 = a12 + key_info_hash();
    lemma_concat_ascii(a12, key_info_hash());
    lemma_concat_ascii(a13, url_encoded(r.info_hash@));
    assert(q == a13 + url_encoded(r.info_hash@));
}

/// The peers of a compact peer list, six bytes each.
pub open spec fn compact_peers(b: Seq<u8>) -> Seq<PeerAddr> {
    Seq::new(
        b.len() / 6,
        |i: int| PeerAddr { ip: be_u32_at(b, 6 * i), port: be_u16_at(b, 6 * i + 4) },
    )
}

impl<'a> TrackerRequest<'a> {
    /// A request for the torrent with `info_hash` on the default port, with
    /// the uploaded, downloaded and left byte counts taken from
    /// `download_state` in that order, zero where one is missing.
    pub fn new(
        peer_id: &'a str,
        info_hash: [u8; 20],
        download_state: &[Option<u64>; 3],
        event: Option<EventType>,
    ) -> (r: Self)
        ensures
            r.info_hash == info_hash,
            r.peer_id == peer_id,
            r.port == PORT,
            r.uploaded == (match download_state@[0] {
                Some(v) => v,
                None => 0,
            }),
            r.downloaded == (match download_state@[1] {
                Some(v) => v,
                None => 0,
            }),
            r.left == (match download_state@[2] {
                Some(v) => v,
                None => 0,
            }),
            r.compact == 1,
            r.event == event,
    {
        TrackerRequest {
            info_hash,
            peer_id,
            port: PORT,
            uploaded: match download_state[0] {
                Some(v) => v,
                None => 0,
            },
            downloaded: match download_state[1] {
                Some(v) => v,
                None => 0,
            },
            left: match download_state[2] {
                Some(v) => v,
                None => 0,
            },
            compact: 1,
            event,
        }
    }

    /// The query string of the request.
    pub fn into_query_params(self) -> (r: Result<String, TrackerError>)
        ensures
            r matches Ok(s) && s@ == ascii_chars(query_params(self)),
    {
        let ghost q = query_params(self);
        let mut out: Vec<u8> = Vec::new();
        extend_from(&mut out, [112u8, 101, 101, 114, 95, 105, 100, 61].as_slice());
        let peer_id = byte_serialize(self.peer_id.as_bytes());
        extend_from(&mut out, peer_id.as_slice());
        extend_from(&mut out, [38u8, 112, 111, 114, 116, 61].as_slice());
        write_nat_digits(&mut out, self.port as u64);
        extend_from(&mut out, [38u8, 117, 112, 108, 111, 97, 100, 101, 100, 61].as_slice());
        write_nat_digits(&mut out, self.uploaded);
        extend_from(&mut out, [38u8, 100, 111, 119, 110, 108, 111, 97, 100, 101, 100, 61].as_slice());
        write_nat_digits(&mut out, self.downloaded);
        extend_from(&mut out, [38u8, 108, 101, 102, 116, 61].as_slice());
        write_nat_digits(&mut out, self.left);
        extend_from(&mut out, [38u8, 99, 111, 109, 112, 97, 99, 116, 61].as_slice());
        write_nat_digits(&mut out, self.compact as u64);
        match self.event {
            Some(e) => {
                extend_from(&mut out, [38u8, 101, 118, 101, 110, 116, 61].as_slice());
                match e {
                    EventType::Started => extend_from(
                        &mut out,
                        [115u8, 116, 97, 114, 116, 101, 100].as_slice(),
                    ),
                    EventType::Stopped => extend_from(
                        &mut out,
                        [115u8, 116, 111, 112, 112, 101, 100].as_slice(),
                    ),
                    EventType::Completed => extend_from(
                        &mut out,
                        [99u8, 111, 109, 112, 108, 101, 116, 101, 100].as_slice(),
                    ),
                }
            },
            None => {},
        }
        extend_from(&mut out, [38u8, 105, 110, 102, 111, 95, 104, 97, 115, 104, 61].as_slice());
        let info_hash = byte_serialize(self.info_hash.as_slice());
        extend_from(&mut out, info_hash.as_slice());
        proof {
            assert(out@ =~= q);
            lemma_query_ascii(self);
            lemma_ascii_decode(q);
        }
        match string_from_utf8(out) {
            Ok(s) => Ok(s),
            Err(_) => Err(TrackerError::Serialization),
        }
    }
}

/// `failure reason`
pub open spec fn key_failure_reason() -> Seq<u8> {
    seq![102u8, 97, 105, 108, 117, 114, 101, 32, 114, 101, 97, 115, 111, 110]
}

/// `interval`
pub open spec fn key_interval() -> Seq<u8> {
    seq![105u8, 110, 116, 101, 114, 118, 97, 108]
}

/// `peers`
pub open spec fn key_peers() -> Seq<u8> {
    seq![112u8, 101, 101, 114, 115]
}

/// An optional byte string, as `opt_text` reads texts.
pub open spec fn opt_bytes(v: Option<BValue>) -> Option<Option<Seq<u8>>> {
    match present(v) {
        None => Some(None),
        Some(BValue::Bytes(b)) => Some(Some(b)),
        Some(_) => None,
    }
}

/// What a tracker response holds: the failure reason, the interval and the
/// compact peers, each where present.
pub struct ResponseModel {
    pub failure_reason: Option<Seq<char>>,
    pub interval: Option<int>,
    pub peers: Option<Seq<u8>>,
}

/// A tracker response read from bencode: a dictionary whose optional
/// `failure reason` is a text, `interval` an integer that fits in a `u64`
/// and `peers` a byte string; other keys are ignored.
pub open spec fn parse_response(v: BValue) -> Option<ResponseModel> {
    match v {
        BValue::Dict(d) => match (
            opt_text(dict_get(d, key_failure_reason())),
            opt_uint(dict_get(d, key_interval()), u64::MAX as int),
            opt_bytes(dict_get(d, key_peers())),
        ) {
            (Some(failure_reason), Some(interval), Some(peers)) => Some(
                ResponseModel { failure_reason, interval, peers },
            ),
            _ => None,
        },
        _ => None,
    }
}

/// What a response value holds.
pub open spec fn response_model(t: TrackerResponse) -> ResponseModel {
    ResponseModel {
        failure_reason: match t.failure_reason {
            Some(s) => Some(s@),
            None => None,
        },
        interval: match t.interval {
            Some(i) => Some(i as int),
            None => None,
        },
        peers: match t.peers {
            Some(p) => Some(p@),
            None => None,
        },
    }
}

/// An optional byte string, copied.
fn opt_bytes_of(v: Option<&BencodeValue>) -> (r: Option<Option<Vec<u8>>>)
    ensures
        match opt_bytes(opt_view(v)) {
            None => r is None,
            Some(None) => r == Some(None::<Vec<u8>>),
            Some(Some(b)) => r matches Some(Some(x)) && x@ == b,
        },
{
    if is_absent(v) {
        return Some(None);
    }
    match v {
        Some(BencodeValue::Bytes(b)) => Some(Some(vstd::slice::slice_to_vec(b.as_slice()))),
        _ => None,
    }
}

impl TrackerResponse {
    /// Reads a tracker response from bencode, as `parse_response` says; an
    /// error where the value is not one.
    pub fn from_value(v: &BencodeValue) -> (r: Result<TrackerResponse, TrackerError>)
        ensures
            match parse_response(v@) {
                Some(model) => r matches Ok(t) && response_model(t) == model,
                None => r == Err::<TrackerResponse, TrackerError>(TrackerError::Deserialization),
            },
    {
        let d = match v {
            BencodeValue::Dict(d) => d,
            _ => return Err(TrackerError::Deserialization),
        };
        let k_failure = [102u8, 97, 105, 108, 117, 114, 101, 32, 114, 101, 97, 115, 111, 110];
        let k_interval = [105u8, 110, 116, 101, 114, 118, 97, 108];
        let k_peers = [112u8, 101, 101, 114, 115];
        proof {
            assert(k_failure@ =~= key_failure_reason());
            assert(k_interval@ =~= key_interval());
            assert(k_peers@ =~= key_peers());
        }
        let failure = get(d, k_failure.as_slice());
        let failure_reason = if is_absent(failure) {
            None
        } else {
            match text_of(failure) {
                Some(t) => Some(t),
                None => return Err(TrackerError::Deserialization),
            }
        };
        let interval_value = get(d, k_interval.as_slice());
        let interval = if is_absent(interval_value) {
            None
        } else {
            match uint_of(interval_value, u64::MAX) {
                Some(i) => Some(i),
                None => return Err(TrackerError::Deserialization),
            }
        };
        let peers = match opt_bytes_of(get(d, k_peers.as_slice())) {
            Some(p) => p,
            None => return Err(TrackerError::Deserialization),
        };
        Ok(TrackerResponse { failure_reason, interval, peers })
    }

    /// Reads a tracker response from its bytes: an error where they are not
    /// one bencoded value, or not a tracker response.
    pub fn from_bytes(bytes: &[u8]) -> (r: Result<TrackerResponse, TrackerError>)
        ensures
            match spec_value(bytes@, 0) {
                Parsed::Done(v, q) => if q == bytes@.len() {
                    match parse_response(v) {
                        Some(model) => r matches Ok(t) && response_model(t) == model,
                        None => r == Err::<TrackerResponse, TrackerError>(TrackerError::Deserialization),
                    }
                } else {
                    r == Err::<TrackerResponse, TrackerError>(TrackerError::Deserialization)
                },
                _ => r == Err::<TrackerResponse, TrackerError>(TrackerError::Deserialization),
            },
    {
        match checked_from_bytes(bytes) {
            Some(Ok(v)) => TrackerResponse::from_value(&v),
            _ => Err(TrackerError::Deserialization),
        }
    }

    /// The peers of a compact peer list, if the response has one: each six
    /// bytes are an IPv4 address and a port, big-endian.
    pub fn get_peers(&self) -> (r: Option<Result<Vec<PeerAddr>, TrackerError>>)
        requires
            self.peers matches Some(p) ==> p@.len() % 6 == 0,
        ensures
            match self.peers {
                None => r is None,
                Some(p) => r matches Some(Ok(v)) && v@ == compact_peers(p@),
            },
    {
        match &self.peers {
            None => None,
            Some(peers) => {
                let len = peers.len();
                let n = len / 6;
                let mut peer_ips: Vec<PeerAddr> = Vec::with_capacity(n);
                let mut i: usize = 0;
                while i < n
                    invariant
                        n == peers@.len() / 6,
                        len == peers@.len(),
                        n == len / 6,
                        i <= n,
                        peer_ips@ == compact_peers(peers@).take(i as int),
                    decreases n - i,
                {
                    assert(6 * i + 6 <= len) by (nonlinear_arith)
                        requires
                            i < n,
                            n == len / 6,
                    ;
                    let ip = read_be_u32(peers.as_slice(), 6 * i);
                    let port = read_be_u16(peers.as_slice(), 6 * i + 4);
                    peer_ips.push(PeerAddr { ip, port });
                    assert(compact_peers(peers@).take(i + 1) =~= compact_peers(peers@).take(
                        i as int,
                    ).push(PeerAddr { ip, port }));
                    i = i + 1;
                }
                assert(compact_peers(peers@).take(n as int) =~= compact_peers(peers@));
                Some(Ok(peer_ips))
            },
        }
    }
}

} // verus!
