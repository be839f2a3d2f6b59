//! The handshake, the first message that each side of a connection sends.

use std::borrow::Cow;
use vstd::prelude::*;
use vstd::string::StringSliceAdditionalSpecFns;
use vstd::utf8::{decode_utf8, encode_utf8, valid_utf8};

use super::bytes::{be_u64_at, be_u64_bytes, lemma_be_u64, read_be_u64, write_be_u64};
use super::codec::Decode;
use super::error::Error;
use super::message::extend_from;
use crate::utf8::{string_from_utf8_lossy, utf8_lossy};

verus! {

/// The handshake: the protocol's name, eight reserved bytes, the info hash
/// of the torrent and the sender's peer id.
#[derive(Debug)]
pub struct Handshake<'a> {
    /// The protocol's name; its length in bytes is sent in a single byte.
    pub pstr: Cow<'a, str>,
    /// Reserved bytes that announce extensions of the protocol.
    pub extension_bytes: u64,
    /// SHA-1 hash of the info dictionary of the metainfo file.
    pub info_hash: [u8; 20],
    /// The sender's peer id.
    pub peer_id: [u8; 20],
}

/// The bytes of a string, UTF-8 encoded.
pub open spec fn pstr_bytes(pstr: Seq<char>) -> Seq<u8> {
    encode_utf8(pstr)
}

/// A handshake as it is written to the wire. The length byte holds the low
/// eight bits of the name's length in bytes.
pub open spec fn spec_encode_handshake(h: Handshake) -> Seq<u8> {
    seq![(pstr_bytes(h.pstr@).len() % 256) as u8] + pstr_bytes(h.pstr@) + be_u64_bytes(
        h.extension_bytes,
    ) + h.info_hash@ + h.peer_id@
}

/// The text of a name's bytes as `String::from_utf8_lossy` reads them: the
/// decoded characters where the bytes are valid UTF-8.
pub open spec fn lossy_text(bytes: Seq<u8>) -> Seq<char> {
    if valid_utf8(bytes) {
        decode_utf8(bytes)
    } else {
        utf8_lossy(bytes)
    }
}

/// The length of the name that a handshake in `src` announces.
pub open spec fn handshake_pstr_len(src: Seq<u8>) -> int {
    src[0] as int
}

/// The handshake that `src` starts with: the fields at their fixed offsets
/// after the name, and the name as `String::from_utf8_lossy` reads it.
pub open spec fn handshake_fields_match(h: Handshake, src: Seq<u8>) -> bool {
    let n = handshake_pstr_len(src);
    &&& h.pstr@ == lossy_text(src.subrange(1, 1 + n))
    &&& h.extension_bytes == be_u64_at(src, 1 + n)
    &&& h.info_hash@ == src.subrange(9 + n, 29 + n)
    &&& h.peer_id@ == src.subrange(29 + n, 49 + n)
}

impl<'a> Handshake<'a> {
    /// The length byte, the reserved bytes, the info hash and the peer id.
    pub const FIXED_PART_LENGTH: usize = 49;

    pub const DEFAULT_PSTR: &'static str = "BitTorrent protocol";

    /// A handshake for the standard protocol with no extensions.
    pub fn new(info_hash: [u8; 20], peer_id: [u8; 20]) -> (r: Handshake<'static>)
        ensures
            r.pstr@ == Self::DEFAULT_PSTR@,
            r.extension_bytes == 0,
            r.info_hash == info_hash,
            r.peer_id == peer_id,
    {
        Handshake {
            pstr: Cow::Borrowed(Self::DEFAULT_PSTR),
            extension_bytes: 0,
            info_hash,
            peer_id,
        }
    }

    /// The bytes of the protocol's name.
    fn pstr_as_bytes(&self) -> (r: &[u8])
        ensures
            r@ == pstr_bytes(self.pstr@),
    {
        match &self.pstr {
            Cow::Borrowed(s) => s.as_bytes(),
            Cow::Owned(s) => s.as_str().as_bytes(),
        }
    }

    /// Writes the handshake. A name longer than 255 bytes has its length
    /// byte truncated.
    pub fn encode(&self, dst: &mut Vec<u8>) -> (r: Result<(), Error>)
        ensures
            r is Ok,
            final(dst)@ == old(dst)@ + spec_encode_handshake(*self),
    {
        let pstr = self.pstr_as_bytes();
        let len_byte: u8 = (pstr.len() % 256) as u8;
        dst.push(len_byte);
        extend_from(dst, pstr);
        write_be_u64(dst, self.extension_bytes);
        extend_from(dst, self.info_hash.as_slice());
        extend_from(dst, self.peer_id.as_slice());
        assert(dst@ =~= old(dst)@ + spec_encode_handshake(*self));
        Ok(())
    }
}

/// Copies the twenty bytes at offset `i` of `src`.
fn read_20(src: &[u8], i: usize) -> (r: [u8; 20])
    requires
        i + 20 <= src@.len(),
    ensures
        r@ == src@.subrange(i as int, i + 20),
{
    let mut r = [0u8; 20];
    let mut k: usize = 0;
    assert(i + 20 <= src.len());
    while k < 20
        invariant
            k <= 20,
            i + 20 <= src.len(),
            r@.len() == 20,
            forall|j: int| 0 <= j < k ==> r@[j] == src@[i + j],
        decreases 20 - k,
    {
        r[k] = src[i + k];
        k = k + 1;
    }
    assert(r@ =~= src@.subrange(i as int, i + 20));
    r
}

impl<'a> Decode<'a> for Handshake<'a> {
    /// The length byte, the name and the fixed fields must all be there.
    open spec fn decodable(src: Seq<u8>) -> bool {
        src.len() >= 1 && src.len() >= 49 + src[0]
    }

    fn decode(src: &'a [u8]) -> (r: Result<Handshake<'a>, Error>)
        ensures
            r matches Ok(h) && handshake_fields_match(h, src@),
    {
        let pstr_len = src[0] as usize;
        let pstr = string_from_utf8_lossy(&src[1..1 + pstr_len]);
        let extension_bytes = read_be_u64(src, 1 + pstr_len);
        let info_hash = read_20(src, 9 + pstr_len);
        let peer_id = read_20(src, 29 + pstr_len);
        Ok(Handshake { pstr, extension_bytes, info_hash, peer_id })
    }
}

/// Where each field of a handshake lies on the wire: a byte holding the
/// name's length (its low eight bits), the name's UTF-8 bytes, the eight
/// reserved bytes holding the extension bits big-endian, then the twenty
/// bytes of the info hash and the twenty of the peer id, in that order.
pub proof fn lemma_handshake_layout(h: Handshake)
    ensures
        ({
            let e = spec_encode_handshake(h);
            let name = pstr_bytes(h.pstr@);
            let n = name.len() as int;
            &&& e.len() == 49 + n
            &&& e[0] as int == n % 256
            &&& e.subrange(1, 1 + n) == name
            &&& be_u64_at(e, 1 + n) == h.extension_bytes
            &&& e.subrange(9 + n, 29 + n) == h.info_hash@
            &&& e.subrange(29 + n, 49 + n) == h.peer_id@
        }),
{
    let e = spec_encode_handshake(h);
    let b = pstr_bytes(h.pstr@);
    let n = b.len() as int;
    assert(e.subrange(1, 1 + n) =~= b);
    assert(e.subrange(1 + n, 9 + n) =~= be_u64_bytes(h.extension_bytes));
    lemma_be_u64(h.extension_bytes, e, 1 + n);
    assert(e.subrange(9 + n, 29 + n) =~= h.info_hash@);
    assert(e.subrange(29 + n, 49 + n) =~= h.peer_id@);
}

/// Whatever the name, the handshake's bytes can be decoded.
pub proof fn lemma_encoded_handshake_decodable(h: Handshake)
    requires
        pstr_bytes(h.pstr@).len() < 256,
    ensures
        <Handshake as Decode>::decodable(spec_encode_handshake(h)),
{
    let e = spec_encode_handshake(h);
    assert(e[0] == pstr_bytes(h.pstr@).len());
}

/// Decoding the bytes of a handshake gives it back, where the name's length
/// fits in its byte.
pub proof fn lemma_handshake_roundtrip(h: Handshake, d: Handshake)
    requires
        pstr_bytes(h.pstr@).len() < 256,
        handshake_fields_match(d, spec_encode_handshake(h)),
    ensures
        d.pstr@ == h.pstr@,
        d.extension_bytes == h.extension_bytes,
        d.info_hash == h.info_hash,
        d.peer_id == h.peer_id,
{
    let e = spec_encode_handshake(h);
    let b = pstr_bytes(h.pstr@);
    let n = b.len() as int;
    assert(e[0] == n);
    assert(e.subrange(1, 1 + n) =~= b);
    vstd::utf8::encode_utf8_valid_utf8(h.pstr@);
    vstd::utf8::encode_utf8_decode_utf8(h.pstr@);
    assert(e.subrange(1 + n, 9 + n) =~= be_u64_bytes(h.extension_bytes));
    lemma_be_u64(h.extension_bytes, e, 1 + n);
    assert(e.subrange(9 + n, 29 + n) =~= h.info_hash@);
    assert(e.subrange(29 + n, 49 + n) =~= h.peer_id@);
    assert(d.info_hash@ =~= h.info_hash@);
    assert(d.peer_id@ =~= h.peer_id@);
}

} // verus!
