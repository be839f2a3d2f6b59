//! Peer wire messages after the handshake: a big-endian `u32` length, then,
//! for all but keep-alive, a one-byte message id and the payload.

use vstd::prelude::*;

use super::bitfield::{bitfield_bits, bitfield_raw, msb0_bits, Bitfield};
use super::bytes::{
    be_u16_at, be_u16_bytes, be_u32_at, be_u32_bytes, lemma_be_u16, lemma_be_u32, read_be_u16,
    read_be_u32, write_be_u16, write_be_u32,
};
use super::codec::Decode;
use super::error::Error;

verus! {

#[derive(Debug, Clone, Copy, PartialEq, Eq)]
pub enum MessageId {
    Choke,
    Unchoke,
    Interested,
    NotInterested,
    Have,
    Bitfield,
    Request,
    Piece,
    Cancel,
    Port,
}

/// The byte that stands for each message id on the wire.
pub open spec fn spec_id_byte(id: MessageId) -> u8 {
    match id {
        MessageId::Choke => 0,
        MessageId::Unchoke => 1,
        MessageId::Interested => 2,
        MessageId::NotInterested => 3,
        MessageId::Have => 4,
        MessageId::Bitfield => 5,
        MessageId::Request => 6,
        MessageId::Piece => 7,
        MessageId::Cancel => 8,
        MessageId::Port => 9,
    }
}

/// The message id of a byte, where it stands for one.
pub open spec fn spec_id_of_byte(b: u8) -> Option<MessageId> {
    if b == 0 {
        Some(MessageId::Choke)
    } else if b == 1 {
        Some(MessageId::Unchoke)
    } else if b == 2 {
        Some(MessageId::Interested)
    } else if b == 3 {
        Some(MessageId::NotInterested)
    } else if b == 4 {
        Some(MessageId::Have)
    } else if b == 5 {
        Some(MessageId::Bitfield)
    } else if b == 6 {
        Some(MessageId::Request)
    } else if b == 7 {
        Some(MessageId::Piece)
    } else if b == 8 {
        Some(MessageId::Cancel)
    } else if b == 9 {
        Some(MessageId::Port)
    } else {
        None
    }
}

impl MessageId {
    /// The byte that stands for this message id on the wire.
    pub fn to_byte(self) -> (r: u8)
        ensures
            r == spec_id_byte(self),
    {
        match self {
            MessageId::Choke => 0,
            MessageId::Unchoke => 1,
            MessageId::Interested => 2,
            MessageId::NotInterested => 3,
            MessageId::Have => 4,
            MessageId::Bitfield => 5,
            MessageId::Request => 6,
            MessageId::Piece => 7,
            MessageId::Cancel => 8,
            MessageId::Port => 9,
        }
    }
}

impl vstd::std_specs::convert::TryFromSpecImpl<u8> for MessageId {
    open spec fn obeys_try_from_spec() -> bool {
        true
    }

    open spec fn try_from_spec(value: u8) -> Result<Self, Error> {
        match spec_id_of_byte(value) {
            Some(id) => Ok(id),
            None => Err(Error::ConversionError("MessageId is out of range")),
        }
    }
}

impl TryFrom<u8> for MessageId {
    type Error = Error;

    fn try_from(value: u8) -> (r: Result<Self, Error>)
        ensures
            r == match spec_id_of_byte(value) {
                Some(id) => Ok::<MessageId, Error>(id),
                None => Err(Error::ConversionError("MessageId is out of range")),
            },
    {
        Ok(
            match value {
                0 => Self::Choke,
                1 => Self::Unchoke,
                2 => Self::Interested,
                3 => Self::NotInterested,
                4 => Self::Have,
                5 => Self::Bitfield,
                6 => Self::Request,
                7 => Self::Piece,
                8 => Self::Cancel,
                9 => Self::Port,
                _ => return Err(Error::ConversionError("MessageId is out of range")),
            },
        )
    }
}

/// A request for `length` bytes at offset `begin` of piece `index`.
#[derive(Debug, Clone, Copy, PartialEq, Eq)]
pub struct BlockRequest {
    pub index: u32,
    pub begin: u32,
    pub length: u32,
}

/// The bytes at offset `begin` of piece `index`.
#[derive(Debug, PartialEq, Eq)]
pub struct Block {
    pub index: u32,
    pub begin: u32,
    pub block: Vec<u8>,
}

/// All peer wire messages.
#[derive(Debug, PartialEq)]
pub enum BittorrentP2pMessage {
    /// No id and no payload; keeps the connection open.
    KeepAlive,
    Choke,
    Unchoke,
    Interested,
    NotInterested,
    /// The index of a piece that the peer has just got.
    Have(u32),
    /// The pieces that the peer has; the high bit of the first byte is piece 0.
    Bitfield(Bitfield),
    Request { index: u32, begin: u32, length: u32 },
    Piece { index: u32, begin: u32, block: Vec<u8> },
    Cancel { index: u32, begin: u32, length: u32 },
    /// The port of the peer's DHT node.
    Port(u16),
}

/// The number that the length prefix of a message stands for: the id byte and
/// the payload, in bytes.
pub open spec fn spec_length(m: BittorrentP2pMessage) -> int {
    match m {
        BittorrentP2pMessage::KeepAlive => 0int,
        BittorrentP2pMessage::Choke => 1int,
        BittorrentP2pMessage::Unchoke => 1int,
        BittorrentP2pMessage::Interested => 1int,
        BittorrentP2pMessage::NotInterested => 1int,
        BittorrentP2pMessage::Have(_) => 5int,
        BittorrentP2pMessage::Bitfield(b) => 1 + bitfield_raw(b).len() as int,
        BittorrentP2pMessage::Request { .. } => 13,
        BittorrentP2pMessage::Piece { block, .. } => 9 + block@.len() as int,
        BittorrentP2pMessage::Cancel { .. } => 13,
        BittorrentP2pMessage::Port(_) => 3,
    }
}

pub open spec fn spec_message_id(m: BittorrentP2pMessage) -> Option<MessageId> {
    match m {
        BittorrentP2pMessage::KeepAlive => None,
        BittorrentP2pMessage::Choke => Some(MessageId::Choke),
        BittorrentP2pMessage::Unchoke => Some(MessageId::Unchoke),
        BittorrentP2pMessage::Interested => Some(MessageId::Interested),
        BittorrentP2pMessage::NotInterested => Some(MessageId::NotInterested),
        BittorrentP2pMessage::Have(_) => Some(MessageId::Have),
        BittorrentP2pMessage::Bitfield(_) => Some(MessageId::Bitfield),
        BittorrentP2pMessage::Request { .. } => Some(MessageId::Request),
        BittorrentP2pMessage::Piece { .. } => Some(MessageId::Piece),
        BittorrentP2pMessage::Cancel { .. } => Some(MessageId::Cancel),
        BittorrentP2pMessage::Port(_) => Some(MessageId::Port),
    }
}

/// The payload of a message: what follows its id byte.
pub open spec fn spec_payload(m: BittorrentP2pMessage) -> Seq<u8> {
    match m {
        BittorrentP2pMessage::Have(i) => be_u32_bytes(i),
        BittorrentP2pMessage::Bitfield(b) => bitfield_raw(b),
        BittorrentP2pMessage::Request { index, begin, length } => be_u32_bytes(index)
            + be_u32_bytes(begin) + be_u32_bytes(length),
        BittorrentP2pMessage::Piece { index, begin, block } => be_u32_bytes(index) + be_u32_bytes(
            begin,
        ) + block@,
        BittorrentP2pMessage::Cancel { index, begin, length } => be_u32_bytes(index)
            + be_u32_bytes(begin) + be_u32_bytes(length),
        BittorrentP2pMessage::Port(p) => be_u16_bytes(p),
        _ => Seq::empty(),
    }
}

/// A message as it is written to the wire.
pub open spec fn spec_encode_message(m: BittorrentP2pMessage) -> Seq<u8> {
    be_u32_bytes(spec_length(m) as u32) + match spec_message_id(m) {
        Some(id) => seq![spec_id_byte(id)],
        None => Seq::empty(),
    } + spec_payload(m)
}

impl BittorrentP2pMessage {
    pub const FIXED_PART_LENGTH: usize = 4;

    pub fn message_id(&self) -> (r: Option<MessageId>)
        ensures
            r == spec_message_id(*self),
    {
        match self {
            BittorrentP2pMessage::KeepAlive => None,
            BittorrentP2pMessage::Choke => Some(MessageId::Choke),
            BittorrentP2pMessage::Unchoke => Some(MessageId::Unchoke),
            BittorrentP2pMessage::Interested => Some(MessageId::Interested),
            BittorrentP2pMessage::NotInterested => Some(MessageId::NotInterested),
            BittorrentP2pMessage::Have(_) => Some(MessageId::Have),
            BittorrentP2pMessage::Bitfield(_) => Some(MessageId::Bitfield),
            BittorrentP2pMessage::Request { .. } => Some(MessageId::Request),
            BittorrentP2pMessage::Piece { .. } => Some(MessageId::Piece),
            BittorrentP2pMessage::Cancel { .. } => Some(MessageId::Cancel),
            BittorrentP2pMessage::Port(_) => Some(MessageId::Port),
        }
    }

    /// The value of the length prefix and the message id. The length must fit
    /// in a `u32`.
    pub fn length_and_message_id(&self) -> (r: (u32, Option<MessageId>))
        requires
            spec_length(*self) <= u32::MAX,
        ensures
            r.0 == spec_length(*self),
            r.1 == spec_message_id(*self),
    {
        let length: usize = match self {
            BittorrentP2pMessage::KeepAlive => 0,
            BittorrentP2pMessage::Choke => 1,
            BittorrentP2pMessage::Unchoke => 1,
            BittorrentP2pMessage::Interested => 1,
            BittorrentP2pMessage::NotInterested => 1,
            BittorrentP2pMessage::Have(_) => 5,
            BittorrentP2pMessage::Bitfield(bitvec) => 1 + bitvec.as_raw_slice().len(),
            BittorrentP2pMessage::Request { .. } => 13,
            BittorrentP2pMessage::Piece { block, .. } => 9 + block.len(),
            BittorrentP2pMessage::Cancel { .. } => 13,
            BittorrentP2pMessage::Port(_) => 3,
        };
        (length as u32, self.message_id())
    }

    /// Writes the message. Its length must fit in a `u32`.
    pub fn encode(&self, dst: &mut Vec<u8>) -> (r: Result<(), Error>)
        requires
            spec_length(*self) <= u32::MAX,
        ensures
            r is Ok,
            final(dst)@ == old(dst)@ + spec_encode_message(*self),
    {
        let (length, message_id) = self.length_and_message_id();
        write_be_u32(dst, length);
        if let Some(message_id) = message_id {
            dst.push(message_id.to_byte());
        }
        let ghost header = dst@;
        match self {
            BittorrentP2pMessage::Have(piece_idx) => {
                write_be_u32(dst, *piece_idx);
            },
            BittorrentP2pMessage::Bitfield(bitfield) => {
                let raw = bitfield.as_raw_slice();
                extend_from(dst, raw);
            },
            BittorrentP2pMessage::Request { index, begin, length } => {
                write_be_u32(dst, *index);
                write_be_u32(dst, *begin);
                write_be_u32(dst, *length);
            },
            BittorrentP2pMessage::Piece { index, begin, block } => {
                write_be_u32(dst, *index);
                write_be_u32(dst, *begin);
                extend_from(dst, block.as_slice());
            },
            BittorrentP2pMessage::Cancel { index, begin, length } => {
                write_be_u32(dst, *index);
                write_be_u32(dst, *begin);
                write_be_u32(dst, *length);
            },
            BittorrentP2pMessage::Port(port) => {
                write_be_u16(dst, *port);
            },
            _ => {},
        }
        assert(dst@ =~= header + spec_payload(*self));
        assert(dst@ =~= old(dst)@ + spec_encode_message(*self));
        Ok(())
    }
}

/// The value of the length prefix at the start of `src`.
pub open spec fn prefix_length(src: Seq<u8>) -> int {
    be_u32_at(src, 0) as int
}

/// The inputs on which reading a message runs out of bytes, or asks for a
/// bitfield too long to be addressed in bits: a `Have`, `Request`, `Cancel`
/// or `Port` whose fields reach past the end of `src`, or a `Piece` whose
/// length is too short for its index and offset.
pub open spec fn decode_overruns(src: Seq<u8>) -> bool {
    let length = prefix_length(src);
    &&& src.len() >= 4
    &&& length != 0
    &&& src.len() - 4 >= length
    &&& match spec_id_of_byte(src[4]) {
        Some(MessageId::Have) => src.len() < 9,
        Some(MessageId::Bitfield) => length - 1 >= usize::MAX / 64,
        Some(MessageId::Request) => src.len() < 17,
        Some(MessageId::Piece) => length < 9,
        Some(MessageId::Cancel) => src.len() < 17,
        Some(MessageId::Port) => src.len() < 7,
        _ => false,
    }
}

/// `m` is the message with id `id` whose length prefix is `length`, read
/// from `src`: its fields are the big-endian integers right after the id
/// byte, a bitfield or a block spans the rest of the message.
pub open spec fn message_read_from(m: BittorrentP2pMessage, id: MessageId, length: int, src: Seq<u8>) -> bool {
    match id {
        MessageId::Choke => m is Choke,
        MessageId::Unchoke => m is Unchoke,
        MessageId::Interested => m is Interested,
        MessageId::NotInterested => m is NotInterested,
        MessageId::Have => m == BittorrentP2pMessage::Have(be_u32_at(src, 5)),
        MessageId::Bitfield => m matches BittorrentP2pMessage::Bitfield(b) && bitfield_raw(b)
            == src.subrange(5, 4 + length) && bitfield_bits(b) == msb0_bits(src.subrange(5, 4 + length)),
        MessageId::Request => m == BittorrentP2pMessage::Request {
            index: be_u32_at(src, 5),
            begin: be_u32_at(src, 9),
            length: be_u32_at(src, 13),
        },
        MessageId::Piece => m matches BittorrentP2pMessage::Piece { index, begin, block } && index
            == be_u32_at(src, 5) && begin == be_u32_at(src, 9) && block@ == src.subrange(13, 4 + length),
        MessageId::Cancel => m == BittorrentP2pMessage::Cancel {
            index: be_u32_at(src, 5),
            begin: be_u32_at(src, 9),
            length: be_u32_at(src, 13),
        },
        MessageId::Port => m == BittorrentP2pMessage::Port(be_u16_at(src, 5)),
    }
}

/// What reading a message from the start of `src` gives: a length error
/// where the prefix or the message is cut short, keep-alive for a zero
/// length, a conversion error for an unknown id, else the message.
pub open spec fn decode_result(src: Seq<u8>, r: Result<BittorrentP2pMessage, Error>) -> bool {
    let length = prefix_length(src);
    if src.len() < 4 {
        r == Err::<BittorrentP2pMessage, Error>(Error::BadLength(src.len() as usize, 4))
    } else if length == 0 {
        r == Ok::<BittorrentP2pMessage, Error>(BittorrentP2pMessage::KeepAlive)
    } else if src.len() - 4 < length {
        r == Err::<BittorrentP2pMessage, Error>(
            Error::BadLength((src.len() - 4) as usize, length as usize),
        )
    } else {
        match spec_id_of_byte(src[4]) {
            None => r == Err::<BittorrentP2pMessage, Error>(
                Error::ConversionError("MessageId is out of range"),
            ),
            Some(id) => r matches Ok(m) && message_read_from(m, id, length, src),
        }
    }
}

/// Two messages are alike where they have the same variant and fields, a
/// bitfield taken by its bytes and bits and a block by its bytes.
pub open spec fn same_message(a: BittorrentP2pMessage, b: BittorrentP2pMessage) -> bool {
    match (a, b) {
        (BittorrentP2pMessage::Bitfield(x), BittorrentP2pMessage::Bitfield(y)) => bitfield_raw(x)
            == bitfield_raw(y) && bitfield_bits(x) == bitfield_bits(y),
        (
            BittorrentP2pMessage::Piece { index: i1, begin: b1, block: k1 },
            BittorrentP2pMessage::Piece { index: i2, begin: b2, block: k2 },
        ) => i1 == i2 && b1 == b2 && k1@ == k2@,
        (BittorrentP2pMessage::Bitfield(_), _) => false,
        (BittorrentP2pMessage::Piece { .. }, _) => false,
        _ => a == b,
    }
}

impl BittorrentP2pMessage {
    /// Whether reading a message from `src` would run past its end.
    pub fn decode_overruns(src: &[u8]) -> (r: bool)
        ensures
            r == decode_overruns(src@),
    {
        if src.len() < 4 {
            return false;
        }
        let length = read_be_u32(src, 0);
        if length == 0 || ((src.len() - 4) as u64) < length as u64 {
            return false;
        }
        let id = src[4];
        if id == 4 {
            src.len() < 9
        } else if id == 5 {
            (length - 1) as usize >= usize::MAX / 64
        } else if id == 6 || id == 8 {
            src.len() < 17
        } else if id == 7 {
            length < 9
        } else if id == 9 {
            src.len() < 7
        } else {
            false
        }
    }
}

impl<'a> Decode<'a> for BittorrentP2pMessage {
    open spec fn decodable(src: Seq<u8>) -> bool {
        !decode_overruns(src)
    }

    fn decode(src: &'a [u8]) -> (r: Result<BittorrentP2pMessage, Error>)
        ensures
            decode_result(src@, r),
    {
        if src.len() < Self::FIXED_PART_LENGTH {
            return Err(Error::BadLength(src.len(), Self::FIXED_PART_LENGTH));
        }
        let length32 = read_be_u32(src, 0);
        if length32 == 0 {
            return Ok(BittorrentP2pMessage::KeepAlive);
        }
        let remaining = src.len() - 4;
        if (remaining as u64) < length32 as u64 {
            return Err(Error::BadLength(remaining, length32 as usize));
        }
        let length = length32 as usize;
        let message_id = match MessageId::try_from(src[4]) {
            Ok(id) => id,
            Err(e) => return Err(e),
        };
        Ok(
            match message_id {
                MessageId::Choke => BittorrentP2pMessage::Choke,
                MessageId::Unchoke => BittorrentP2pMessage::Unchoke,
                MessageId::Interested => BittorrentP2pMessage::Interested,
                MessageId::NotInterested => BittorrentP2pMessage::NotInterested,
                MessageId::Have => BittorrentP2pMessage::Have(read_be_u32(src, 5)),
                MessageId::Bitfield => {
                    let raw = vstd::slice::slice_to_vec(&src[5..4 + length]);
                    BittorrentP2pMessage::Bitfield(Bitfield::from_bytes(raw))
                },
                MessageId::Request => BittorrentP2pMessage::Request {
                    index: read_be_u32(src, 5),
                    begin: read_be_u32(src, 9),
                    length: read_be_u32(src, 13),
                },
                MessageId::Piece => {
                    let index = read_be_u32(src, 5);
                    let begin = read_be_u32(src, 9);
                    let block = vstd::slice::slice_to_vec(&src[13..4 + length]);
                    BittorrentP2pMessage::Piece { index, begin, block }
                },
                MessageId::Cancel => BittorrentP2pMessage::Cancel {
                    index: read_be_u32(src, 5),
                    begin: read_be_u32(src, 9),
                    length: read_be_u32(src, 13),
                },
                MessageId::Port => BittorrentP2pMessage::Port(read_be_u16(src, 5)),
            },
        )
    }
}

/// Each message id's byte stands for it again.
pub proof fn lemma_id_byte_roundtrip(id: MessageId)
    ensures
        spec_id_of_byte(spec_id_byte(id)) == Some(id),
{
}

/// Reading back the bytes of a message gives a message alike to it, where
/// its length fits in the prefix; a bitfield does so where its bits are all
/// the bits of its bytes (as `Bitfield::from_bytes` makes it) and its bytes
/// can be addressed in bits.
pub proof fn lemma_message_roundtrip(m: BittorrentP2pMessage, r: Result<BittorrentP2pMessage, Error>)
    requires
        spec_length(m) <= u32::MAX,
        m matches BittorrentP2pMessage::Bitfield(b) ==> bitfield_bits(b) == msb0_bits(
            bitfield_raw(b),
        ) && bitfield_raw(b).len() < usize::MAX / 64,
        decode_result(spec_encode_message(m), r),
    ensures
        !decode_overruns(spec_encode_message(m)),
        r matches Ok(d) && same_message(d, m),
{
    let e = spec_encode_message(m);
    let length = spec_length(m);
    assert(e.subrange(0, 4) =~= be_u32_bytes(length as u32));
    lemma_be_u32(length as u32, e, 0);
    assert(prefix_length(e) == length);
    if let Some(id) = spec_message_id(m) {
        lemma_id_byte_roundtrip(id);
        assert(e[4] == spec_id_byte(id));
        let p = spec_payload(m);
        assert(e.subrange(5, e.len() as int) =~= p);
        match m {
            BittorrentP2pMessage::Have(i) => {
                assert(e.subrange(5, 9) =~= be_u32_bytes(i));
                lemma_be_u32(i, e, 5);
            },
            BittorrentP2pMessage::Request { index, begin, length } => {
                assert(e.subrange(5, 9) =~= be_u32_bytes(index));
                assert(e.subrange(9, 13) =~= be_u32_bytes(begin));
                assert(e.subrange(13, 17) =~= be_u32_bytes(length));
                lemma_be_u32(index, e, 5);
                lemma_be_u32(begin, e, 9);
                lemma_be_u32(length, e, 13);
            },
            BittorrentP2pMessage::Cancel { index, begin, length } => {
                assert(e.subrange(5, 9) =~= be_u32_bytes(index));
                assert(e.subrange(9, 13) =~= be_u32_bytes(begin));
                assert(e.subrange(13, 17) =~= be_u32_bytes(length));
                lemma_be_u32(index, e, 5);
                lemma_be_u32(begin, e, 9);
                lemma_be_u32(length, e, 13);
            },
            BittorrentP2pMessage::Piece { index, begin, block } => {
                assert(e.subrange(5, 9) =~= be_u32_bytes(index));
                assert(e.subrange(9, 13) =~= be_u32_bytes(begin));
                lemma_be_u32(index, e, 5);
                lemma_be_u32(begin, e, 9);
                assert(e.subrange(13, 4 + length) =~= block@);
            },
            BittorrentP2pMessage::Port(port) => {
                assert(e.subrange(5, 7) =~= be_u16_bytes(port));
                lemma_be_u16(port, e, 5);
            },
            BittorrentP2pMessage::Bitfield(b) => {
                assert(e.subrange(5, 4 + length) =~= bitfield_raw(b));
            },
            _ => {},
        }
    }
}

/// Where each field of a message lies on the wire: the four-byte big-endian
/// length prefix counts the bytes after it; then comes the id byte (0 choke,
/// 1 unchoke, 2 interested, 3 not interested, 4 have, 5 bitfield, 6 request,
/// 7 piece, 8 cancel, 9 port), and the fields in their order, integers as
/// big-endian bytes. A keep-alive is the prefix alone.
pub proof fn lemma_message_layout(m: BittorrentP2pMessage)
    requires
        spec_length(m) <= u32::MAX,
    ensures
        ({
            let e = spec_encode_message(m);
            &&& e.len() >= 4
            &&& be_u32_at(e, 0) == e.len() - 4
            &&& match m {
                BittorrentP2pMessage::KeepAlive => e.len() == 4,
                BittorrentP2pMessage::Choke => e.len() == 5 && e[4] == 0,
                BittorrentP2pMessage::Unchoke => e.len() == 5 && e[4] == 1,
                BittorrentP2pMessage::Interested => e.len() == 5 && e[4] == 2,
                BittorrentP2pMessage::NotInterested => e.len() == 5 && e[4] == 3,
                BittorrentP2pMessage::Have(i) => e.len() == 9 && e[4] == 4 && be_u32_at(e, 5) == i,
                BittorrentP2pMessage::Bitfield(b) => e[4] == 5 && e.skip(5) == bitfield_raw(b),
                BittorrentP2pMessage::Request { index, begin, length } => e.len() == 17 && e[4] == 6
                    && be_u32_at(e, 5) == index && be_u32_at(e, 9) == begin && be_u32_at(e, 13)
                    == length,
                BittorrentP2pMessage::Piece { index, begin, block } => e[4] == 7 && be_u32_at(e, 5)
                    == index && be_u32_at(e, 9) == begin && e.skip(13) == block@,
                BittorrentP2pMessage::Cancel { index, begin, length } => e.len() == 17 && e[4] == 8
                    && be_u32_at(e, 5) == index && be_u32_at(e, 9) == begin && be_u32_at(e, 13)
                    == length,
                BittorrentP2pMessage::Port(p) => e.len() == 7 && e[4] == 9 && be_u16_at(e, 5) == p,
            }
        }),
{
    let e = spec_encode_message(m);
    let len = spec_length(m);
    assert(e.subrange(0, 4) =~= be_u32_bytes(len as u32));
    lemma_be_u32(len as u32, e, 0);
    match m {
        BittorrentP2pMessage::Have(i) => {
            assert(e.subrange(5, 9) =~= be_u32_bytes(i));
            lemma_be_u32(i, e, 5);
        },
        BittorrentP2pMessage::Bitfield(b) => {
            assert(e.skip(5) =~= bitfield_raw(b));
        },
        BittorrentP2pMessage::Request { index, begin, length } => {
            assert(e.subrange(5, 9) =~= be_u32_bytes(index));
            assert(e.subrange(9, 13) =~= be_u32_bytes(begin));
            assert(e.subrange(13, 17) =~= be_u32_bytes(length));
            lemma_be_u32(index, e, 5);
            lemma_be_u32(begin, e, 9);
            lemma_be_u32(length, e, 13);
        },
        BittorrentP2pMessage::Piece { index, begin, block } => {
            assert(e.subrange(5, 9) =~= be_u32_bytes(index));
            assert(e.subrange(9, 13) =~= be_u32_bytes(begin));
            lemma_be_u32(index, e, 5);
            lemma_be_u32(begin, e, 9);
            assert(e.skip(13) =~= block@);
        },
        BittorrentP2pMessage::Cancel { index, begin, length } => {
            assert(e.subrange(5, 9) =~= be_u32_bytes(index));
            assert(e.subrange(9, 13) =~= be_u32_bytes(begin));
            assert(e.subrange(13, 17) =~= be_u32_bytes(length));
            lemma_be_u32(index, e, 5);
            lemma_be_u32(begin, e, 9);
            lemma_be_u32(length, e, 13);
        },
        BittorrentP2pMessage::Port(p) => {
            assert(e.subrange(5, 7) =~= be_u16_bytes(p));
            lemma_be_u16(p, e, 5);
        },
        _ => {},
    }
}

/// A cancel message is written as a request for the same block, under its
/// own id: the length prefix 13, the id 8, then the piece index, the offset
/// in the piece and the block's length, each as four big-endian bytes, in
/// that order.
pub proof fn lemma_cancel_bytes(index: u32, begin: u32, length: u32)
    ensures
        ({
            let c = spec_encode_message(BittorrentP2pMessage::Cancel { index, begin, length });
            let q = spec_encode_message(BittorrentP2pMessage::Request { index, begin, length });
            &&& c.len() == 17
            &&& c.subrange(0, 5) == seq![0u8, 0, 0, 13, 8]
            &&& be_u32_at(c, 5) == index
            &&& be_u32_at(c, 9) == begin
            &&& be_u32_at(c, 13) == length
            &&& c.skip(5) == q.skip(5)
            &&& q[4] == 6
        }),
{
    let c = spec_encode_message(BittorrentP2pMessage::Cancel { index, begin, length });
    let q = spec_encode_message(BittorrentP2pMessage::Request { index, begin, length });
    let payload = be_u32_bytes(index) + be_u32_bytes(begin) + be_u32_bytes(length);
    assert(be_u32_bytes(13) =~= seq![0u8, 0, 0, 13]);
    assert(c =~= seq![0u8, 0, 0, 13, 8] + payload);
    assert(q =~= seq![0u8, 0, 0, 13, 6] + payload);
    assert(c.subrange(0, 5) =~= seq![0u8, 0, 0, 13, 8]);
    assert(c.subrange(5, 9) =~= be_u32_bytes(index));
    assert(c.subrange(9, 13) =~= be_u32_bytes(begin));
    assert(c.subrange(13, 17) =~= be_u32_bytes(length));
    lemma_be_u32(index, c, 5);
    lemma_be_u32(begin, c, 9);
    lemma_be_u32(length, c, 13);
    assert(c.skip(5) =~= payload);
    assert(q.skip(5) =~= payload);
}

/// Appends the bytes of `src` to `dst`.
pub fn extend_from(dst: &mut Vec<u8>, src: &[u8])
    ensures
        final(dst)@ == old(dst)@ + src@,
{
    let mut i: usize = 0;
    while i < src.len()
        invariant
            i <= src@.len(),
            dst@ == old(dst)@ + src@.take(i as int),
        decreases src@.len() - i,
    {
        dst.push(src[i]);
        assert(src@.take(i + 1) =~= src@.take(i as int).push(src@[i as int]));
        i = i + 1;
    }
    assert(src@.take(src@.len() as int) =~= src@);
}

} // verus!
