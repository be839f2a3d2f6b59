//! Buffers that collect the bytes of a peer connection until a whole
//! handshake or message is in, and hand it out decoded.
//!
//! The reads themselves are the caller's: it asks how much room is left,
//! reads at most that much and appends what it read.

use vstd::prelude::*;

use crate::protocol::bytes::{be_u32_at, read_be_u32};
use crate::protocol::codec::Decode;
use crate::protocol::error::Error;
use crate::protocol::handshake::{handshake_fields_match, Handshake};
use crate::protocol::message::{decode_overruns, decode_result, BittorrentP2pMessage};

verus! {

/// What the next step of reading a message is.
#[derive(Debug)]
pub enum MessageStep {
    /// A whole message was in the buffer: here it is, decoded.
    Message(Result<BittorrentP2pMessage, Error>),
    /// More bytes are needed: at least this many; the buffer has room for
    /// them.
    NeedMore(usize),
}

/// Collects bytes read from a connection. The bytes before `offset` are
/// filled; the first `processed` of them were handed out already.
pub struct ReadBuf {
    inner: Vec<u8>,
    offset: usize,
    processed: usize,
}

impl ReadBuf {
    const DEFAULT_BUFFER_CAPACITY: usize = 32768;

    pub closed spec fn inner_view(&self) -> Seq<u8> {
        self.inner@
    }

    pub closed spec fn offset_view(&self) -> nat {
        self.offset as nat
    }

    pub closed spec fn processed_view(&self) -> nat {
        self.processed as nat
    }

    /// The filled bytes lie in the buffer, and the processed ones among them.
    pub open spec fn wf(&self) -> bool {
        self.processed_view() <= self.offset_view() <= self.inner_view().len()
    }

    /// The filled bytes that are not handed out yet.
    pub open spec fn pending(&self) -> Seq<u8> {
        self.inner_view().subrange(self.processed_view() as int, self.offset_view() as int)
    }

    /// An empty buffer of the default size.
    pub fn new() -> (r: Self)
        ensures
            r.wf(),
            r.inner_view().len() == 32768,
            r.offset_view() == 0,
            r.processed_view() == 0,
    {
        ReadBuf { inner: vec![0u8; Self::DEFAULT_BUFFER_CAPACITY], offset: 0, processed: 0 }
    }

    /// Whether `read_message` may be called now: the buffer is consistent,
    /// no whole message in it announces more payload than its length
    /// prefix gives, and the buffer could grow by a whole message.
    pub fn can_read_message(&self) -> (r: bool)
        ensures
            r == ({
                let p = self.pending();
                let len = be_u32_at(p, 0) as int;
                &&& self.wf()
                &&& (p.len() > 4 && p.len() >= 4 + len ==> !decode_overruns(p.subrange(0, 4 + len)))
                &&& self.inner_view().len() + 4 + u32::MAX <= usize::MAX
            }),
    {
        if !(self.processed <= self.offset && self.offset <= self.inner.len()) {
            return false;
        }
        if self.inner.len() as u128 + 4 + u32::MAX as u128 > usize::MAX as u128 {
            return false;
        }
        let pending = vstd::slice::slice_subrange(self.inner.as_slice(), self.processed, self.offset);
        if pending.len() > 4 {
            let len = read_be_u32(pending, 0) as usize;
            if pending.len() >= 4 + len {
                let message = vstd::slice::slice_subrange(pending, 0, 4 + len);
                return !BittorrentP2pMessage::decode_overruns(message);
            }
        }
        true
    }

    /// The room left after the filled bytes.
    pub fn free_space(&self) -> (r: usize)
        requires
            self.wf(),
        ensures
            r == self.inner_view().len() - self.offset_view(),
    {
        self.inner.len() - self.offset
    }

    /// Appends bytes that were read from the connection.
    pub fn append_read(&mut self, data: &[u8])
        requires
            old(self).wf(),
            old(self).offset_view() + data@.len() <= old(self).inner_view().len(),
        ensures
            final(self).wf(),
            final(self).processed_view() == old(self).processed_view(),
            final(self).offset_view() == old(self).offset_view() + data@.len(),
            final(self).inner_view().len() == old(self).inner_view().len(),
            final(self).inner_view().subrange(0, final(self).offset_view() as int)
                == old(self).inner_view().subrange(0, old(self).offset_view() as int) + data@,
    {
        let ghost old_inner = self.inner@;
        let cap = self.inner.len();
        let mut i: usize = 0;
        while i < data.len()
            invariant
                cap == self.inner@.len(),
                self.offset == old(self).offset,
                self.processed == old(self).processed,
                self.offset + data@.len() <= self.inner@.len(),
                self.inner@.len() == old_inner.len(),
                old_inner == old(self).inner_view(),
                i <= data@.len(),
                forall|j: int| 0 <= j < self.offset ==> self.inner@[j] == old_inner[j],
                forall|j: int| 0 <= j < i ==> self.inner@[self.offset + j] == data@[j],
            decreases data@.len() - i,
        {
            self.inner.set(self.offset + i, data[i]);
            i = i + 1;
        }
        self.offset = self.offset + data.len();
        assert(self.inner@.subrange(0, self.offset as int) =~= old_inner.subrange(
            0,
            old(self).offset as int,
        ) + data@);
    }

    /// Puts bytes read from the connection while waiting for the handshake
    /// at the front of the buffer, over what was there, and counts them as
    /// filled: the handshake is read from the buffer's start.
    pub fn fill_front(&mut self, data: &[u8])
        requires
            old(self).wf(),
            old(self).offset_view() + data@.len() <= old(self).inner_view().len(),
        ensures
            final(self).wf(),
            final(self).processed_view() == old(self).processed_view(),
            final(self).offset_view() == old(self).offset_view() + data@.len(),
            final(self).inner_view() == data@ + old(self).inner_view().skip(data@.len() as int),
    {
        let ghost old_inner = self.inner@;
        let cap = self.inner.len();
        let mut i: usize = 0;
        while i < data.len()
            invariant
                cap == self.inner@.len(),
                self.offset == old(self).offset,
                self.processed == old(self).processed,
                self.offset + data@.len() <= self.inner@.len(),
                self.inner@.len() == old_inner.len(),
                old_inner == old(self).inner_view(),
                i <= data@.len(),
                forall|j: int| 0 <= j < i ==> self.inner@[j] == data@[j],
                forall|j: int| i <= j < self.inner@.len() ==> self.inner@[j] == old_inner[j],
            decreases data@.len() - i,
        {
            self.inner.set(i, data[i]);
            i = i + 1;
        }
        self.offset = self.offset + data.len();
        assert(self.inner@ =~= data@ + old_inner.skip(data@.len() as int));
    }

    /// Drops the processed bytes, moving the rest to the front.
    fn reset_processed(&mut self)
        requires
            old(self).wf(),
        ensures
            final(self).wf(),
            final(self).processed_view() == 0,
            final(self).pending() == old(self).pending(),
            final(self).inner_view().len() == old(self).inner_view().len(),
    {
        if self.processed > 0 {
            let ghost old_pending = old(self).pending();
            if self.offset > self.processed {
                let ghost old_inner = self.inner@;
                let mut i: usize = 0;
                let n = self.offset - self.processed;
                while i < n
                    invariant
                        n == self.offset - self.processed,
                        self.processed == old(self).processed,
                        self.offset == old(self).offset,
                        old_inner == old(self).inner_view(),
                        self.processed <= self.offset <= self.inner@.len(),
                        self.inner@.len() == old_inner.len(),
                        i <= n,
                        forall|j: int| 0 <= j < i ==> self.inner@[j] == old_inner[self.processed + j],
                        forall|j: int| i <= j < self.inner@.len() ==> self.inner@[j] == old_inner[j],
                    decreases n - i,
                {
                    let b = self.inner[self.processed + i];
                    self.inner.set(i, b);
                    i = i + 1;
                }
                assert(self.inner@.subrange(0, n as int) =~= old_pending);
            }
            self.offset = self.offset - self.processed;
            self.processed = 0;
            assert(self.pending() =~= old_pending);
        }
    }

    /// Grows the buffer by `to_add` zero bytes.
    fn resize_inner(&mut self, to_add: usize)
        requires
            old(self).inner_view().len() + to_add <= usize::MAX,
        ensures
            final(self).inner_view() == old(self).inner_view() + Seq::new(to_add as nat, |i: int| 0u8),
            final(self).offset_view() == old(self).offset_view(),
            final(self).processed_view() == old(self).processed_view(),
    {
        let ghost old_inner = self.inner@;
        let mut i: usize = 0;
        while i < to_add
            invariant
                i <= to_add,
                old_inner.len() + to_add <= usize::MAX,
                self.inner@ == old_inner + Seq::new(i as nat, |k: int| 0u8),
                self.offset == old(self).offset,
                self.processed == old(self).processed,
                old_inner == old(self).inner_view(),
            decreases to_add - i,
        {
            self.inner.push(0u8);
            i = i + 1;
            assert(self.inner@ =~= old_inner + Seq::new(i as nat, |k: int| 0u8));
        }
    }

    /// The handshake at the start of the buffer, once all of its bytes are
    /// in: it is decoded and its bytes are marked processed. `None` while
    /// bytes are missing.
    pub fn read_handshake(&mut self) -> (r: Option<Result<Handshake<'_>, Error>>)
        requires
            old(self).wf(),
            old(self).processed_view() == 0,
        ensures
            final(self).wf(),
            final(self).inner_view() == old(self).inner_view(),
            final(self).offset_view() == old(self).offset_view(),
            ({
                let inner = old(self).inner_view();
                let ready = old(self).offset_view() > 0 && old(self).offset_view() >= 49 + inner[0];
                &&& ready ==> (r matches Some(Ok(h)) && handshake_fields_match(h, inner)
                    && final(self).processed_view() == 49 + inner[0])
                &&& !ready ==> (r is None && final(self).processed_view() == old(self).processed_view())
            }),
    {
        if self.offset > 0 {
            let pstr_length = self.inner[0] as usize;
            if self.offset >= Handshake::FIXED_PART_LENGTH + pstr_length {
                self.processed = Handshake::FIXED_PART_LENGTH + pstr_length;
                let handshake = Handshake::decode(self.inner.as_slice());
                return Some(handshake);
            }
        }
        None
    }

    /// The next step of reading a message. The processed bytes are dropped
    /// first. Where the filled bytes hold a whole message after its length
    /// prefix, it is decoded and its bytes marked processed; else the buffer
    /// grows to make room for what is missing: the rest of the message, or
    /// its length prefix.
    pub fn read_message(&mut self) -> (r: MessageStep)
        requires
            old(self).wf(),
            ({
                let p = old(self).pending();
                let len = be_u32_at(p, 0) as int;
                p.len() > 4 && p.len() >= 4 + len ==> !decode_overruns(p.subrange(0, 4 + len))
            }),
            old(self).inner_view().len() + 4 + u32::MAX <= usize::MAX,
        ensures
            final(self).wf(),
            final(self).offset_view() == old(self).offset_view() - old(self).processed_view(),
            final(self).inner_view().subrange(0, final(self).offset_view() as int) == old(self).pending(),
            ({
                let p = old(self).pending();
                let len = be_u32_at(p, 0) as int;
                if p.len() > 4 && p.len() >= 4 + len {
                    &&& r matches MessageStep::Message(m) && decode_result(p.subrange(0, 4 + len), m)
                    &&& final(self).processed_view() == 4 + len
                } else {
                    let needed = if p.len() > 4 {
                        4 + len - p.len()
                    } else {
                        4
                    };
                    &&& r == MessageStep::NeedMore(needed as usize)
                    &&& final(self).processed_view() == 0
                    &&& final(self).inner_view().len() >= p.len() + needed
                }
            }),
    {
        self.reset_processed();
        let bytes_left = if self.offset > BittorrentP2pMessage::FIXED_PART_LENGTH {
            let message_length = read_be_u32(self.inner.as_slice(), 0) as usize;
            let total = BittorrentP2pMessage::FIXED_PART_LENGTH + message_length;
            if total <= self.offset {
                proof {
                    assert(self.inner@.subrange(0, total as int) =~= old(self).pending().subrange(
                        0,
                        total as int,
                    ));
                    assert(self.inner@.subrange(0, 4) =~= old(self).pending().subrange(0, 4));
                }
                let message = BittorrentP2pMessage::decode(
                    vstd::slice::slice_subrange(self.inner.as_slice(), 0, total),
                );
                self.processed = total;
                return MessageStep::Message(message);
            }
            total - self.offset
        } else {
            BittorrentP2pMessage::FIXED_PART_LENGTH
        };
        if self.offset + bytes_left > self.inner.len() {
            let to_add = self.offset + bytes_left - self.inner.len();
            self.resize_inner(to_add);
        }
        MessageStep::NeedMore(bytes_left)
    }
}

/// What finding the length of the next frame needs.
#[derive(Clone, Copy, Debug, PartialEq, Eq, Structural)]
pub enum FrameStep {
    /// The frame, this many bytes long, is filled.
    Ready(usize),
    /// This many more bytes must be read first.
    Read(usize),
}

/// A buffer of bytes read from a stream, filled from the front.
pub struct Frame {
    inner: Vec<u8>,
    offset: usize,
}

impl Frame {
    const DEFAULT_BUFFER_CAPACITY: usize = 32768;

    pub closed spec fn inner_view(&self) -> Seq<u8> {
        self.inner@
    }

    pub closed spec fn offset_view(&self) -> nat {
        self.offset as nat
    }

    /// An empty frame of the default size.
    pub fn new() -> (r: Self)
        ensures
            r.inner_view() == Seq::new(32768, |i: int| 0u8),
            r.offset_view() == 0,
    {
        let inner = vec![0u8; Self::DEFAULT_BUFFER_CAPACITY];
        assert(inner@ =~= Seq::new(32768, |i: int| 0u8));
        Frame { inner, offset: 0 }
    }

    /// The length of the message at the front, length prefix included,
    /// where all of it is filled; else how many bytes to read: the length
    /// prefix while it is not filled, then the rest of the message.
    pub fn find_message_length(&self) -> (r: FrameStep)
        requires
            self.offset_view() <= self.inner_view().len(),
            4 + u32::MAX <= usize::MAX,
        ensures
            ({
                let filled = self.offset_view();
                let total = 4 + be_u32_at(self.inner_view(), 0);
                if filled < 4 {
                    r == FrameStep::Read(4)
                } else if filled < total {
                    r == FrameStep::Read((total - filled) as usize)
                } else {
                    r == FrameStep::Ready(total as usize)
                }
            }),
    {
        if self.offset < 4 {
            return FrameStep::Read(4);
        }
        let total = 4 + read_be_u32(self.inner.as_slice(), 0) as usize;
        if self.offset < total {
            FrameStep::Read(total - self.offset)
        } else {
            FrameStep::Ready(total)
        }
    }

    /// The length of the handshake at the front where all of it is filled;
    /// else how many bytes to read: its first byte while none is filled,
    /// then the rest of it.
    pub fn find_handshake_length(&self) -> (r: FrameStep)
        requires
            self.offset_view() <= self.inner_view().len(),
        ensures
            ({
                let filled = self.offset_view();
                let total = 49 + self.inner_view()[0];
                if filled == 0 {
                    r == FrameStep::Read(1)
                } else if filled < total {
                    r == FrameStep::Read((total - filled) as usize)
                } else {
                    r == FrameStep::Ready(total as usize)
                }
            }),
    {
        if self.offset == 0 {
            return FrameStep::Read(1);
        }
        let total = Handshake::FIXED_PART_LENGTH + self.inner[0] as usize;
        if self.offset < total {
            FrameStep::Read(total - self.offset)
        } else {
            FrameStep::Ready(total)
        }
    }

    /// The number of filled bytes.
    pub fn len(&self) -> (r: usize)
        ensures
            r == self.offset_view(),
    {
        self.offset
    }

    pub fn is_empty(&self) -> (r: bool)
        ensures
            r == (self.offset_view() == 0),
    {
        self.offset == 0
    }

    /// Takes `length` filled bytes: the count of filled bytes drops by
    /// `length`, and the first `length` bytes of the buffer are returned.
    /// `None` where fewer bytes are filled.
    pub fn read_bytes(&mut self, length: usize) -> (r: Option<&[u8]>)
        requires
            old(self).offset_view() <= old(self).inner_view().len(),
        ensures
            final(self).inner_view() == old(self).inner_view(),
            length > old(self).offset_view() ==> r is None && final(self).offset_view()
                == old(self).offset_view(),
            length <= old(self).offset_view() ==> (r matches Some(b) && b@ == old(
                self,
            ).inner_view().subrange(0, length as int) && final(self).offset_view() == old(
                self,
            ).offset_view() - length),
    {
        if length > self.len() {
            return None;
        }
        self.offset = self.offset - length;
        Some(vstd::slice::slice_subrange(self.inner.as_slice(), 0, length))
    }

    /// The first `length` bytes of the buffer, filled or not; `None` where
    /// the buffer is shorter.
    pub fn peek_bytes(&self, length: usize) -> (r: Option<&[u8]>)
        ensures
            length > self.inner_view().len() ==> r is None,
            length <= self.inner_view().len() ==> (r matches Some(b) && b@
                == self.inner_view().subrange(0, length as int)),
    {
        if length > self.inner.len() {
            None
        } else {
            Some(vstd::slice::slice_subrange(self.inner.as_slice(), 0, length))
        }
    }

    /// Counts `size` more bytes as filled.
    pub fn advance_offset(&mut self, size: usize)
        requires
            old(self).offset_view() + size <= usize::MAX,
        ensures
            final(self).offset_view() == old(self).offset_view() + size,
            final(self).inner_view() == old(self).inner_view(),
    {
        self.offset = self.offset + size;
    }

    /// The `size` bytes of the buffer right after the filled ones, to read
    /// into; the filled count stays.
    pub fn get_buf_of_size(&mut self, size: usize) -> (r: &mut [u8])
        requires
            old(self).offset_view() + size <= old(self).inner_view().len(),
        ensures
            r@ == old(self).inner_view().subrange(
                old(self).offset_view() as int,
                old(self).offset_view() + size,
            ),
            final(self).offset_view() == old(self).offset_view(),
            final(self).inner_view() == old(self).inner_view().subrange(0, old(self).offset_view() as int)
                + final(r)@ + old(self).inner_view().subrange(
                old(self).offset_view() + size,
                old(self).inner_view().len() as int,
            ),
    {
        let offset = self.offset;
        let (_, rest) = self.inner.as_mut_slice().split_at_mut(offset);
        let (buf, _) = rest.split_at_mut(size);
        buf
    }
}

} // verus!
