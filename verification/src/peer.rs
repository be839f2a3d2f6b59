//! The decisions of a connection to one peer: what each incoming message
//! changes, which block requests to queue, send and cancel, and when to say
//! that the client is interested. The messages to send are written to an
//! output buffer that the caller flushes to the connection.

use std::collections::VecDeque;
use vstd::prelude::*;

use crate::protocol::bitfield::{bitfield_bits, Bitfield};
use crate::protocol::message::{spec_encode_message, BittorrentP2pMessage, Block, BlockRequest};
use crate::state::torrent::downloading_by;
use crate::state::{PeerAddr, PeerEvent, PieceState, SystemEvent, TorrentSharedState};
use crate::torrent::TorrentMeta;
use crate::util::{piece_size_from_idx, spec_piece_size};

verus! {

/// The size of the blocks that pieces are requested in.
pub const DEFAULT_BLOCK_SIZE: u32 = 16384;

/// How many block requests may wait for an answer at once.
pub const MAX_PENDING_BLOCK_REQUESTS: usize = 20;

/// Why handling a peer failed.
#[derive(Debug, Clone, Copy, PartialEq, Eq)]
pub enum PeerError {
    /// The peer announced a piece before it sent its bitfield.
    HaveBeforeBitfield,
    /// The peer sent a block while no request was open.
    UnexpectedBlock,
    /// A piece index names no piece.
    BadPieceIndex,
    /// A piece that this peer was downloading went back to the queue.
    PieceRequeued,
}

/// The requests for the `left` bytes of piece `index` from offset `begin`
/// on, in blocks of the default size, the last one shorter.
pub open spec fn block_requests_from(index: u32, begin: nat, left: nat) -> Seq<BlockRequest>
    decreases left,
{
    if left == 0 {
        Seq::empty()
    } else {
        let len: nat = if left < DEFAULT_BLOCK_SIZE {
            left
        } else {
            DEFAULT_BLOCK_SIZE as nat
        };
        seq![BlockRequest { index, begin: begin as u32, length: len as u32 }]
            + block_requests_from(index, begin + len, (left - len) as nat)
    }
}

/// The requests for `left` bytes from `begin` on cover them exactly, in
/// order: request `k` asks for the bytes `16384 * k` past `begin`, all
/// blocks are 16384 bytes long but the last, which holds what is left, and
/// there are as many as it takes.
pub proof fn lemma_block_requests_cover(index: u32, begin: nat, left: nat)
    requires
        begin + left <= u32::MAX,
    ensures
        ({
            let r = block_requests_from(index, begin, left);
            &&& r.len() == (left + 16383) / 16384
            &&& forall|k: int|
                0 <= k < r.len() ==> {
                    &&& (#[trigger] r[k]).index == index
                    &&& r[k].begin == begin + 16384 * k
                    &&& r[k].length == (if left - 16384 * k < 16384 {
                        left - 16384 * k
                    } else {
                        16384
                    })
                    &&& r[k].length > 0
                }
        }),
    decreases left,
{
    if left > 0 {
        let len: nat = if left < 16384 {
            left
        } else {
            16384
        };
        lemma_block_requests_cover(index, begin + len, (left - len) as nat);
        let r = block_requests_from(index, begin, left);
        let rest = block_requests_from(index, begin + len, (left - len) as nat);
        assert(r == seq![BlockRequest { index, begin: begin as u32, length: len as u32 }] + rest);
        if left < 16384 {
            assert(rest.len() == 0);
        }
        assert forall|k: int| 0 <= k < r.len() implies {
            &&& (#[trigger] r[k]).index == index
            &&& r[k].begin == begin + 16384 * k
            &&& r[k].length == (if left - 16384 * k < 16384 {
                left - 16384 * k
            } else {
                16384
            })
            &&& r[k].length > 0
        } by {
            if k > 0 {
                assert(r[k] == rest[k - 1]);
            }
        }
    }
}

/// The requests that cover piece `index` of `size` bytes.
pub open spec fn block_requests(index: u32, size: u32) -> Seq<BlockRequest> {
    block_requests_from(index, 0, size as nat)
}

/// The request messages for some block requests, one after the other.
pub open spec fn encode_requests(reqs: Seq<BlockRequest>) -> Seq<u8>
    decreases reqs.len(),
{
    if reqs.len() == 0 {
        Seq::empty()
    } else {
        encode_requests(reqs.drop_last()) + spec_encode_message(
            BittorrentP2pMessage::Request {
                index: reqs.last().index,
                begin: reqs.last().begin,
                length: reqs.last().length,
            },
        )
    }
}

/// The cancel messages for some block requests, one after the other.
pub open spec fn encode_cancels(reqs: Seq<BlockRequest>) -> Seq<u8>
    decreases reqs.len(),
{
    if reqs.len() == 0 {
        Seq::empty()
    } else {
        encode_cancels(reqs.drop_last()) + spec_encode_message(
            BittorrentP2pMessage::Cancel {
                index: reqs.last().index,
                begin: reqs.last().begin,
                length: reqs.last().length,
            },
        )
    }
}

/// The requests not for piece `piece`, in their order.
pub open spec fn other_pieces(reqs: Seq<BlockRequest>, piece: u32) -> Seq<BlockRequest>
    decreases reqs.len(),
{
    if reqs.len() == 0 {
        Seq::empty()
    } else {
        let rest = other_pieces(reqs.drop_last(), piece);
        if reqs.last().index != piece {
            rest.push(reqs.last())
        } else {
            rest
        }
    }
}

/// The positions of the requests for piece `piece` among the first `k`, in
/// increasing order.
pub open spec fn positions_of(reqs: Seq<BlockRequest>, piece: u32, k: int) -> Seq<int>
    decreases k,
{
    if k <= 0 {
        Seq::empty()
    } else {
        let rest = positions_of(reqs, piece, k - 1);
        if reqs[k - 1].index == piece {
            rest.push(k - 1)
        } else {
            rest
        }
    }
}

/// `Vec::swap_remove`: the last element takes the place of element `i`.
pub open spec fn swap_removed<T>(v: Seq<T>, i: int) -> Seq<T> {
    v.update(i, v.last()).drop_last()
}

/// The sent requests and the cancelled ones after the first `k` of the
/// removals at `positions`: removal `j` takes out, by swapping with the
/// last, the request at `positions[j] - j`.
pub open spec fn apply_cancels(sent: Seq<BlockRequest>, positions: Seq<int>, k: int) -> (Seq<
    BlockRequest,
>, Seq<BlockRequest>)
    decreases k,
{
    if k <= 0 {
        (sent, Seq::empty())
    } else {
        let (rest, cancelled) = apply_cancels(sent, positions, k - 1);
        let at = positions[k - 1] - (k - 1);
        (swap_removed(rest, at), cancelled.push(rest[at]))
    }
}

/// What cancelling piece `piece` does to the queued and the sent requests,
/// and the cancel messages that it writes.
pub open spec fn cancel_effect(queue: Seq<BlockRequest>, sent: Seq<BlockRequest>, piece: u32) -> (Seq<
    BlockRequest,
>, Seq<BlockRequest>, Seq<u8>) {
    let positions = positions_of(sent, piece, sent.len() as int);
    let (rest, cancelled) = apply_cancels(sent, positions, positions.len() as int);
    (other_pieces(queue, piece), rest, encode_cancels(cancelled))
}

/// The first sent request, from position `k` on, for the block at `begin`
/// of piece `index`.
pub open spec fn find_request(sent: Seq<BlockRequest>, index: u32, begin: u32, k: int) -> Option<int>
    decreases sent.len() - k,
{
    if k < 0 || k >= sent.len() {
        None
    } else if sent[k].index == index && sent[k].begin == begin {
        Some(k)
    } else {
        find_request(sent, index, begin, k + 1)
    }
}

/// The requests for all blocks of the given pieces, piece after piece.
pub open spec fn requests_for(pieces: Seq<(u32, Option<PeerAddr>)>, meta: TorrentMeta) -> Seq<
    BlockRequest,
>
    decreases pieces.len(),
{
    if pieces.len() == 0 {
        Seq::empty()
    } else {
        requests_for(pieces.drop_last(), meta) + block_requests(
            pieces.last().0,
            spec_piece_size(
                meta.number_of_pieces as nat,
                meta.total_length as nat,
                meta.piece_size as nat,
                pieces.last().0 as nat,
            ) as u32,
        )
    }
}

/// Whether the handler should ask the torrent for pieces now: the peer does
/// not choke it, its pieces are known, the queue has room, and the client is
/// interested or was told to try again.
pub open spec fn wants_pieces(h: PeerHandler) -> bool {
    &&& !h.peer_choked
    &&& h.present_pieces is Some
    &&& h.block_requests_queue@.len() < MAX_PENDING_BLOCK_REQUESTS
    &&& (h.client_interested || h.try_get_piece)
}

/// The ceiling of `piece_size / DEFAULT_BLOCK_SIZE`.
pub open spec fn blocks_per_piece(piece_size: int) -> int {
    piece_size / DEFAULT_BLOCK_SIZE as int + if piece_size % DEFAULT_BLOCK_SIZE as int != 0 {
        1int
    } else {
        0
    }
}

/// Two handlers that differ at most in their request lists.
pub open spec fn same_but_requests(a: PeerHandler, b: PeerHandler) -> bool {
    &&& a.torrent_metadata == b.torrent_metadata
    &&& a.present_pieces == b.present_pieces
    &&& a.peer_addr == b.peer_addr
    &&& a.client_interested == b.client_interested
    &&& a.client_choked == b.client_choked
    &&& a.peer_interested == b.peer_interested
    &&& a.peer_choked == b.peer_choked
    &&& a.try_get_piece == b.try_get_piece
}

/// What handling `message` does: the handler goes from `h0` to `h1`, the
/// output from `out0` to `out1`, and `r` comes back (see
/// `PeerHandler::handle_message`).
pub open spec fn message_handled(
    h0: PeerHandler,
    h1: PeerHandler,
    state: TorrentSharedState,
    message: BittorrentP2pMessage,
    out0: Seq<u8>,
    out1: Seq<u8>,
    r: Result<Option<PeerEvent>, PeerError>,
) -> bool {
    match message {
        BittorrentP2pMessage::Choke => r == Ok::<Option<PeerEvent>, PeerError>(None)
            && h1.peer_choked && same_but_requests(
            PeerHandler { peer_choked: true, ..h0 },
            h1,
        ) && h1.sent_block_requests@.len() == 0
            && h1.block_requests_queue@ == h0.sent_block_requests@ + h0.block_requests_queue@ && out1 == out0,
        BittorrentP2pMessage::Unchoke => r == Ok::<Option<PeerEvent>, PeerError>(None)
            && h1 == (PeerHandler { peer_choked: false, ..h0 })
            && out1 == out0,
        BittorrentP2pMessage::Interested => r == Ok::<Option<PeerEvent>, PeerError>(None)
            && h1 == (PeerHandler { peer_interested: true, ..h0 })
            && out1 == out0,
        BittorrentP2pMessage::NotInterested => r == Ok::<Option<PeerEvent>, PeerError>(
            None,
        ) && h1 == (PeerHandler { peer_interested: false, ..h0 })
            && out1 == out0,
        BittorrentP2pMessage::Have(i) => match h0.present_pieces {
            None => r == Err::<Option<PeerEvent>, PeerError>(
                PeerError::HaveBeforeBitfield,
            ) && h1 == h0 && out1 == out0,
            Some(b) => r == Ok::<Option<PeerEvent>, PeerError>(None) && (h1.present_pieces matches Some(b2) && bitfield_bits(b2) == bitfield_bits(
                b,
            ).update(i as int, true)) && h1.try_get_piece && h1.client_interested == h0.client_interested && h1.peer_choked
                == h0.peer_choked && h1.block_requests_queue
                == h0.block_requests_queue && h1.sent_block_requests
                == h0.sent_block_requests && out1 == out0,
        },
        BittorrentP2pMessage::Bitfield(b) => {
            let n = state.pieces_view().len();
            &&& r == Ok::<Option<PeerEvent>, PeerError>(None)
            &&& h1.present_pieces matches Some(b2) && bitfield_bits(b2) == (if n
                < bitfield_bits(b).len() {
                bitfield_bits(b).take(n as int)
            } else {
                bitfield_bits(b)
            })
            &&& h1.client_interested
            &&& h1.peer_choked == h0.peer_choked
            &&& h1.try_get_piece == h0.try_get_piece
            &&& h1.block_requests_queue == h0.block_requests_queue
            &&& h1.sent_block_requests == h0.sent_block_requests
            &&& out1 == out0 + spec_encode_message(
                BittorrentP2pMessage::Unchoke,
            ) + spec_encode_message(BittorrentP2pMessage::Interested)
        },
        BittorrentP2pMessage::Piece { index, begin, block } => {
            let sent = h0.sent_block_requests@;
            let queue = h0.block_requests_queue@;
            if sent.len() == 0 {
                &&& r == Err::<Option<PeerEvent>, PeerError>(PeerError::UnexpectedBlock)
                &&& h1 == h0
                &&& out1 == out0
            } else {
                &&& same_but_requests(h1, h0)
                &&& match find_request(sent, index, begin, 0) {
                    None => {
                        let (q, s, out) = cancel_effect(queue, sent, index);
                        &&& r == Ok::<Option<PeerEvent>, PeerError>(None)
                        &&& h1.block_requests_queue@ == q
                        &&& h1.sent_block_requests@ == s
                        &&& out1 == out0 + out
                    },
                    Some(p) => {
                        let sent1 = sent.remove(p);
                        let pieces = state.pieces_view();
                        if index >= pieces.len() {
                            &&& r == Err::<Option<PeerEvent>, PeerError>(
                                PeerError::BadPieceIndex,
                            )
                            &&& h1.block_requests_queue@ == queue
                            &&& h1.sent_block_requests@ == sent1
                            &&& out1 == out0
                        } else if downloading_by(pieces, index as int, h0.peer_addr) {
                            &&& r == Ok::<Option<PeerEvent>, PeerError>(
                                Some(PeerEvent::BlockDownloaded(Block { index, begin, block })),
                            )
                            &&& h1.block_requests_queue@ == queue
                            &&& h1.sent_block_requests@ == sent1
                            &&& out1 == out0
                        } else if pieces[index as int] == PieceState::Queued {
                            &&& r == Err::<Option<PeerEvent>, PeerError>(
                                PeerError::PieceRequeued,
                            )
                            &&& h1.block_requests_queue@ == queue
                            &&& h1.sent_block_requests@ == sent1
                            &&& out1 == out0
                        } else {
                            let (q, s, out) = cancel_effect(queue, sent1, index);
                            &&& r == Ok::<Option<PeerEvent>, PeerError>(None)
                            &&& h1.block_requests_queue@ == q
                            &&& h1.sent_block_requests@ == s
                            &&& out1 == out0 + out
                        }
                    },
                }
            }
        },
        _ => r == Ok::<Option<PeerEvent>, PeerError>(None) && h1 == h0
            && out1 == out0,
    }
}

/// One peer connection's state.
pub struct PeerHandler {
    pub peer_addr: PeerAddr,
    /// All a peer handler needs to know of the torrent.
    pub torrent_metadata: TorrentMeta,
    /// The pieces that the peer has.
    pub present_pieces: Option<Bitfield>,
    /// Requests to send once earlier ones are answered.
    pub block_requests_queue: VecDeque<BlockRequest>,
    /// Requests sent and not answered yet.
    pub sent_block_requests: Vec<BlockRequest>,
    /// Whether the client is interested in the peer.
    pub client_interested: bool,
    /// Whether the client chokes the peer.
    pub client_choked: bool,
    /// Whether the peer is interested in the client.
    pub peer_interested: bool,
    /// Whether the peer chokes the client.
    pub peer_choked: bool,
    /// Whether to ask the peer for pieces again.
    pub try_get_piece: bool,
}

/// Writes a message to the output.
fn write_message(output: &mut Vec<u8>, m: &BittorrentP2pMessage)
    requires
        crate::protocol::message::spec_length(*m) <= u32::MAX,
    ensures
        final(output)@ == old(output)@ + spec_encode_message(*m),
{
    let _ = m.encode(output);
}

impl PeerHandler {
    /// A fresh connection: both sides choked, neither interested, nothing
    /// known of the peer's pieces, no requests.
    pub fn new(torrent_metadata: TorrentMeta, peer_addr: PeerAddr) -> (r: Self)
        ensures
            r.peer_addr == peer_addr,
            r.torrent_metadata == torrent_metadata,
            r.present_pieces is None,
            r.block_requests_queue@ == Seq::<BlockRequest>::empty(),
            r.sent_block_requests@ == Seq::<BlockRequest>::empty(),
            r.client_choked && r.peer_choked,
            !r.client_interested && !r.peer_interested && !r.try_get_piece,
    {
        PeerHandler {
            peer_addr,
            block_requests_queue: VecDeque::with_capacity(10),
            sent_block_requests: Vec::with_capacity(MAX_PENDING_BLOCK_REQUESTS),
            torrent_metadata,
            client_choked: true,
            peer_choked: true,
            present_pieces: None,
            client_interested: false,
            peer_interested: false,
            try_get_piece: false,
        }
    }

    /// The number of blocks in a piece, rounded up.
    pub fn get_blocks_per_piece(&self) -> (r: usize)
        ensures
            r == blocks_per_piece(self.torrent_metadata.piece_size as int),
    {
        let piece_block_size = DEFAULT_BLOCK_SIZE as usize;
        self.torrent_metadata.piece_size / piece_block_size + if self.torrent_metadata.piece_size
            % piece_block_size != 0 {
            1
        } else {
            0
        }
    }

    /// Queues the requests for all blocks of piece `index`, in order.
    pub fn add_block_requests_for_piece(&mut self, index: u32)
        requires
            old(self).torrent_metadata.number_of_pieces >= 1,
            index as int + 1 == old(self).torrent_metadata.number_of_pieces ==> old(self).torrent_metadata.piece_size > 0,
        ensures
            final(self).block_requests_queue@ == old(self).block_requests_queue@ + block_requests(
                index,
                spec_piece_size(
                    old(self).torrent_metadata.number_of_pieces as nat,
                    old(self).torrent_metadata.total_length as nat,
                    old(self).torrent_metadata.piece_size as nat,
                    index as nat,
                ) as u32,
            ),
            final(self).sent_block_requests@ == old(self).sent_block_requests@,
            same_but_requests(*final(self), *old(self)),
    {
        let size = piece_size_from_idx(
            self.torrent_metadata.number_of_pieces,
            self.torrent_metadata.total_length,
            self.torrent_metadata.piece_size,
            index as usize,
        );
        let total = size as u32;
        let mut leftover_piece_size = total;
        let mut begin = 0u32;
        let ghost start = self.block_requests_queue@;
        while leftover_piece_size > 0
            invariant
                begin as int + leftover_piece_size as int == total as int,
                self.block_requests_queue@ + block_requests_from(
                    index,
                    begin as nat,
                    leftover_piece_size as nat,
                ) == start + block_requests(index, total),
                self.sent_block_requests@ == old(self).sent_block_requests@,
                same_but_requests(*self, *old(self)),
            decreases leftover_piece_size,
        {
            let length = if DEFAULT_BLOCK_SIZE < leftover_piece_size {
                DEFAULT_BLOCK_SIZE
            } else {
                leftover_piece_size
            };
            let request = BlockRequest { index, begin, length };
            let ghost before = self.block_requests_queue@;
            self.block_requests_queue.push_back(request);
            proof {
                let rest = block_requests_from(
                    index,
                    (begin + length) as nat,
                    (leftover_piece_size - length) as nat,
                );
                assert(block_requests_from(index, begin as nat, leftover_piece_size as nat) == seq![
                    request,
                ] + rest);
                assert(before.push(request) + rest =~= before + (seq![request] + rest));
            }
            leftover_piece_size = leftover_piece_size - length;
            begin = begin + length;
        }
        assert(self.block_requests_queue@ =~= start + block_requests(index, total));
    }

    /// Puts the requests that wait for an answer back in front of the queue,
    /// in the order they were sent: a choking peer drops them unanswered.
    fn requeue_sent_requests(&mut self)
        ensures
            same_but_requests(*final(self), *old(self)),
            final(self).sent_block_requests@.len() == 0,
            final(self).block_requests_queue@ == old(self).sent_block_requests@ + old(self).block_requests_queue@,
    {
        let ghost sent = self.sent_block_requests@;
        let ghost queue = self.block_requests_queue@;
        while self.sent_block_requests.len() > 0
            invariant
                same_but_requests(*self, *old(self)),
                sent == old(self).sent_block_requests@,
                queue == old(self).block_requests_queue@,
                self.sent_block_requests@ == sent.take(self.sent_block_requests@.len() as int),
                self.sent_block_requests@.len() <= sent.len(),
                self.block_requests_queue@ == sent.skip(self.sent_block_requests@.len() as int)
                    + queue,
            decreases self.sent_block_requests@.len(),
        {
            let ghost n = self.sent_block_requests@.len() as int;
            let request = self.sent_block_requests.pop().unwrap();
            self.block_requests_queue.push_front(request);
            proof {
                assert(sent.take(n - 1) =~= sent.take(n).drop_last());
                assert(sent.skip(n - 1) =~= seq![sent[n - 1]] + sent.skip(n));
                assert(seq![request] + (sent.skip(n) + queue) =~= sent.skip(n - 1) + queue);
            }
        }
        assert(sent.skip(0) =~= sent);
    }

    /// Sends queued requests, oldest first, until the requests that wait for
    /// an answer are the most allowed or the queue is empty. While the peer
    /// chokes us it answers no request, so none is sent.
    pub fn send_block_requests(&mut self, output: &mut Vec<u8>)
        requires
            old(self).sent_block_requests@.len() <= MAX_PENDING_BLOCK_REQUESTS,
        ensures
            old(self).peer_choked ==> *final(self) == *old(self) && final(output)@ == old(output)@,
            !old(self).peer_choked ==> ({
                let room = (MAX_PENDING_BLOCK_REQUESTS - old(self).sent_block_requests@.len()) as int;
                let queue = old(self).block_requests_queue@;
                let k = if room < queue.len() {
                    room
                } else {
                    queue.len() as int
                };
                &&& final(self).block_requests_queue@ == queue.skip(k)
                &&& final(self).sent_block_requests@ == old(self).sent_block_requests@ + queue.take(k)
                &&& final(output)@ == old(output)@ + encode_requests(queue.take(k))
            }),
            same_but_requests(*final(self), *old(self)),
    {
        if self.peer_choked {
            return;
        }
        let room = MAX_PENDING_BLOCK_REQUESTS - self.sent_block_requests.len();
        let ghost queue = self.block_requests_queue@;
        let ghost sent = self.sent_block_requests@;
        let ghost out = output@;
        let mut i: usize = 0;
        while i < room
            invariant
                i <= room,
                i <= queue.len(),
                self.block_requests_queue@ == queue.skip(i as int),
                self.sent_block_requests@ == sent + queue.take(i as int),
                output@ == out + encode_requests(queue.take(i as int)),
                queue == old(self).block_requests_queue@,
                sent == old(self).sent_block_requests@,
                out == old(output)@,
                room == MAX_PENDING_BLOCK_REQUESTS - sent.len(),
                same_but_requests(*self, *old(self)),
            ensures
                ({
                    let k = if room < queue.len() {
                        room as int
                    } else {
                        queue.len() as int
                    };
                    &&& self.block_requests_queue@ == queue.skip(k)
                    &&& self.sent_block_requests@ == sent + queue.take(k)
                    &&& output@ == out + encode_requests(queue.take(k))
                }),
                same_but_requests(*self, *old(self)),
            decreases room - i,
        {
            match self.block_requests_queue.pop_front() {
                Some(request) => {
                    proof {
                        assert(queue[i as int] == request);
                        assert(queue.skip(i + 1) =~= queue.skip(i as int).drop_first());
                        assert(queue.take(i + 1) =~= queue.take(i as int).push(request));
                        assert(queue.take(i + 1).drop_last() =~= queue.take(i as int));
                    }
                    write_message(
                        output,
                        &BittorrentP2pMessage::Request {
                            index: request.index,
                            begin: request.begin,
                            length: request.length,
                        },
                    );
                    self.sent_block_requests.push(request);
                    i = i + 1;
                },
                None => {
                    break ;
                },
            }
        }
    }

    /// Drops the queued requests for piece `piece_idx` and cancels the sent
    /// ones: each one at its position, less the number cancelled before it,
    /// is swapped out and a cancel message is written for what was there.
    pub fn cancel_block_requests_for_piece(&mut self, piece_idx: u32, output: &mut Vec<u8>)
        ensures
            ({
                let (queue, sent, out) = cancel_effect(
                    old(self).block_requests_queue@,
                    old(self).sent_block_requests@,
                    piece_idx,
                );
                &&& final(self).block_requests_queue@ == queue
                &&& final(self).sent_block_requests@ == sent
                &&& final(output)@ == old(output)@ + out
            }),
            same_but_requests(*final(self), *old(self)),
    {
        let ghost queue = self.block_requests_queue@;
        let n = self.block_requests_queue.len();
        let mut kept: VecDeque<BlockRequest> = VecDeque::new();
        let mut i: usize = 0;
        while i < n
            invariant
                n == queue.len(),
                queue == old(self).block_requests_queue@,
                self.sent_block_requests@ == old(self).sent_block_requests@,
                same_but_requests(*self, *old(self)),
                i <= n,
                self.block_requests_queue@ == queue.skip(i as int),
                kept@ == other_pieces(queue.take(i as int), piece_idx),
            decreases n - i,
        {
            let r = self.block_requests_queue.pop_front().unwrap();
            proof {
                assert(queue[i as int] == r);
                assert(queue.skip(i + 1) =~= queue.skip(i as int).drop_first());
                assert(queue.take(i + 1).drop_last() =~= queue.take(i as int));
            }
            if r.index != piece_idx {
                kept.push_back(r);
            }
            i = i + 1;
        }
        assert(queue.take(n as int) =~= queue);
        self.block_requests_queue = kept;
        let ghost sent = self.sent_block_requests@;
        let mut requests_to_cancel: Vec<usize> = Vec::new();
        let mut j: usize = 0;
        while j < self.sent_block_requests.len()
            invariant
                self.sent_block_requests@ == sent,
                sent == old(self).sent_block_requests@,
                self.block_requests_queue@ == other_pieces(old(self).block_requests_queue@, piece_idx),
                same_but_requests(*self, *old(self)),
                j <= sent.len(),
                requests_to_cancel@.len() == positions_of(sent, piece_idx, j as int).len(),
                forall|m: int|
                    0 <= m < requests_to_cancel@.len() ==> requests_to_cancel@[m] as int
                        == #[trigger] positions_of(sent, piece_idx, j as int)[m],
                forall|m: int|
                    0 <= m < requests_to_cancel@.len() ==> #[trigger] requests_to_cancel@[m] < j,
            decreases sent.len() - j,
        {
            if self.sent_block_requests[j].index == piece_idx {
                requests_to_cancel.push(j);
            }
            j = j + 1;
        }
        let ghost positions = positions_of(sent, piece_idx, sent.len() as int);
        let ghost out = output@;
        proof {
            lemma_positions_increasing(sent, piece_idx, sent.len() as int);
        }
        let mut offset: usize = 0;
        while offset < requests_to_cancel.len()
            invariant
                sent == old(self).sent_block_requests@,
                out == old(output)@,
                positions == positions_of(sent, piece_idx, sent.len() as int),
                self.block_requests_queue@ == other_pieces(old(self).block_requests_queue@, piece_idx),
                same_but_requests(*self, *old(self)),
                offset <= requests_to_cancel@.len(),
                requests_to_cancel@.len() == positions.len(),
                forall|m: int|
                    0 <= m < requests_to_cancel@.len() ==> requests_to_cancel@[m] as int
                        == #[trigger] positions[m],
                forall|m: int| 0 <= m < positions.len() ==> 0 <= #[trigger] positions[m] < sent.len(),
                forall|m1: int, m2: int|
                    0 <= m1 < m2 < positions.len() ==> #[trigger] positions[m1] < #[trigger] positions[m2],
                positions.len() <= sent.len(),
                ({
                    let (rest, cancelled) = apply_cancels(sent, positions, offset as int);
                    &&& self.sent_block_requests@ == rest
                    &&& output@ == out + encode_cancels(cancelled)
                    &&& rest.len() == sent.len() - offset
                }),
            decreases requests_to_cancel@.len() - offset,
        {
            let index = requests_to_cancel[offset];
            proof {
                if offset > 0 {
                    assert(positions[offset - 1] < positions[offset as int]);
                }
                lemma_position_bound(positions, offset as int, sent.len() as int);
            }
            let removed = self.sent_block_requests.swap_remove(index - offset);
            proof {
                let (rest, cancelled) = apply_cancels(sent, positions, offset as int);
                assert(self.sent_block_requests@ =~= swap_removed(rest, index - offset));
                assert(cancelled.push(removed).drop_last() =~= cancelled);
            }
            write_message(
                output,
                &BittorrentP2pMessage::Cancel {
                    index: removed.index,
                    begin: removed.begin,
                    length: removed.length,
                },
            );
            offset = offset + 1;
        }
    }

    /// Whether `handle_message` may take `message`: a `have` message must
    /// name a piece within the bitfield that the peer sent, if it sent one.
    pub fn can_handle(&self, message: &BittorrentP2pMessage) -> (r: bool)
        ensures
            r == (*message matches BittorrentP2pMessage::Have(i) ==> (self.present_pieces matches Some(
                b,
            ) ==> i < bitfield_bits(b).len())),
    {
        match message {
            BittorrentP2pMessage::Have(i) => match &self.present_pieces {
                Some(b) => (*i as usize) < b.len(),
                None => true,
            },
            _ => true,
        }
    }

    /// Handles `message` as `handle_message` does where the handler can;
    /// `None`, and nothing changed, where a `Have` names a piece past the
    /// peer's bitfield.
    pub fn try_handle_message(
        &mut self,
        state: &TorrentSharedState,
        message: BittorrentP2pMessage,
        output: &mut Vec<u8>,
    ) -> (r: Option<Result<Option<PeerEvent>, PeerError>>)
        ensures
            match r {
                None => !(message matches BittorrentP2pMessage::Have(i) ==> (old(self).present_pieces matches Some(b) ==> i < bitfield_bits(b).len()))
                    && *final(self) == *old(self) && final(output)@ == old(output)@,
                Some(x) => message_handled(
                    *old(self),
                    *final(self),
                    *state,
                    message,
                    old(output)@,
                    final(output)@,
                    x,
                ),
            },
            r is None <==> !(message matches BittorrentP2pMessage::Have(i) ==> (old(self).present_pieces matches Some(b) ==> i < bitfield_bits(b).len())),
    {
        if !self.can_handle(&message) {
            return None;
        }
        Some(self.handle_message(state, message, output))
    }

    /// What an incoming message changes. Choke, unchoke, interested and not
    /// interested set the peer's flags. `Have` marks the piece in the peer's
    /// bitfield and asks to try for pieces again; an error before the
    /// bitfield came. A bitfield, cut to the torrent's number of pieces,
    /// becomes the peer's pieces, and the client unchokes the peer and says
    /// it is interested. A block answers the sent request for it: where none
    /// was open the piece's requests are cancelled; else the request is
    /// closed, and the block is handed on where this peer still downloads
    /// the piece, the piece's requests are cancelled where another peer took
    /// it over or it is done, and an error where it was queued again. Other
    /// messages change nothing.
    pub fn handle_message(
        &mut self,
        state: &TorrentSharedState,
        message: BittorrentP2pMessage,
        output: &mut Vec<u8>,
    ) -> (r: Result<Option<PeerEvent>, PeerError>)
        requires
            message matches BittorrentP2pMessage::Have(i) ==> (old(self).present_pieces matches Some(
                b,
            ) ==> i < bitfield_bits(b).len()),
        ensures
            message_handled(*old(self), *final(self), *state, message, old(output)@, final(output)@, r),
    {
        match message {
            BittorrentP2pMessage::Choke => {
                self.peer_choked = true;
                self.requeue_sent_requests();
            },
            BittorrentP2pMessage::Unchoke => {
                self.peer_choked = false;
            },
            BittorrentP2pMessage::Interested => {
                self.peer_interested = true;
            },
            BittorrentP2pMessage::NotInterested => {
                self.peer_interested = false;
            },
            BittorrentP2pMessage::Have(piece_idx) => {
                match &mut self.present_pieces {
                    None => return Err(PeerError::HaveBeforeBitfield),
                    Some(bitvec) => {
                        bitvec.set(piece_idx as usize, true);
                    },
                }
                self.try_get_piece = true;
            },
            BittorrentP2pMessage::Bitfield(bitvec) => {
                let mut bitvec = bitvec;
                let n_of_pieces = state.get_number_of_pieces();
                bitvec.truncate(n_of_pieces);
                self.present_pieces = Some(bitvec);
                self.send_chocked(false, output);
                self.send_interested(true, output);
            },
            BittorrentP2pMessage::Piece { index, begin, block } => {
                if self.sent_block_requests.len() == 0 {
                    return Err(PeerError::UnexpectedBlock);
                }
                let ghost sent = self.sent_block_requests@;
                let mut pos: usize = 0;
                let mut found = false;
                while pos < self.sent_block_requests.len()
                    invariant_except_break
                        find_request(sent, index, begin, 0) == find_request(
                            sent,
                            index,
                            begin,
                            pos as int,
                        ),
                        !found,
                    invariant
                        self.sent_block_requests@ == sent,
                        pos <= sent.len(),
                    ensures
                        found ==> pos < sent.len() && find_request(sent, index, begin, 0) == Some(
                            pos as int,
                        ),
                        !found ==> find_request(sent, index, begin, 0) is None,
                        self.sent_block_requests@ == sent,
                    decreases sent.len() - pos,
                {
                    let req = self.sent_block_requests[pos];
                    if req.index == index && req.begin == begin {
                        found = true;
                        break ;
                    }
                    pos = pos + 1;
                }
                if !found {
                    self.cancel_block_requests_for_piece(index, output);
                    return Ok(None);
                }
                self.sent_block_requests.remove(pos);
                match state.get_piece_status(index as usize) {
                    None => return Err(PeerError::BadPieceIndex),
                    Some(PieceState::Downloading { peer, .. }) => {
                        if *peer == self.peer_addr {
                            return Ok(
                                Some(PeerEvent::BlockDownloaded(Block { index, begin, block })),
                            );
                        }
                        self.cancel_block_requests_for_piece(index, output);
                        return Ok(None);
                    },
                    Some(PieceState::Downloaded) | Some(PieceState::Verified) => {
                        self.cancel_block_requests_for_piece(index, output);
                        return Ok(None);
                    },
                    Some(PieceState::Queued) => return Err(PeerError::PieceRequeued),
                }
            },
            _ => {},
        }
        Ok(None)
    }

    /// What a system event changes: a new piece is announced to the peer; a
    /// failed piece that the peer has makes the handler try for pieces again.
    pub fn handle_system_event(&mut self, event: SystemEvent, output: &mut Vec<u8>)
        ensures
            match event {
                SystemEvent::NewPieceAdded(i) => *final(self) == *old(self) && final(output)@
                    == old(output)@ + spec_encode_message(BittorrentP2pMessage::Have(i)),
                SystemEvent::PieceFailed(i) => final(output)@ == old(output)@ && *final(self) == (
                PeerHandler {
                    try_get_piece: old(self).try_get_piece || (old(self).present_pieces matches Some(
                        b,
                    ) && i < bitfield_bits(b).len() && bitfield_bits(b)[i as int]),
                    ..*old(self)
                }),
            },
    {
        match event {
            SystemEvent::NewPieceAdded(piece_idx) => self.send_have_message(piece_idx, output),
            SystemEvent::PieceFailed(piece_idx) => {
                if let Some(present_pieces) = &self.present_pieces {
                    if (piece_idx as usize) < present_pieces.len() && present_pieces.get(
                        piece_idx as usize,
                    ) {
                        self.try_get_piece = true;
                    }
                }
            },
        }
    }

    /// How many pieces to ask the torrent for, where the handler should ask
    /// now: three times the free room in the queue, in pieces, plus one. The
    /// request to try again is then spent.
    pub fn pieces_wanted(&mut self) -> (r: Option<usize>)
        requires
            wants_pieces(*old(self)) ==> old(self).torrent_metadata.piece_size > 0,
        ensures
            wants_pieces(*old(self)) ==> r == Some(
                ((MAX_PENDING_BLOCK_REQUESTS - old(self).block_requests_queue@.len()) * 3
                    / blocks_per_piece(old(self).torrent_metadata.piece_size as int) + 1) as usize,
            ) && *final(self) == (PeerHandler { try_get_piece: false, ..*old(self) }),
            !wants_pieces(*old(self)) ==> r is None && *final(self) == *old(self),
    {
        if !self.peer_choked && self.present_pieces.is_some() && self.block_requests_queue.len()
            < MAX_PENDING_BLOCK_REQUESTS && (self.client_interested || self.try_get_piece) {
            self.try_get_piece = false;
            let need_blocks = MAX_PENDING_BLOCK_REQUESTS - self.block_requests_queue.len();
            let per_piece = self.get_blocks_per_piece();
            Some(need_blocks * 3 / per_piece + 1)
        } else {
            None
        }
    }

    /// Takes the torrent's answer to `pieces_wanted`: queues the requests
    /// for each piece given, and updates the client's interest: interested
    /// where pieces came, else where requests are still queued or open. A
    /// change of interest is told to the peer.
    pub fn on_next_pieces(
        &mut self,
        next_pieces: Option<Vec<(u32, Option<PeerAddr>)>>,
        output: &mut Vec<u8>,
    )
        requires
            next_pieces matches Some(v) ==> old(self).torrent_metadata.number_of_pieces >= 1
                && forall|k: int|
                0 <= k < v@.len() && #[trigger] v@[k].0 as int + 1
                    == old(self).torrent_metadata.number_of_pieces ==> old(self).torrent_metadata.piece_size > 0,
        ensures
            ({
                let queue = match next_pieces {
                    Some(v) => old(self).block_requests_queue@ + requests_for(
                        v@,
                        old(self).torrent_metadata,
                    ),
                    None => old(self).block_requests_queue@,
                };
                let interested = match next_pieces {
                    Some(_) => true,
                    None => old(self).block_requests_queue@.len() > 0
                        || old(self).sent_block_requests@.len() > 0,
                };
                &&& final(self).block_requests_queue@ == queue
                &&& final(self).sent_block_requests@ == old(self).sent_block_requests@
                &&& final(self).client_interested == interested
                &&& final(self).torrent_metadata == old(self).torrent_metadata
                &&& final(self).present_pieces == old(self).present_pieces
                &&& final(self).peer_addr == old(self).peer_addr
                &&& final(self).client_choked == old(self).client_choked
                &&& final(self).peer_interested == old(self).peer_interested
                &&& final(self).peer_choked == old(self).peer_choked
                &&& final(self).try_get_piece == old(self).try_get_piece
                &&& final(output)@ == if interested != old(self).client_interested {
                    old(output)@ + spec_encode_message(
                        if interested {
                            BittorrentP2pMessage::Interested
                        } else {
                            BittorrentP2pMessage::NotInterested
                        },
                    )
                } else {
                    old(output)@
                }
            }),
    {
        let client_interested = match next_pieces {
            Some(piece_indexes) => {
                let ghost start = self.block_requests_queue@;
                let mut k: usize = 0;
                while k < piece_indexes.len()
                    invariant
                        k <= piece_indexes@.len(),
                        self.block_requests_queue@ == start + requests_for(
                            piece_indexes@.take(k as int),
                            self.torrent_metadata,
                        ),
                        start == old(self).block_requests_queue@,
                        self.sent_block_requests@ == old(self).sent_block_requests@,
                        same_but_requests(*self, *old(self)),
                        old(self).torrent_metadata.number_of_pieces >= 1,
                        forall|j: int|
                            0 <= j < piece_indexes@.len() && #[trigger] piece_indexes@[j].0 as int
                                + 1 == old(self).torrent_metadata.number_of_pieces ==> old(self).torrent_metadata.piece_size > 0,
                    decreases piece_indexes@.len() - k,
                {
                    let (index, _) = piece_indexes[k];
                    proof {
                        assert(piece_indexes@.take(k + 1).drop_last() =~= piece_indexes@.take(
                            k as int,
                        ));
                    }
                    let ghost before = self.block_requests_queue@;
                    self.add_block_requests_for_piece(index);
                    proof {
                        assert(self.block_requests_queue@ =~= start + requests_for(
                            piece_indexes@.take(k + 1),
                            self.torrent_metadata,
                        ));
                    }
                    k = k + 1;
                }
                assert(piece_indexes@.take(piece_indexes@.len() as int) =~= piece_indexes@);
                true
            },
            None => self.block_requests_queue.len() > 0 || self.sent_block_requests.len() > 0,
        };
        if self.client_interested != client_interested {
            self.send_interested(client_interested, output);
        }
    }

    /// Says whether the client is interested, and remembers it.
    pub fn send_interested(&mut self, client_interested: bool, output: &mut Vec<u8>)
        ensures
            final(output)@ == old(output)@ + spec_encode_message(
                if client_interested {
                    BittorrentP2pMessage::Interested
                } else {
                    BittorrentP2pMessage::NotInterested
                },
            ),
            *final(self) == (PeerHandler { client_interested, ..*old(self) }),
    {
        if client_interested {
            write_message(output, &BittorrentP2pMessage::Interested);
        } else {
            write_message(output, &BittorrentP2pMessage::NotInterested);
        }
        self.client_interested = client_interested;
    }

    /// Says whether the client chokes the peer. The flag that it sets is the
    /// one for the client's interest.
    pub fn send_chocked(&mut self, client_choked: bool, output: &mut Vec<u8>)
        ensures
            final(output)@ == old(output)@ + spec_encode_message(
                if client_choked {
                    BittorrentP2pMessage::Choke
                } else {
                    BittorrentP2pMessage::Unchoke
                },
            ),
            *final(self) == (PeerHandler { client_interested: client_choked, ..*old(self) }),
    {
        if client_choked {
            write_message(output, &BittorrentP2pMessage::Choke);
        } else {
            write_message(output, &BittorrentP2pMessage::Unchoke);
        }
        self.client_interested = client_choked;
    }

    /// Announces that the client has piece `piece_idx`.
    pub fn send_have_message(&self, piece_idx: u32, output: &mut Vec<u8>)
        ensures
            final(output)@ == old(output)@ + spec_encode_message(
                BittorrentP2pMessage::Have(piece_idx),
            ),
    {
        write_message(output, &BittorrentP2pMessage::Have(piece_idx));
    }

    /// Keeps the connection open.
    pub fn send_keep_alive(&self, output: &mut Vec<u8>)
        ensures
            final(output)@ == old(output)@ + spec_encode_message(BittorrentP2pMessage::KeepAlive),
    {
        write_message(output, &BittorrentP2pMessage::KeepAlive);
    }
}

/// The positions of the requests for a piece are increasing, and lie among
/// the requests.
proof fn lemma_positions_increasing(reqs: Seq<BlockRequest>, piece: u32, k: int)
    requires
        0 <= k <= reqs.len(),
    ensures
        positions_of(reqs, piece, k).len() <= k,
        forall|m: int|
            0 <= m < positions_of(reqs, piece, k).len() ==> 0 <= #[trigger] positions_of(
                reqs,
                piece,
                k,
            )[m] < k,
        forall|m1: int, m2: int|
            0 <= m1 < m2 < positions_of(reqs, piece, k).len() ==> #[trigger] positions_of(
                reqs,
                piece,
                k,
            )[m1] < #[trigger] positions_of(reqs, piece, k)[m2],
    decreases k,
{
    if k > 0 {
        lemma_positions_increasing(reqs, piece, k - 1);
    }
}

/// The `m`-th of increasing positions below `n`, less `m`, lies below
/// `n - m`.
proof fn lemma_position_bound(positions: Seq<int>, m: int, n: int)
    requires
        0 <= m < positions.len(),
        forall|j: int| 0 <= j < positions.len() ==> 0 <= #[trigger] positions[j] < n,
        forall|j1: int, j2: int|
            0 <= j1 < j2 < positions.len() ==> #[trigger] positions[j1] < #[trigger] positions[j2],
    ensures
        m <= positions[m],
        positions[m] - m < n - m,
    decreases m,
{
    if m > 0 {
        lemma_position_bound(positions, m - 1, n);
        assert(positions[m - 1] < positions[m]);
    }
}

} // verus!
