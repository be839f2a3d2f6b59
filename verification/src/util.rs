use rand::distributions::Alphanumeric;
use rand::Rng;
use vstd::prelude::*;

use crate::bencode::grammar::{ascii_chars, lemma_ascii_decode};
use crate::utf8::string_from_utf8;

verus! {

/// The size in bytes of piece `idx` of a torrent of `total_length` bytes cut
/// into `number_of_pieces` pieces of `piece_size` bytes: every piece is
/// `piece_size` long except the last, which holds what is left over.
pub open spec fn spec_piece_size(
    number_of_pieces: nat,
    total_length: nat,
    piece_size: nat,
    idx: nat,
) -> nat {
    if idx + 1 == number_of_pieces && total_length % piece_size != 0 {
        total_length % piece_size
    } else {
        piece_size
    }
}

/// Returns the size of the piece at `idx`.
pub fn piece_size_from_idx(
    number_of_pieces: usize,
    total_length: usize,
    piece_size: usize,
    idx: usize,
) -> (size: usize)
    requires
        number_of_pieces >= 1,
        idx + 1 == number_of_pieces ==> piece_size > 0,
    ensures
        size == spec_piece_size(
            number_of_pieces as nat,
            total_length as nat,
            piece_size as nat,
            idx as nat,
        ),
{
    let size = if number_of_pieces - 1 == idx {
        let remainder = total_length % piece_size;
        if remainder == 0 {
            piece_size
        } else {
            remainder
        }
    } else {
        piece_size
    };
    size
}

/// The total size of the first `k` of `number_of_pieces` pieces.
pub open spec fn pieces_size_upto(number_of_pieces: nat, total_length: nat, piece_size: nat, k: nat) -> nat
    decreases k,
{
    if k == 0 {
        0
    } else {
        pieces_size_upto(number_of_pieces, total_length, piece_size, (k - 1) as nat) + spec_piece_size(
            number_of_pieces,
            total_length,
            piece_size,
            (k - 1) as nat,
        )
    }
}

/// Every piece before the last is a whole piece long.
proof fn lemma_whole_pieces_upto(number_of_pieces: nat, total_length: nat, piece_size: nat, k: nat)
    requires
        k < number_of_pieces,
    ensures
        pieces_size_upto(number_of_pieces, total_length, piece_size, k) == k * piece_size,
    decreases k,
{
    if k > 0 {
        let j = (k - 1) as nat;
        lemma_whole_pieces_upto(number_of_pieces, total_length, piece_size, j);
        assert(spec_piece_size(number_of_pieces, total_length, piece_size, j) == piece_size);
        assert(pieces_size_upto(number_of_pieces, total_length, piece_size, k) == pieces_size_upto(
            number_of_pieces,
            total_length,
            piece_size,
            j,
        ) + piece_size);
        assert(j * piece_size + piece_size == k * piece_size) by (nonlinear_arith)
            requires
                j + 1 == k,
        ;
    } else {
        assert(k * piece_size == 0) by (nonlinear_arith)
            requires
                k == 0,
        ;
    }
}

/// Cut into as many pieces as it needs, a torrent's pieces add up to its
/// length: the whole pieces, and the last one with what is left over.
pub proof fn lemma_piece_sizes_add_up(total_length: nat, piece_size: nat)
    requires
        piece_size > 0,
    ensures
        ({
            let n = ((total_length + piece_size - 1) / piece_size as int) as nat;
            pieces_size_upto(n, total_length, piece_size, n) == total_length
        }),
{
    let n = ((total_length + piece_size - 1) / piece_size as int) as nat;
    let q = total_length / piece_size;
    let r = total_length % piece_size;
    assert(total_length == q * piece_size + r) by (nonlinear_arith)
        requires
            piece_size > 0,
            q == total_length / piece_size,
            r == total_length % piece_size,
    ;
    if r == 0 {
        assert(n == q) by (nonlinear_arith)
            requires
                piece_size > 0,
                total_length == q * piece_size,
                n == (total_length + piece_size - 1) / piece_size as int,
        ;
        if n > 0 {
            let j = (n - 1) as nat;
            lemma_whole_pieces_upto(n, total_length, piece_size, j);
            assert(spec_piece_size(n, total_length, piece_size, j) == piece_size);
            assert(pieces_size_upto(n, total_length, piece_size, n) == pieces_size_upto(
                n,
                total_length,
                piece_size,
                j,
            ) + piece_size);
            assert(j * piece_size + piece_size == n * piece_size) by (nonlinear_arith)
                requires
                    j + 1 == n,
            ;
        } else {
            assert(q * piece_size == 0) by (nonlinear_arith)
                requires
                    q == 0,
            ;
        }
    } else {
        assert(n == q + 1) by (nonlinear_arith)
            requires
                piece_size > 0,
                0 < r < piece_size,
                total_length == q * piece_size + r,
                n == (total_length + piece_size - 1) / piece_size as int,
        ;
        lemma_whole_pieces_upto(n, total_length, piece_size, q);
        assert(spec_piece_size(n, total_length, piece_size, q) == r);
        assert(pieces_size_upto(n, total_length, piece_size, n) == pieces_size_upto(
            n,
            total_length,
            piece_size,
            q,
        ) + r);
    }
}

/// An ASCII letter or digit.
pub open spec fn is_alphanumeric(b: u8) -> bool {
    (48 <= b <= 57) || (65 <= b <= 90) || (97 <= b <= 122)
}

/// `RustyBit-`
pub open spec fn id_prefix() -> Seq<u8> {
    seq![82u8, 117, 115, 116, 121, 66, 105, 116, 45]
}

/// A client or node id: the prefix, then eleven ASCII letters or digits.
pub open spec fn is_client_id(id: Seq<u8>) -> bool {
    &&& id.len() == 20
    &&& id.subrange(0, 9) == id_prefix()
    &&& forall|i: int| 9 <= i < 20 ==> is_alphanumeric(#[trigger] id[i])
}

/// Calls `rand::thread_rng` and samples `Alphanumeric` from it: a random
/// ASCII letter or digit.
#[verifier::external_body]
fn sample_alphanumeric() -> (r: u8)
    ensures
        is_alphanumeric(r),
{
    rand::thread_rng().sample(Alphanumeric)
}

/// A random id: the prefix and eleven random letters or digits.
fn generate_id_bytes() -> (r: [u8; 20])
    ensures
        is_client_id(r@),
{
    let mut id = [82u8, 117, 115, 116, 121, 66, 105, 116, 45, 0, 0, 0, 0, 0, 0, 0, 0, 0, 0, 0];
    let mut idx: usize = 9;
    while idx < 20
        invariant
            9 <= idx <= 20,
            id@.len() == 20,
            id@.subrange(0, 9) == id_prefix(),
            forall|i: int| 9 <= i < idx ==> is_alphanumeric(#[trigger] id@[i]),
        decreases 20 - idx,
    {
        let c = sample_alphanumeric();
        id[idx] = c;
        assert(id@.subrange(0, 9) =~= id_prefix());
        idx = idx + 1;
    }
    id
}

/// A random peer id: `RustyBit-` and eleven random letters or digits.
pub fn generate_peer_id() -> (r: String)
    ensures
        exists|id: Seq<u8>| is_client_id(id) && r@ == ascii_chars(id),
{
    let id = generate_id_bytes();
    let bytes = vstd::slice::slice_to_vec(id.as_slice());
    proof {
        assert forall|i: int| 0 <= i < bytes@.len() implies #[trigger] bytes@[i] < 128 by {
            if i < 9 {
                assert(bytes@[i] == id_prefix()[i]);
            }
        }
        lemma_ascii_decode(bytes@);
    }
    match string_from_utf8(bytes) {
        Ok(s) => s,
        Err(_) => String::new(),
    }
}

/// A random DHT node id: `RustyBit-` and eleven random letters or digits.
pub fn generate_node_id() -> (r: [u8; 20])
    ensures
        is_client_id(r@),
{
    generate_id_bytes()
}

} // verus!
