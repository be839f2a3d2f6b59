//! Checking the pieces already on disk against their expected hashes.

use vstd::prelude::*;

use super::util::{
    data_offset, file_chunks, file_holds, files_len, find_file_offsets_for_data,
    lemma_files_len_monotone, lemma_only_reads_after_trans, lemma_reads_only, only_reads_after,
    placed_chunks, read_data, read_data_from_files, read_outcome, reads_follow, FileOffsets,
};
use super::{FileInfo, Storage, StorageError};
use crate::bencode::de::bytes_eq;
use crate::hash::{sha1, sha1_array};
use crate::state::PieceState;
use crate::util::{piece_size_from_idx, spec_piece_size};

verus! {

/// Reads pieces back from storage into a buffer of one piece's length and
/// hashes them.
pub struct PieceHashVerifier {
    piece_length: usize,
    buf: Vec<u8>,
    /// Each piece read back so far: whether all its bytes were there, and
    /// the buffer that was hashed.
    checks: Ghost<Seq<PieceCheck>>,
    /// Each piece that could not be read back so far, and the error.
    failures: Ghost<Seq<(u32, StorageError)>>,
}

/// A piece read back: which piece, how many of its bytes were read, whether
/// they all were there, and the buffer that was hashed.
pub struct PieceCheck {
    pub piece: u32,
    pub len: nat,
    pub complete: bool,
    pub data: Seq<u8>,
}

/// A piece read back passes its check where all its bytes were there and
/// the buffer hashes to the expected hash.
pub open spec fn passes(check: PieceCheck, expected_hash: [u8; 20]) -> bool {
    check.complete && sha1(check.data) == expected_hash@
}

/// Check `c` read piece `j` of `number_of_pieces` of a torrent of
/// `torrent_length` bytes in pieces of `piece_length`, with that piece's own
/// size.
pub open spec fn checks_piece(
    c: PieceCheck,
    j: int,
    number_of_pieces: nat,
    torrent_length: nat,
    piece_length: nat,
) -> bool {
    c.piece == j && c.len == spec_piece_size(number_of_pieces, torrent_length, piece_length, j as nat)
}

/// How many of the states are `Verified`.
pub open spec fn verified_count(states: Seq<PieceState>) -> nat
    decreases states.len(),
{
    if states.len() == 0 {
        0
    } else {
        verified_count(states.drop_last()) + if states.last() == PieceState::Verified {
            1nat
        } else {
            0nat
        }
    }
}

/// The total length of the files fits in a `u64`, and so does the offset of
/// the last piece; then no search for a piece overflows.
pub open spec fn layout_fits(infos: Seq<FileInfo>, number_of_pieces: int, piece_length: int) -> bool {
    &&& files_len(infos, infos.len() as int) <= u64::MAX
    &&& number_of_pieces * piece_length <= u64::MAX
}

/// Whether the files' total length and the end of the last of
/// `number_of_pieces` pieces of `piece_length` bytes fit in a `u64`.
pub fn layout_fits_u64(file_infos: &[FileInfo], number_of_pieces: usize, piece_length: usize) -> (r:
    bool)
    ensures
        r == layout_fits(file_infos@, number_of_pieces as int, piece_length as int),
{
    let mut total: u64 = 0;
    let mut i: usize = 0;
    while i < file_infos.len()
        invariant
            i <= file_infos@.len(),
            total == files_len(file_infos@, i as int),
        decreases file_infos@.len() - i,
    {
        match total.checked_add(file_infos[i].length) {
            Some(t) => total = t,
            None => {
                proof {
                    lemma_files_len_monotone(file_infos@, i + 1, file_infos@.len() as int);
                }
                return false;
            },
        }
        i = i + 1;
    }
    proof {
        assert((number_of_pieces as int) * (piece_length as int) <= u128::MAX) by (nonlinear_arith)
            requires
                number_of_pieces <= u64::MAX,
                piece_length <= u64::MAX,
        ;
    }
    (number_of_pieces as u128) * (piece_length as u128) <= u64::MAX as u128
}

impl PieceHashVerifier {
    pub closed spec fn piece_length_view(&self) -> usize {
        self.piece_length
    }

    pub closed spec fn buf_view(&self) -> Seq<u8> {
        self.buf@
    }

    /// The pieces read back so far, in order.
    pub closed spec fn checks(&self) -> Seq<PieceCheck> {
        self.checks@
    }

    /// The pieces that could not be read back so far, in order, each with
    /// the error that stopped it.
    pub closed spec fn failures(&self) -> Seq<(u32, StorageError)> {
        self.failures@
    }

    /// Whether the verifier reads pieces of `piece_length` bytes into a
    /// buffer of that length.
    pub(crate) fn fits(&self, piece_length: u64) -> (r: bool)
        ensures
            r == (self.piece_length_view() as int == piece_length as int && self.buf_view().len()
                == self.piece_length_view()),
    {
        self.piece_length as u64 == piece_length && self.buf.len() == self.piece_length
    }

    /// A verifier for pieces of `piece_length` bytes, with a zeroed buffer.
    pub fn new(piece_length: usize) -> (r: Self)
        ensures
            r.piece_length_view() == piece_length,
            r.buf_view() == Seq::new(piece_length as nat, |i: int| 0u8),
            r.checks() == Seq::<PieceCheck>::empty(),
            r.failures() == Seq::<(u32, StorageError)>::empty(),
    {
        let buf = vec![0u8; piece_length];
        assert(buf@ =~= Seq::new(piece_length as nat, |i: int| 0u8));
        PieceHashVerifier {
            piece_length,
            buf,
            checks: Ghost(Seq::empty()),
            failures: Ghost(Seq::empty()),
        }
    }

    /// Checks the pieces in order, and returns the index of the first one
    /// that is not on disk as its hash says, or `None` where all are.
    pub fn check_all_pieces<S: Storage + ?Sized>(
        &mut self,
        storage: &mut S,
        file_infos: &[FileInfo],
        piece_hashes: &[[u8; 20]],
        torrent_length: usize,
    ) -> (r: Result<Option<u32>, StorageError>)
        requires
            old(self).piece_length_view() > 0,
            old(self).buf_view().len() == old(self).piece_length_view(),
            layout_fits(file_infos@, piece_hashes@.len() as int, old(self).piece_length_view() as int),
        ensures
            forall|j: int|
                0 <= j < final(self).checks().len() - old(self).checks().len() ==> checks_piece(
                    #[trigger] final(self).checks()[old(self).checks().len() + j],
                    j,
                    piece_hashes@.len() as nat,
                    torrent_length as nat,
                    old(self).piece_length_view() as nat,
                ),
            S::records_calls() ==> only_reads_after(old(storage).calls(), final(storage).calls()),
            piece_hashes@.len() > u32::MAX + 1 ==> r == Err::<Option<u32>, StorageError>(
                StorageError::Conversion,
            ),
            r matches Ok(Some(i)) ==> i < piece_hashes@.len(),
            final(self).piece_length_view() == old(self).piece_length_view(),
            final(self).buf_view().len() == old(self).buf_view().len(),
            ({
                let base = old(self).checks().len();
                let c = final(self).checks();
                match r {
                    Ok(None) => {
                        &&& c.len() == base + piece_hashes@.len()
                        &&& c.take(base as int) == old(self).checks()
                        &&& forall|j: int|
                            0 <= j < piece_hashes@.len() ==> passes(
                                #[trigger] c[base + j],
                                piece_hashes@[j],
                            )
                    },
                    Ok(Some(i)) => {
                        &&& c.len() == base + i + 1
                        &&& c.take(base as int) == old(self).checks()
                        &&& forall|j: int| 0 <= j < i ==> passes(#[trigger] c[base + j], piece_hashes@[j])
                        &&& !passes(c[base + i], piece_hashes@[i as int])
                    },
                    Err(e) => piece_hashes@.len() <= u32::MAX + 1 ==> {
                        &&& c.len() < base + piece_hashes@.len()
                        &&& c.take(base as int) == old(self).checks()
                        &&& forall|j: int|
                            0 <= j < c.len() - base ==> passes(
                                #[trigger] c[base + j],
                                piece_hashes@[j],
                            )
                        &&& final(self).failures() == old(self).failures().push(
                            ((c.len() - base) as u32, e),
                        )
                    },
                }
            }),
            r is Ok ==> final(self).failures() == old(self).failures(),
            piece_hashes@.len() == 0 ==> r == Ok::<Option<u32>, StorageError>(None),
    {
        let number_of_pieces = piece_hashes.len();
        assert(storage.calls().take(storage.calls().len() as int) =~= storage.calls());
        if number_of_pieces as u64 > u32::MAX as u64 + 1 {
            return Err(StorageError::Conversion);
        }
        let ghost base = self.checks().len();
        let mut idx: usize = 0;
        while idx < number_of_pieces
            invariant
                forall|j: int|
                    0 <= j < self.checks().len() - old(self).checks().len() ==> checks_piece(
                        #[trigger] self.checks()[old(self).checks().len() + j],
                        j,
                        piece_hashes@.len() as nat,
                        torrent_length as nat,
                        old(self).piece_length_view() as nat,
                    ),
                S::records_calls() ==> only_reads_after(old(storage).calls(), storage.calls()),
                number_of_pieces == piece_hashes@.len(),
                number_of_pieces <= u32::MAX as u64 + 1,
                idx <= number_of_pieces,
                self.piece_length_view() == old(self).piece_length_view(),
                old(self).buf_view().len() == old(self).piece_length_view(),
                self.piece_length_view() > 0,
                self.buf_view().len() == self.piece_length_view(),
                layout_fits(file_infos@, piece_hashes@.len() as int, self.piece_length_view() as int),
                base == old(self).checks().len(),
                self.checks().len() == base + idx,
                self.checks().take(base as int) == old(self).checks(),
                forall|j: int| 0 <= j < idx ==> passes(#[trigger] self.checks()[base + j], piece_hashes@[j]),
                self.failures() == old(self).failures(),
            decreases number_of_pieces - idx,
        {
            let piece_idx = idx as u32;
            let expected_piece_hash = &piece_hashes[idx];
            let ghost before = storage.calls();
            let verified = self.verify_piece_hash(
                storage,
                file_infos,
                piece_idx,
                number_of_pieces,
                torrent_length,
                expected_piece_hash,
            );
            proof {
                if S::records_calls() {
                    lemma_only_reads_after_trans(old(storage).calls(), before, storage.calls());
                }
            }
            let verified = match verified {
                Ok(v) => v,
                Err(e) => return Err(e),
            };
            proof {
                assert(self.checks().take(base as int) =~= old(self).checks());
            }
            if !verified {
                return Ok(Some(piece_idx));
            }
            idx = idx + 1;
        }
        Ok(None)
    }

    /// Reads piece `piece_idx` from storage into the buffer and checks the
    /// buffer's hash against `expected_hash`. `false` where a file ended
    /// before the piece did. The whole buffer is hashed, also for a last
    /// piece shorter than the others.
    pub fn verify_piece_hash<S: Storage + ?Sized>(
        &mut self,
        storage: &mut S,
        file_infos: &[FileInfo],
        piece_idx: u32,
        number_of_pieces: usize,
        torrent_length: usize,
        expected_hash: &[u8; 20],
    ) -> (r: Result<bool, StorageError>)
        requires
            piece_idx < number_of_pieces,
            old(self).piece_length_view() > 0,
            old(self).buf_view().len() == old(self).piece_length_view(),
            layout_fits(file_infos@, number_of_pieces as int, old(self).piece_length_view() as int),
        ensures
            final(self).piece_length_view() == old(self).piece_length_view(),
            final(self).buf_view().len() == old(self).buf_view().len(),
            r == Ok::<bool, StorageError>(true) ==> sha1(final(self).buf_view()) == expected_hash@,
            r is Err ==> final(self).checks() == old(self).checks(),
            r matches Err(e) ==> final(self).failures() == old(self).failures().push((piece_idx, e)),
            r is Ok ==> final(self).failures() == old(self).failures(),
            S::records_calls() ==> only_reads_after(old(storage).calls(), final(storage).calls()),
            r is Ok ==> final(self).checks() == old(self).checks().push(
                PieceCheck {
                    piece: piece_idx,
                    len: spec_piece_size(
                        number_of_pieces as nat,
                        torrent_length as nat,
                        old(self).piece_length_view() as nat,
                        piece_idx as nat,
                    ),
                    complete: final(self).checks().last().complete,
                    data: final(self).buf_view(),
                },
            ),
            r matches Ok(b) ==> b == passes(final(self).checks().last(), *expected_hash),
            data_offset(piece_idx, old(self).piece_length_view() as u64, None) >= files_len(
                file_infos@,
                file_infos@.len() as int,
            ) ==> r == Err::<bool, StorageError>(StorageError::NoFileForPiece) && (
            S::records_calls() ==> final(storage).calls() == old(storage).calls()),
            ({
                let infos = file_infos@;
                let pl = old(self).piece_length_view();
                let g = data_offset(piece_idx, pl as u64, None);
                let len = spec_piece_size(
                    number_of_pieces as nat,
                    torrent_length as nat,
                    pl as nat,
                    piece_idx as nat,
                ) as int;
                forall|f: int|
                    #[trigger] file_holds(infos, f, g) ==> {
                        let start = FileOffsets {
                            file_idx: f as usize,
                            offset_into_file: (g - files_len(infos, f)) as u64,
                        };
                        let layout = file_chunks(infos, start, f, len);
                        let plan = placed_chunks(infos, start, f, len);
                        let c0 = old(storage).calls();
                        let made = final(storage).calls().skip(c0.len() as int);
                        S::records_calls() ==> {
                            &&& final(storage).calls().take(c0.len() as int) == c0
                            &&& reads_follow(made, plan)
                            &&& read_outcome(
                                made,
                                plan.len() as int,
                                layout,
                                match r {
                                    Ok(_) => Ok::<bool, StorageError>(final(self).checks().last().complete),
                                    Err(e) => Err(e),
                                },
                            )
                            &&& final(self).buf_view() == read_data(made) + old(self).buf_view().skip(
                                read_data(made).len() as int,
                            )
                        }
                    }
            }),
    {
        let expected_piece_length = piece_size_from_idx(
            number_of_pieces,
            torrent_length,
            self.piece_length,
            piece_idx as usize,
        );
        proof {
            let g = data_offset(piece_idx, self.piece_length as u64, None);
            assert(g <= u64::MAX) by (nonlinear_arith)
                requires
                    g == piece_idx as int * self.piece_length as int,
                    piece_idx < number_of_pieces,
                    number_of_pieces as int * self.piece_length as int <= u64::MAX,
            ;
            assert forall|j: int|
                0 <= j < file_infos@.len() && #[trigger] files_len(file_infos@, j) <= g implies files_len(
                file_infos@,
                j + 1,
            ) <= u64::MAX by {
                lemma_files_len_monotone(file_infos@, j + 1, file_infos@.len() as int);
            }
        }
        let file_offsets = match find_file_offsets_for_data(
            file_infos,
            piece_idx,
            self.piece_length as u64,
            None,
        ) {
            Ok(Some(o)) => {
                proof {
                    lemma_files_len_monotone(file_infos@, o.file_idx + 1, file_infos@.len() as int);
                }
                o
            },
            Ok(None) => {
                assert(storage.calls().take(storage.calls().len() as int) =~= storage.calls());
                self.failures = Ghost(self.failures@.push((piece_idx, StorageError::NoFileForPiece)));
                return Err(StorageError::NoFileForPiece);
            },
            Err(e) => {
                proof {
                    let g = data_offset(piece_idx, self.piece_length as u64, None);
                    assert forall|f: int| #[trigger] file_holds(file_infos@, f, g) implies false by {
                        lemma_files_len_monotone(file_infos@, f + 1, file_infos@.len() as int);
                    }
                }
                assert(storage.calls().take(storage.calls().len() as int) =~= storage.calls());
                self.failures = Ghost(self.failures@.push((piece_idx, e)));
                return Err(e);
            },
        };
        let ghost c0 = storage.calls();
        proof {
            let g = data_offset(piece_idx, self.piece_length as u64, None);
            assert forall|f: int| #[trigger] file_holds(file_infos@, f, g) implies f
                == file_offsets.file_idx by {
                if f < file_offsets.file_idx {
                    lemma_files_len_monotone(file_infos@, f + 1, file_offsets.file_idx as int);
                } else if f > file_offsets.file_idx {
                    lemma_files_len_monotone(file_infos@, file_offsets.file_idx + 1, f);
                }
            }
        }
        let read = read_data_from_files(
            storage,
            self.buf.as_mut_slice(),
            file_offsets,
            file_infos,
            expected_piece_length,
        );
        proof {
            if S::records_calls() {
                lemma_reads_only(
                    c0,
                    storage.calls(),
                    placed_chunks(
                        file_infos@,
                        file_offsets,
                        file_offsets.file_idx as int,
                        expected_piece_length as int,
                    ),
                );
            }
        }
        let had_enough_bytes = match read {
            Ok(b) => b,
            Err(e) => {
                self.failures = Ghost(self.failures@.push((piece_idx, e)));
                return Err(e);
            },
        };
        self.checks = Ghost(
            self.checks@.push(
                PieceCheck {
                    piece: piece_idx,
                    len: expected_piece_length as nat,
                    complete: had_enough_bytes,
                    data: self.buf@,
                },
            ),
        );
        if !had_enough_bytes {
            Ok(false)
        } else {
            let calculated_hash = sha1_array(self.buf.as_slice());
            Ok(bytes_eq(calculated_hash.as_slice(), expected_hash.as_slice()))
        }
    }
    /// Checks every piece in order and gives each a state: verified where it
    /// is on disk as its hash says, else queued; and how many are verified.
    /// An error where a check fails, or where there are more pieces than
    /// `u32` indices.
    pub fn piece_states<S: Storage + ?Sized>(
        &mut self,
        storage: &mut S,
        file_infos: &[FileInfo],
        piece_hashes: &[[u8; 20]],
        torrent_length: usize,
    ) -> (r: Result<(usize, Vec<PieceState>), StorageError>)
        requires
            old(self).piece_length_view() > 0,
            old(self).buf_view().len() == old(self).piece_length_view(),
            layout_fits(file_infos@, piece_hashes@.len() as int, old(self).piece_length_view() as int),
        ensures
            forall|j: int|
                0 <= j < final(self).checks().len() - old(self).checks().len() ==> checks_piece(
                    #[trigger] final(self).checks()[old(self).checks().len() + j],
                    j,
                    piece_hashes@.len() as nat,
                    torrent_length as nat,
                    old(self).piece_length_view() as nat,
                ),
            S::records_calls() ==> only_reads_after(old(storage).calls(), final(storage).calls()),
            piece_hashes@.len() > u32::MAX + 1 ==> r == Err::<(usize, Vec<PieceState>), StorageError>(
                StorageError::Conversion,
            ),
            r matches Ok((k, states)) ==> {
                let base = old(self).checks().len();
                let c = final(self).checks();
                &&& states@.len() == piece_hashes@.len()
                &&& k == verified_count(states@)
                &&& c.len() == base + piece_hashes@.len()
                &&& c.take(base as int) == old(self).checks()
                &&& forall|i: int|
                    0 <= i < states@.len() ==> #[trigger] states@[i] == if passes(
                        c[base + i],
                        piece_hashes@[i],
                    ) {
                        PieceState::Verified
                    } else {
                        PieceState::Queued
                    }
            },
            final(self).piece_length_view() == old(self).piece_length_view(),
            final(self).buf_view().len() == old(self).buf_view().len(),
            r is Ok ==> final(self).failures() == old(self).failures(),
            r matches Err(e) ==> (piece_hashes@.len() <= u32::MAX + 1 ==> {
                let k = final(self).checks().len() - old(self).checks().len();
                &&& 0 <= k < piece_hashes@.len()
                &&& final(self).failures() == old(self).failures().push((k as u32, e))
            }),
    {
        let number_of_pieces = piece_hashes.len();
        assert(storage.calls().take(storage.calls().len() as int) =~= storage.calls());
        if number_of_pieces as u64 > u32::MAX as u64 + 1 {
            return Err(StorageError::Conversion);
        }
        let ghost base = self.checks().len();
        let mut states: Vec<PieceState> = Vec::with_capacity(number_of_pieces);
        let mut verified_pieces: usize = 0;
        let mut idx: usize = 0;
        while idx < number_of_pieces
            invariant
                forall|j: int|
                    0 <= j < self.checks().len() - old(self).checks().len() ==> checks_piece(
                        #[trigger] self.checks()[old(self).checks().len() + j],
                        j,
                        piece_hashes@.len() as nat,
                        torrent_length as nat,
                        old(self).piece_length_view() as nat,
                    ),
                S::records_calls() ==> only_reads_after(old(storage).calls(), storage.calls()),
                number_of_pieces == piece_hashes@.len(),
                number_of_pieces <= u32::MAX as u64 + 1,
                idx <= number_of_pieces,
                states@.len() == idx,
                verified_pieces == verified_count(states@),
                verified_pieces <= idx,
                base == old(self).checks().len(),
                self.checks().len() == base + idx,
                self.checks().take(base as int) == old(self).checks(),
                forall|i: int|
                    0 <= i < states@.len() ==> #[trigger] states@[i] == if passes(
                        self.checks()[base + i],
                        piece_hashes@[i],
                    ) {
                        PieceState::Verified
                    } else {
                        PieceState::Queued
                    },
                self.piece_length_view() == old(self).piece_length_view(),
                self.piece_length_view() > 0,
                self.buf_view().len() == self.piece_length_view(),
                old(self).buf_view().len() == old(self).piece_length_view(),
                layout_fits(file_infos@, piece_hashes@.len() as int, self.piece_length_view() as int),
                self.failures() == old(self).failures(),
            decreases number_of_pieces - idx,
        {
            let ghost before = storage.calls();
            let verified = self.verify_piece_hash(
                storage,
                file_infos,
                idx as u32,
                number_of_pieces,
                torrent_length,
                &piece_hashes[idx],
            );
            proof {
                if S::records_calls() {
                    lemma_only_reads_after_trans(old(storage).calls(), before, storage.calls());
                }
            }
            let verified = match verified {
                Ok(v) => v,
                Err(e) => return Err(e),
            };
            let ghost before = states@;
            if verified {
                states.push(PieceState::Verified);
                verified_pieces = verified_pieces + 1;
            } else {
                states.push(PieceState::Queued);
            }
            assert(states@.drop_last() =~= before);
            assert(self.checks().take(base as int) =~= old(self).checks());
            idx = idx + 1;
        }
        Ok((verified_pieces, states))
    }
}

} // verus!
