//! The storage side of a download: blocks are written where their bytes
//! belong among the files, and finished pieces are read back and checked
//! against their hashes.

use vstd::prelude::*;

use super::piece_hash_verifier::{checks_piece, layout_fits, passes, PieceCheck, PieceHashVerifier};
use super::util::only_reads_after;
use super::util::{
    chunk_writes, data_offset, file_chunks, file_holds, files_len, find_file_offsets_for_data,
    lemma_files_len_monotone, placed_chunks, write_data_to_files, write_outcome, writes_follow,
    FileOffsets,
};
use super::{FileInfo, Storage, StorageError, TorrentFileMetadata};
use crate::protocol::Block;
use crate::state::handler::StorageOp;
use crate::state::PeerAddr;

verus! {

/// Writes blocks to the torrent's files and checks finished pieces.
pub struct StorageManager {
    piece_hash_verifier: PieceHashVerifier,
    file_metadata: TorrentFileMetadata,
    piece_length: u64,
    number_of_pieces: usize,
    total_torrent_length: usize,
}

impl StorageManager {
    pub closed spec fn infos(&self) -> Seq<FileInfo> {
        self.file_metadata.file_infos@
    }

    pub closed spec fn piece_length_view(&self) -> u64 {
        self.piece_length
    }

    pub closed spec fn number_of_pieces_view(&self) -> usize {
        self.number_of_pieces
    }

    /// The torrent's length in bytes.
    pub closed spec fn total_length_view(&self) -> usize {
        self.total_torrent_length
    }

    /// The pieces read back so far: whether all their bytes were there, and
    /// the bytes that were hashed.
    pub closed spec fn checks(&self) -> Seq<PieceCheck> {
        self.piece_hash_verifier.checks()
    }

    /// The pieces that could not be read back so far, and why.
    pub closed spec fn failures(&self) -> Seq<(u32, StorageError)> {
        self.piece_hash_verifier.failures()
    }

    /// The verifier reads whole pieces, which are not empty, and every
    /// offset in the files or up to the end of the last piece fits in a
    /// `u64`.
    pub closed spec fn wf(&self) -> bool {
        &&& self.piece_length > 0
        &&& self.piece_hash_verifier.piece_length_view() as int == self.piece_length as int
        &&& self.piece_hash_verifier.buf_view().len() == self.piece_hash_verifier.piece_length_view()
        &&& layout_fits(self.infos(), self.number_of_pieces as int, self.piece_length as int)
    }

    /// A manager of the files in `file_metadata`, for `number_of_pieces`
    /// pieces of `piece_length` bytes, `total_torrent_length` bytes in all,
    /// checked with `piece_hash_verifier`. An error where the pieces are
    /// empty, the verifier reads pieces of another length, or the files'
    /// total length or the end of the last piece does not fit in a `u64`.
    pub fn new(
        file_metadata: TorrentFileMetadata,
        piece_length: u64,
        piece_hash_verifier: PieceHashVerifier,
        number_of_pieces: usize,
        total_torrent_length: usize,
    ) -> (r: Result<Self, StorageError>)
        ensures
            match r {
                Ok(m) => {
                    &&& m.wf()
                    &&& m.infos() == file_metadata.file_infos@
                    &&& m.piece_length_view() == piece_length
                    &&& m.number_of_pieces_view() == number_of_pieces
                    &&& m.total_length_view() == total_torrent_length
                },
                Err(e) => {
                    &&& e == StorageError::Conversion
                    &&& !(piece_length > 0 && piece_hash_verifier.piece_length_view() as int
                        == piece_length as int && piece_hash_verifier.buf_view().len()
                        == piece_hash_verifier.piece_length_view() && layout_fits(
                        file_metadata.file_infos@,
                        number_of_pieces as int,
                        piece_length as int,
                    ))
                },
            },
    {
        if piece_length == 0 || !piece_hash_verifier.fits(piece_length) {
            return Err(StorageError::Conversion);
        }
        let infos = file_metadata.file_infos.as_slice();
        let mut total: u64 = 0;
        let mut i: usize = 0;
        while i < infos.len()
            invariant
                i <= infos@.len(),
                total == files_len(infos@, i as int),
                infos@ == file_metadata.file_infos@,
            decreases infos@.len() - i,
        {
            match total.checked_add(infos[i].length) {
                Some(t) => total = t,
                None => {
                    proof {
                        lemma_files_len_monotone(infos@, i + 1, infos@.len() as int);
                        assert(files_len(infos@, i + 1) > u64::MAX);
                    }
                    return Err(StorageError::Conversion);
                },
            }
            i = i + 1;
        }
        proof {
            assert((number_of_pieces as int) * (piece_length as int) <= u128::MAX) by (nonlinear_arith)
                requires
                    number_of_pieces <= u64::MAX,
                    piece_length <= u64::MAX,
            ;
        }
        let last_end = (number_of_pieces as u128) * (piece_length as u128);
        if last_end > u64::MAX as u128 {
            return Err(StorageError::Conversion);
        }
        Ok(
            StorageManager {
                piece_hash_verifier,
                file_metadata,
                piece_length,
                number_of_pieces,
                total_torrent_length,
            },
        )
    }

    /// Carries out one storage request.
    ///
    /// A block is written where its bytes belong: from the file that holds
    /// its first byte on, file after file. An error where no file holds it
    /// or the files end before the block does, or where the storage fails.
    ///
    /// A piece's hash is checked as `PieceHashVerifier::verify_piece_hash`
    /// does, and the verdict is returned for the peer that downloaded it. An
    /// error where the piece does not exist, or the check fails.
    pub fn handle_op<S: Storage + ?Sized>(&mut self, storage: &mut S, op: StorageOp) -> (r: Result<
        Option<(PeerAddr, u32, bool)>,
        StorageError,
    >)
        requires
            old(self).wf(),
            op matches StorageOp::AddBlock(b) ==> data_offset(
                b.index,
                old(self).piece_length_view(),
                Some(b.begin),
            ) + b.block@.len() <= u64::MAX,
        ensures
            final(self).wf(),
            final(self).infos() == old(self).infos(),
            final(self).piece_length_view() == old(self).piece_length_view(),
            final(self).number_of_pieces_view() == old(self).number_of_pieces_view(),
            final(self).total_length_view() == old(self).total_length_view(),
            match op {
                StorageOp::AddBlock(b) => {
                    let infos = old(self).infos();
                    let g = data_offset(b.index, old(self).piece_length_view(), Some(b.begin));
                    &&& g >= files_len(infos, infos.len() as int) ==> r == Err::<
                        Option<(PeerAddr, u32, bool)>,
                        StorageError,
                    >(StorageError::NoFileForPiece) && (S::records_calls()
                        ==> final(storage).calls() == old(storage).calls())
                    &&& forall|f: int|
                        #[trigger] file_holds(infos, f, g) ==> {
                            let start = FileOffsets {
                                file_idx: f as usize,
                                offset_into_file: (g - files_len(infos, f)) as u64,
                            };
                            let layout = file_chunks(infos, start, f, b.block@.len() as int);
                            let plan = chunk_writes(
                                placed_chunks(infos, start, f, b.block@.len() as int),
                                b.block@,
                            );
                            let c0 = old(storage).calls();
                            let made = final(storage).calls().skip(c0.len() as int);
                            &&& layout is Err ==> r is Err
                            &&& r is Ok ==> r == Ok::<Option<(PeerAddr, u32, bool)>, StorageError>(None)
                            &&& S::records_calls() ==> {
                                &&& final(storage).calls().take(c0.len() as int) == c0
                                &&& writes_follow(made, plan)
                                &&& write_outcome(
                                    made,
                                    plan.len() as int,
                                    layout,
                                    match r {
                                        Ok(_) => Ok::<bool, StorageError>(true),
                                        Err(e) => Err(e),
                                    },
                                )
                            }
                        }
                },
                StorageOp::CheckPieceHash((peer, index, hash)) => {
                    &&& S::records_calls() ==> only_reads_after(
                        old(storage).calls(),
                        final(storage).calls(),
                    )
                    &&& index >= old(self).number_of_pieces_view() ==> r == Err::<
                        Option<(PeerAddr, u32, bool)>,
                        StorageError,
                    >(StorageError::NoFileForPiece)
                    &&& r matches Err(e) ==> (index < old(self).number_of_pieces_view()
                        ==> final(self).failures() == old(self).failures().push((index, e)))
                    &&& r is Ok ==> final(self).failures() == old(self).failures()
                    &&& r matches Ok(v) ==> (v matches Some((p, i, correct)) && p == peer && i == index
                        && final(self).checks() == old(self).checks().push(final(self).checks().last())
                        && correct == passes(final(self).checks().last(), hash) && checks_piece(
                        final(self).checks().last(),
                        index as int,
                        old(self).number_of_pieces_view() as nat,
                        old(self).total_length_view() as nat,
                        old(self).piece_length_view() as nat,
                    ))
                },
            },
    {
        match op {
            StorageOp::AddBlock(Block { index, begin, block }) => {
                let ghost infos = self.file_metadata.file_infos@;
                let ghost g = data_offset(index, self.piece_length, Some(begin));
                proof {
                    assert forall|j: int|
                        0 <= j < infos.len() && #[trigger] files_len(infos, j) <= g implies files_len(
                        infos,
                        j + 1,
                    ) <= u64::MAX by {
                        lemma_files_len_monotone(infos, j + 1, infos.len() as int);
                    }
                }
                let file_offsets = match find_file_offsets_for_data(
                    self.file_metadata.file_infos.as_slice(),
                    index,
                    self.piece_length,
                    Some(begin),
                ) {
                    Ok(Some(o)) => o,
                    Ok(None) => return Err(StorageError::NoFileForPiece),
                    Err(e) => {
                        proof {
                            if S::records_calls() {
                                assert forall|f: int| #[trigger] file_holds(infos, f, g) implies false by {
                                    lemma_files_len_monotone(infos, f + 1, infos.len() as int);
                                }
                            }
                        }
                        return Err(e);
                    },
                };
                proof {
                    assert forall|f: int| #[trigger] file_holds(infos, f, g) implies f
                        == file_offsets.file_idx by {
                        if f < file_offsets.file_idx {
                            lemma_files_len_monotone(infos, f + 1, file_offsets.file_idx as int);
                        } else if f > file_offsets.file_idx {
                            lemma_files_len_monotone(infos, file_offsets.file_idx + 1, f);
                        }
                    }
                    lemma_files_len_monotone(infos, file_offsets.file_idx + 1, infos.len() as int);
                }
                match write_data_to_files(
                    storage,
                    block.as_slice(),
                    file_offsets,
                    self.file_metadata.file_infos.as_slice(),
                ) {
                    Ok(_) => Ok(None),
                    Err(e) => Err(e),
                }
            },
            StorageOp::CheckPieceHash((peer_addr, piece_idx, expected_hash)) => {
                if piece_idx as usize >= self.number_of_pieces {
                    assert(storage.calls().take(storage.calls().len() as int) =~= storage.calls());
                    return Err(StorageError::NoFileForPiece);
                }
                let verified = self.piece_hash_verifier.verify_piece_hash(
                    storage,
                    self.file_metadata.file_infos.as_slice(),
                    piece_idx,
                    self.number_of_pieces,
                    self.total_torrent_length,
                    &expected_hash,
                );
                match verified {
                    Ok(is_correct) => Ok(Some((peer_addr, piece_idx, is_correct))),
                    Err(e) => Err(e),
                }
            },
        }
    }
    /// Checks the pieces on disk against `piece_hashes`, as
    /// `PieceHashVerifier::check_all_pieces` does: the first piece that does
    /// not match, or `None`.
    pub fn checksum_verification<S: Storage + ?Sized>(
        &mut self,
        storage: &mut S,
        piece_hashes: &[[u8; 20]],
    ) -> (r: Result<Option<u32>, StorageError>)
        requires
            old(self).wf(),
            piece_hashes@.len() <= old(self).number_of_pieces_view(),
        ensures
            forall|j: int|
                0 <= j < final(self).checks().len() - old(self).checks().len() ==> checks_piece(
                    #[trigger] final(self).checks()[old(self).checks().len() + j],
                    j,
                    piece_hashes@.len() as nat,
                    old(self).total_length_view() as nat,
                    old(self).piece_length_view() as nat,
                ),
            S::records_calls() ==> only_reads_after(old(storage).calls(), final(storage).calls()),
            final(self).wf(),
            final(self).infos() == old(self).infos(),
            final(self).piece_length_view() == old(self).piece_length_view(),
            final(self).number_of_pieces_view() == old(self).number_of_pieces_view(),
            final(self).total_length_view() == old(self).total_length_view(),
            piece_hashes@.len() > u32::MAX + 1 ==> r == Err::<Option<u32>, StorageError>(
                StorageError::Conversion,
            ),
            r matches Ok(Some(i)) ==> i < piece_hashes@.len(),
            ({
                let base = old(self).checks().len();
                let c = final(self).checks();
                match r {
                    Ok(None) => {
                        &&& c.len() == base + piece_hashes@.len()
                        &&& c.take(base as int) == old(self).checks()
                        &&& forall|j: int|
                            0 <= j < piece_hashes@.len() ==> passes(
                                #[trigger] c[base + j],
                                piece_hashes@[j],
                            )
                    },
                    Ok(Some(i)) => {
                        &&& c.len() == base + i + 1
                        &&& c.take(base as int) == old(self).checks()
                        &&& forall|j: int| 0 <= j < i ==> passes(#[trigger] c[base + j], piece_hashes@[j])
                        &&& !passes(c[base + i], piece_hashes@[i as int])
                    },
                    Err(e) => piece_hashes@.len() <= u32::MAX + 1 ==> {
                        &&& c.len() < base + piece_hashes@.len()
                        &&& c.take(base as int) == old(self).checks()
                        &&& forall|j: int|
                            0 <= j < c.len() - base ==> passes(
                                #[trigger] c[base + j],
                                piece_hashes@[j],
                            )
                        &&& final(self).failures() == old(self).failures().push(
                            ((c.len() - base) as u32, e),
                        )
                    },
                }
            }),
            r is Ok ==> final(self).failures() == old(self).failures(),
            piece_hashes@.len() == 0 ==> r == Ok::<Option<u32>, StorageError>(None),
    {
        proof {
            assert(piece_hashes@.len() * (self.piece_length as int) <= (self.number_of_pieces as int)
                * (self.piece_length as int)) by (nonlinear_arith)
                requires
                    piece_hashes@.len() <= self.number_of_pieces,
            ;
        }
        self.piece_hash_verifier.check_all_pieces(
            storage,
            self.file_metadata.file_infos.as_slice(),
            piece_hashes,
            self.total_torrent_length,
        )
    }
}

} // verus!
