//! Where a torrent's bytes live: its files, laid end to end, and the piece
//! hashes that check them.

pub mod file_metadata;
pub mod manager;
pub mod piece_hash_verifier;
pub mod util;

use std::path::PathBuf;
use vstd::prelude::*;

pub use file_metadata::TorrentFileMetadata;
pub use manager::StorageManager;
pub use piece_hash_verifier::PieceHashVerifier;

verus! {

#[verifier::external_type_specification]
#[verifier::external_body]
pub struct ExPathBuf(PathBuf);

/// One file of a torrent: where it is stored and how long it is.
#[derive(Debug)]
pub struct FileInfo {
    pub path: PathBuf,
    pub length: u64,
}

impl FileInfo {
    pub fn new(path: PathBuf, length: u64) -> (r: Self)
        ensures
            r.path == path,
            r.length == length,
    {
        FileInfo { path, length }
    }
}

/// Why a storage operation failed.
#[derive(Debug)]
pub enum StorageError {
    /// The data runs past the last file.
    BadFileIdx,
    /// A length does not fit in a `usize`.
    Conversion,
    /// A piece has no expected hash.
    MissingHash,
    /// No file holds the start of a piece.
    NoFileForPiece,
    /// The storage itself failed, with its message.
    Io(String),
    /// The torrent has no length in single-file mode.
    MissingLength,
}

/// One call made on a storage, with what it gave back.
pub enum StorageCall {
    /// `write_all` of `data` at `offset` of file `file_idx`.
    Write { file_idx: usize, offset: u64, data: Seq<u8>, result: Result<(), StorageError> },
    /// `read_exact` of `len` bytes at `offset` of file `file_idx`, and the
    /// bytes that the buffer held after it.
    Read {
        file_idx: usize,
        offset: u64,
        len: nat,
        data: Seq<u8>,
        outcome: Result<bool, StorageError>,
    },
}

/// A torrent's files, addressed by index, read and written at byte offsets.
///
/// A storage may keep a record of the calls made on it: `records_calls`
/// says whether it does, and `calls` gives the record, oldest call first.
/// A storage that keeps none leaves both as they are here, and then nothing
/// is said of its calls.
pub trait Storage {
    /// Whether `calls` records every call made on this storage.
    open spec fn records_calls() -> bool {
        false
    }

    /// The calls made on this storage so far, oldest first.
    open spec fn calls(&self) -> Seq<StorageCall> {
        Seq::empty()
    }

    /// Writes all of `data` at `offset` of file `file_idx`.
    fn write_all(&mut self, file_idx: usize, offset: u64, data: &[u8]) -> (r: Result<(), StorageError>)
        ensures
            Self::records_calls() ==> final(self).calls() == old(self).calls().push(
                StorageCall::Write { file_idx, offset, data: data@, result: r },
            ),
    ;

    /// Fills `buf` from `offset` of file `file_idx`; `false` where the file
    /// ends first. A slice keeps its length.
    fn read_exact(&mut self, file_idx: usize, offset: u64, buf: &mut [u8]) -> (r: Result<
        bool,
        StorageError,
    >)
        ensures
            final(buf)@.len() == old(buf)@.len(),
            Self::records_calls() ==> final(self).calls() == old(self).calls().push(
                StorageCall::Read {
                    file_idx,
                    offset,
                    len: old(buf)@.len(),
                    data: final(buf)@,
                    outcome: r,
                },
            ),
    ;
}

} // verus!
