//! Finding where a piece's bytes lie in a torrent's files, and reading or
//! writing them there chunk by chunk.

use vstd::prelude::*;

use super::{FileInfo, Storage, StorageCall, StorageError};

verus! {

/// The first file that holds some data, and the data's offset into it.
#[derive(Debug, Clone, Copy, PartialEq, Eq)]
pub struct FileOffsets {
    pub file_idx: usize,
    pub offset_into_file: u64,
}

/// The first file that holds some data, the data's offset into it, and how
/// the data splits between that file and what follows it.
#[derive(Debug, Clone, Copy, PartialEq, Eq)]
pub struct FileSpan {
    pub file_idx: usize,
    pub offset_into_file: u64,
    /// The bytes that fall into the first file.
    pub lfile_bytes: u64,
    /// The bytes that run past its end.
    pub rfile_bytes: u64,
}

/// The total length of the first `k` files.
pub open spec fn files_len(infos: Seq<FileInfo>, k: int) -> int
    decreases k,
{
    if k <= 0 {
        0
    } else {
        files_len(infos, k - 1) + infos[k - 1].length
    }
}

/// The running totals of the file lengths only grow.
pub proof fn lemma_files_len_monotone(infos: Seq<FileInfo>, j: int, k: int)
    requires
        0 <= j <= k <= infos.len(),
    ensures
        files_len(infos, j) <= files_len(infos, k),
    decreases k - j,
{
    if j < k {
        lemma_files_len_monotone(infos, j, k - 1);
    }
}

/// The offset of some data in the torrent: `begin` bytes into piece
/// `piece_idx` of pieces `piece_length` long.
pub open spec fn data_offset(piece_idx: u32, piece_length: u64, begin: Option<u32>) -> int {
    piece_idx as int * piece_length as int + match begin {
        Some(b) => b as int,
        None => 0,
    }
}

/// The running total of the file lengths stays within `u64` for as long as
/// a search for offset `g` adds them up.
pub open spec fn running_total_fits(infos: Seq<FileInfo>, g: int) -> bool {
    forall|j: int|
        0 <= j < infos.len() && #[trigger] files_len(infos, j) <= g ==> files_len(infos, j + 1)
            <= u64::MAX
}

/// File `f` holds the byte at offset `g` of the torrent.
pub open spec fn file_holds(infos: Seq<FileInfo>, f: int, g: int) -> bool {
    0 <= f < infos.len() && files_len(infos, f) <= g < files_len(infos, f + 1)
}

/// Finds the file that holds the data `begin` bytes into piece `piece_idx`
/// and the data's offset into it; an error where the data lies past all the
/// files.
pub fn find_file_offsets_for_data(
    file_infos: &[FileInfo],
    piece_idx: u32,
    piece_length: u64,
    begin: Option<u32>,
) -> (r: Result<Option<FileOffsets>, StorageError>)
    requires
        data_offset(piece_idx, piece_length, begin) <= u64::MAX,
        running_total_fits(file_infos@, data_offset(piece_idx, piece_length, begin)),
    ensures
        ({
            let g = data_offset(piece_idx, piece_length, begin);
            match r {
                Ok(Some(o)) => file_holds(file_infos@, o.file_idx as int, g) && o.offset_into_file
                    == g - files_len(file_infos@, o.file_idx as int),
                Ok(None) => false,
                Err(e) => e == StorageError::NoFileForPiece && g >= files_len(
                    file_infos@,
                    file_infos@.len() as int,
                ),
            }
        }),
{
    let b: u64 = match begin {
        Some(b) => b as u64,
        None => 0,
    };
    proof {
        assert(piece_idx as int * piece_length as int <= u64::MAX) by (nonlinear_arith)
            requires
                piece_idx as int * piece_length as int + b as int <= u64::MAX,
                b >= 0,
        ;
    }
    let global_data_offset: u64 = piece_idx as u64 * piece_length + b;
    let mut state: u64 = 0;
    let mut file_idx: usize = 0;
    while file_idx < file_infos.len()
        invariant
            file_idx <= file_infos@.len(),
            global_data_offset == data_offset(piece_idx, piece_length, begin),
            running_total_fits(file_infos@, global_data_offset as int),
            state == files_len(file_infos@, file_idx as int),
            state <= global_data_offset,
        decreases file_infos@.len() - file_idx,
    {
        let prev_length = state;
        assert(files_len(file_infos@, file_idx as int + 1) <= u64::MAX);
        state = state + file_infos[file_idx].length;
        if global_data_offset < state {
            return Ok(
                Some(
                    FileOffsets { file_idx, offset_into_file: global_data_offset - prev_length },
                ),
            );
        }
        file_idx = file_idx + 1;
    }
    Err(StorageError::NoFileForPiece)
}

/// Finds the file that holds the start of `data_length` bytes of data
/// `begin` bytes into piece `piece_idx`, the data's offset into it, and how
/// many of the bytes fall into that file and how many run past its end; an
/// error where the data starts past all the files.
pub fn find_file_span_for_data(
    file_infos: &[FileInfo],
    piece_idx: u32,
    piece_length: u64,
    data_length: usize,
    begin: Option<u32>,
) -> (r: Result<Option<FileSpan>, StorageError>)
    requires
        data_offset(piece_idx, piece_length, begin) + data_length <= u64::MAX,
        running_total_fits(file_infos@, data_offset(piece_idx, piece_length, begin)),
    ensures
        ({
            let g = data_offset(piece_idx, piece_length, begin);
            match r {
                Ok(Some(o)) => {
                    let end = files_len(file_infos@, o.file_idx as int + 1);
                    &&& file_holds(file_infos@, o.file_idx as int, g)
                    &&& o.offset_into_file == g - files_len(file_infos@, o.file_idx as int)
                    &&& o.rfile_bytes == (if g + data_length < end {
                        0
                    } else {
                        g + data_length - end
                    })
                    &&& o.lfile_bytes == data_length - o.rfile_bytes
                },
                Ok(None) => false,
                Err(e) => e == StorageError::NoFileForPiece && g >= files_len(
                    file_infos@,
                    file_infos@.len() as int,
                ),
            }
        }),
{
    let found = find_file_offsets_for_data(file_infos, piece_idx, piece_length, begin);
    let offsets = match found {
        Ok(Some(o)) => o,
        Ok(None) => return Err(StorageError::NoFileForPiece),
        Err(e) => return Err(e),
    };
    let b: u64 = match begin {
        Some(b) => b as u64,
        None => 0,
    };
    proof {
        assert(piece_idx as int * piece_length as int <= u64::MAX) by (nonlinear_arith)
            requires
                piece_idx as int * piece_length as int + b as int <= u64::MAX,
                b >= 0,
        ;
    }
    let global_data_offset: u64 = piece_idx as u64 * piece_length + b;
    let data_length: u64 = data_length as u64;
    proof {
        let f = offsets.file_idx as int;
        lemma_files_len_monotone(file_infos@, 0, f);
        assert(global_data_offset == data_offset(piece_idx, piece_length, begin));
        assert(files_len(file_infos@, f) <= global_data_offset);
        assert(files_len(file_infos@, f + 1) <= u64::MAX);
        assert(files_len(file_infos@, f + 1) == files_len(file_infos@, f) + file_infos@[f].length);
    }
    let file_start: u64 = global_data_offset - offsets.offset_into_file;
    let file_length: u64 = file_infos[offsets.file_idx].length;
    assert(file_start + file_length == files_len(file_infos@, offsets.file_idx as int + 1));
    let file_end: u64 = file_start + file_length;
    let rfile_bytes = if global_data_offset + data_length < file_end {
        0
    } else {
        global_data_offset + data_length - file_end
    };
    Ok(
        Some(
            FileSpan {
                file_idx: offsets.file_idx,
                offset_into_file: offsets.offset_into_file,
                lfile_bytes: data_length - rfile_bytes,
                rfile_bytes,
            },
        ),
    )
}

/// A stretch of bytes in one file: `len` bytes at `offset` of file
/// `file_idx`.
pub struct FileChunk {
    pub file_idx: int,
    pub offset: int,
    pub len: int,
}

/// Where data that starts at `start` continues in file `f`: at `start`'s
/// offset in its own file, at the file's beginning in the files after it.
pub open spec fn chunk_offset(start: FileOffsets, f: int) -> int {
    if f == start.file_idx {
        start.offset_into_file as int
    } else {
        0
    }
}

/// The chunks that hold `remaining` bytes of data starting at `start`, from
/// file `f` on: as much of each file as the data needs, file after file. An
/// error where the data runs past the last file, or a file's part does not
/// fit in a `usize`.
pub open spec fn file_chunks(infos: Seq<FileInfo>, start: FileOffsets, f: int, remaining: int) -> Result<
    Seq<FileChunk>,
    StorageError,
>
    decreases infos.len() - f,
{
    if remaining <= 0 {
        Ok(Seq::empty())
    } else if f < 0 || f >= infos.len() {
        Err(StorageError::BadFileIdx)
    } else {
        let off = chunk_offset(start, f);
        let avail = infos[f].length - off;
        if avail > usize::MAX {
            Err(StorageError::Conversion)
        } else {
            let len = if remaining < avail {
                remaining
            } else {
                avail
            };
            match file_chunks(infos, start, f + 1, remaining - len) {
                Ok(rest) => Ok(seq![FileChunk { file_idx: f, offset: off, len }] + rest),
                Err(e) => Err(e),
            }
        }
    }
}

/// The chunks that `remaining` bytes of data starting at `start` are placed
/// in, from file `f` on, before the placing meets an error: all the chunks
/// of `file_chunks` where it meets none.
pub open spec fn placed_chunks(infos: Seq<FileInfo>, start: FileOffsets, f: int, remaining: int) -> Seq<
    FileChunk,
>
    decreases infos.len() - f,
{
    if remaining <= 0 || f < 0 || f >= infos.len() {
        Seq::empty()
    } else {
        let off = chunk_offset(start, f);
        let avail = infos[f].length - off;
        if avail > usize::MAX {
            Seq::empty()
        } else {
            let len = if remaining < avail {
                remaining
            } else {
                avail
            };
            seq![FileChunk { file_idx: f, offset: off, len }] + placed_chunks(
                infos,
                start,
                f + 1,
                remaining - len,
            )
        }
    }
}

/// Where the placing meets no error, it places the data in all its chunks.
pub proof fn lemma_placed_chunks_all(infos: Seq<FileInfo>, start: FileOffsets, f: int, remaining: int)
    requires
        file_chunks(infos, start, f, remaining) is Ok,
    ensures
        placed_chunks(infos, start, f, remaining) == file_chunks(infos, start, f, remaining)->Ok_0,
    decreases infos.len() - f,
{
    if remaining > 0 {
        let off = chunk_offset(start, f);
        let avail = infos[f].length - off;
        let len = if remaining < avail {
            remaining
        } else {
            avail
        };
        lemma_placed_chunks_all(infos, start, f + 1, remaining - len);
    }
}

/// The writes that put `data` into the chunks, in order: file, offset and
/// bytes of each, every chunk taking the next bytes of the data.
pub open spec fn chunk_writes(chunks: Seq<FileChunk>, data: Seq<u8>) -> Seq<(int, int, Seq<u8>)>
    decreases chunks.len(),
{
    if chunks.len() == 0 {
        Seq::empty()
    } else {
        seq![(chunks[0].file_idx, chunks[0].offset, data.take(chunks[0].len))] + chunk_writes(
            chunks.drop_first(),
            data.skip(chunks[0].len),
        )
    }
}

/// The calls `made` are the first writes of `plan`, in order, each one made
/// only after the one before it succeeded.
pub open spec fn writes_follow(made: Seq<StorageCall>, plan: Seq<(int, int, Seq<u8>)>) -> bool {
    &&& made.len() <= plan.len()
    &&& forall|i: int|
        0 <= i < made.len() ==> (#[trigger] made[i] matches StorageCall::Write {
            file_idx,
            offset,
            data,
            result,
        } && file_idx == plan[i].0 && offset == plan[i].1 && data == plan[i].2 && (i + 1
            < made.len() ==> result is Ok))
}

/// What writing data laid out as `layout` gives after the writes `made` of
/// a plan of `planned` writes: the error of the last write where it failed;
/// else all the planned writes were made, and the result is `true` where
/// the files hold the data, the layout's error where they do not.
pub open spec fn write_outcome(
    made: Seq<StorageCall>,
    planned: int,
    layout: Result<Seq<FileChunk>, StorageError>,
    r: Result<bool, StorageError>,
) -> bool {
    if made.len() > 0 && made.last()->Write_result is Err {
        r == Err::<bool, StorageError>(made.last()->Write_result->Err_0)
    } else {
        &&& made.len() == planned
        &&& r == match layout {
            Ok(_) => Ok::<bool, StorageError>(true),
            Err(e) => Err(e),
        }
    }
}

/// The calls `made` are the reads of the first chunks of `plan`, in order,
/// each one made only after the one before it found all its bytes.
pub open spec fn reads_follow(made: Seq<StorageCall>, plan: Seq<FileChunk>) -> bool {
    &&& made.len() <= plan.len()
    &&& forall|i: int|
        0 <= i < made.len() ==> (#[trigger] made[i] matches StorageCall::Read {
            file_idx,
            offset,
            len,
            data,
            outcome,
        } && file_idx == plan[i].file_idx && offset == plan[i].offset && len == plan[i].len
            && data.len() == len && (i + 1 < made.len() ==> outcome == Ok::<bool, StorageError>(
            true,
        )))
}

/// What reading data laid out as `layout` gives after the reads `made` of
/// `planned` chunks: what the last read gave where it did not find all its
/// bytes; else all the chunks were read, and the result is `true` where the
/// files hold the data, the layout's error where they do not.
pub open spec fn read_outcome(
    made: Seq<StorageCall>,
    planned: int,
    layout: Result<Seq<FileChunk>, StorageError>,
    r: Result<bool, StorageError>,
) -> bool {
    if made.len() > 0 && made.last()->Read_outcome != Ok::<bool, StorageError>(true) {
        r == made.last()->Read_outcome
    } else {
        &&& made.len() == planned
        &&& r == match layout {
            Ok(_) => Ok::<bool, StorageError>(true),
            Err(e) => Err(e),
        }
    }
}

/// The calls `c1` are the calls `c0` followed by reads only.
pub open spec fn only_reads_after(c0: Seq<StorageCall>, c1: Seq<StorageCall>) -> bool {
    &&& c0.len() <= c1.len()
    &&& c1.take(c0.len() as int) == c0
    &&& forall|i: int| c0.len() <= i < c1.len() ==> (#[trigger] c1[i]) is Read
}

/// Calls that follow the reads of a plan, after `c0`, are reads only.
pub proof fn lemma_reads_only(c0: Seq<StorageCall>, c1: Seq<StorageCall>, plan: Seq<FileChunk>)
    requires
        c0.len() <= c1.len(),
        c1.take(c0.len() as int) == c0,
        reads_follow(c1.skip(c0.len() as int), plan),
    ensures
        only_reads_after(c0, c1),
{
    let made = c1.skip(c0.len() as int);
    assert forall|i: int| c0.len() <= i < c1.len() implies (#[trigger] c1[i]) is Read by {
        assert(made[i - c0.len()] == c1[i]);
    }
}

/// Reads after reads are reads.
pub proof fn lemma_only_reads_after_trans(a: Seq<StorageCall>, b: Seq<StorageCall>, c: Seq<StorageCall>)
    requires
        only_reads_after(a, b),
        only_reads_after(b, c),
    ensures
        only_reads_after(a, c),
{
    assert(c.take(a.len() as int) =~= b.take(a.len() as int)) by {
        assert forall|i: int| 0 <= i < a.len() implies c[i] == b[i] by {
            assert(c.take(b.len() as int)[i] == b[i]);
        }
    }
    assert forall|i: int| a.len() <= i < c.len() implies (#[trigger] c[i]) is Read by {
        if i < b.len() {
            assert(c.take(b.len() as int)[i] == b[i]);
            assert(b[i] is Read);
        }
    }
}

/// The bytes that the reads `made` left in the buffer, one after another.
pub open spec fn read_data(made: Seq<StorageCall>) -> Seq<u8>
    decreases made.len(),
{
    if made.len() == 0 {
        Seq::empty()
    } else {
        read_data(made.drop_last()) + made.last()->Read_data
    }
}

/// The error met before any byte of `remaining` bytes starting at `start`
/// is placed: where no file holds the start, or the first file's part does
/// not fit in a `usize`. `None` where the first chunk is placed, or there is
/// no data.
pub open spec fn first_chunk_error(infos: Seq<FileInfo>, start: FileOffsets, remaining: int) -> Option<
    StorageError,
> {
    let f = start.file_idx as int;
    if remaining <= 0 {
        None
    } else if f >= infos.len() {
        Some(StorageError::BadFileIdx)
    } else if infos[f].length - start.offset_into_file > usize::MAX {
        Some(StorageError::Conversion)
    } else {
        None
    }
}

/// The data's offset fits in its first file, where it has one.
pub open spec fn start_in_file(infos: Seq<FileInfo>, start: FileOffsets) -> bool {
    start.file_idx < infos.len() ==> start.offset_into_file <= infos[start.file_idx as int].length
}

/// The total length of some chunks.
pub open spec fn chunks_len(chunks: Seq<FileChunk>) -> int
    decreases chunks.len(),
{
    if chunks.len() == 0 {
        0
    } else {
        chunks[0].len + chunks_len(chunks.drop_first())
    }
}

/// The chunks of some data cover it exactly: their lengths add up to the
/// data's length, they lie in consecutive files from `f` on, and each lies
/// within its file.
pub proof fn lemma_file_chunks_cover(infos: Seq<FileInfo>, start: FileOffsets, f: int, remaining: int)
    requires
        start_in_file(infos, start),
        0 <= f,
        0 <= remaining,
        file_chunks(infos, start, f, remaining) is Ok,
    ensures
        ({
            let c = file_chunks(infos, start, f, remaining)->Ok_0;
            &&& chunks_len(c) == remaining
            &&& forall|i: int|
                0 <= i < c.len() ==> {
                    &&& (#[trigger] c[i]).file_idx == f + i
                    &&& 0 <= c[i].offset
                    &&& 0 <= c[i].len
                    &&& c[i].offset + c[i].len <= infos[c[i].file_idx].length
                }
        }),
    decreases infos.len() - f,
{
    if remaining > 0 {
        let off = chunk_offset(start, f);
        let avail = infos[f].length - off;
        let len = if remaining < avail {
            remaining
        } else {
            avail
        };
        lemma_file_chunks_cover(infos, start, f + 1, remaining - len);
        let rest = file_chunks(infos, start, f + 1, remaining - len)->Ok_0;
        let c = file_chunks(infos, start, f, remaining)->Ok_0;
        assert(c.drop_first() =~= rest);
        assert forall|i: int| 0 <= i < c.len() implies {
            &&& (#[trigger] c[i]).file_idx == f + i
            &&& 0 <= c[i].offset
            &&& 0 <= c[i].len
            &&& c[i].offset + c[i].len <= infos[c[i].file_idx].length
        } by {
            if i > 0 {
                assert(c[i] == rest[i - 1]);
            }
        }
    }
}

/// The next chunk of data starting at `start` that falls into file
/// `file_idx`, when `remaining` bytes are left: its offset and length.
pub fn next_chunk(file_infos: &[FileInfo], start: FileOffsets, file_idx: usize, remaining: usize) -> (r:
    Result<(u64, usize), StorageError>)
    requires
        remaining > 0,
        start_in_file(file_infos@, start),
    ensures
        ({
            let spec_r = file_chunks(file_infos@, start, file_idx as int, remaining as int);
            match r {
                Ok((off, len)) => {
                    &&& file_idx < file_infos@.len()
                    &&& placed_chunks(file_infos@, start, file_idx as int, remaining as int) == seq![
                        FileChunk { file_idx: file_idx as int, offset: off as int, len: len as int },
                    ] + placed_chunks(file_infos@, start, file_idx + 1, remaining - len)
                    &&& off == chunk_offset(start, file_idx as int)
                    &&& 0 <= len <= remaining
                    &&& file_infos@[file_idx as int].length - off <= usize::MAX
                    &&& len == (if remaining < file_infos@[file_idx as int].length - off {
                        remaining as int
                    } else {
                        file_infos@[file_idx as int].length - off
                    })
                    &&& match spec_r {
                        Ok(chunks) => match file_chunks(
                            file_infos@,
                            start,
                            file_idx + 1,
                            remaining - len,
                        ) {
                            Ok(rest) => chunks == seq![
                                FileChunk { file_idx: file_idx as int, offset: off as int, len: len as int },
                            ] + rest,
                            Err(_) => false,
                        },
                        Err(e) => file_chunks(file_infos@, start, file_idx + 1, remaining - len)
                            == Err::<Seq<FileChunk>, StorageError>(e),
                    }
                },
                Err(e) => spec_r == Err::<Seq<FileChunk>, StorageError>(e) && placed_chunks(
                    file_infos@,
                    start,
                    file_idx as int,
                    remaining as int,
                ) == Seq::<FileChunk>::empty(),
            }
        }),
{
    if file_idx >= file_infos.len() {
        return Err(StorageError::BadFileIdx);
    }
    let offset: u64 = if file_idx == start.file_idx {
        start.offset_into_file
    } else {
        0
    };
    let avail: u64 = file_infos[file_idx].length - offset;
    if avail > usize::MAX as u64 {
        return Err(StorageError::Conversion);
    }
    let avail = avail as usize;
    let len = if remaining < avail {
        remaining
    } else {
        avail
    };
    Ok((offset, len))
}

/// Writes `buf` to the files, starting at `file_offsets` and going on into
/// the files after it as each one fills up. Succeeds, with `true`, only
/// where the files can hold the data; fails where they cannot, or where the
/// storage fails.
///
/// The writes are those of `chunk_writes` over the chunks that the data is
/// placed in, in order; the first one that fails ends the writing, and its
/// error is returned.
pub fn write_data_to_files<S: Storage + ?Sized>(
    storage: &mut S,
    buf: &[u8],
    file_offsets: FileOffsets,
    file_infos: &[FileInfo],
) -> (r: Result<bool, StorageError>)
    requires
        buf@.len() > 0 ==> start_in_file(file_infos@, file_offsets),
    ensures
        r matches Ok(b) ==> b && file_chunks(
            file_infos@,
            file_offsets,
            file_offsets.file_idx as int,
            buf@.len() as int,
        ) is Ok,
        file_chunks(file_infos@, file_offsets, file_offsets.file_idx as int, buf@.len() as int) is Err
            ==> r is Err,
        buf@.len() == 0 ==> r == Ok::<bool, StorageError>(true),
        first_chunk_error(file_infos@, file_offsets, buf@.len() as int) matches Some(e) ==> r
            == Err::<bool, StorageError>(e),
        S::records_calls() ==> ({
            let c0 = old(storage).calls();
            let made = final(storage).calls().skip(c0.len() as int);
            let chunks = placed_chunks(
                file_infos@,
                file_offsets,
                file_offsets.file_idx as int,
                buf@.len() as int,
            );
            let plan = chunk_writes(chunks, buf@);
            &&& c0.len() <= final(storage).calls().len()
            &&& final(storage).calls().take(c0.len() as int) == c0
            &&& writes_follow(made, plan)
            &&& write_outcome(
                made,
                plan.len() as int,
                file_chunks(file_infos@, file_offsets, file_offsets.file_idx as int, buf@.len() as int),
                r,
            )
        }),
{
    let n_files = file_infos.len();
    let mut file_idx = file_offsets.file_idx;
    let mut bytes_to_write = buf.len();
    let ghost mut first = true;
    let ghost c0 = storage.calls();
    let ghost full = file_chunks(
        file_infos@,
        file_offsets,
        file_offsets.file_idx as int,
        buf@.len() as int,
    );
    let ghost plan = chunk_writes(
        placed_chunks(file_infos@, file_offsets, file_offsets.file_idx as int, buf@.len() as int),
        buf@,
    );
    let ghost mut made: Seq<StorageCall> = Seq::empty();
    assert(plan.skip(0) =~= plan);
    assert(buf@.skip(0) =~= buf@);
    while bytes_to_write != 0
        invariant
            first ==> file_idx == file_offsets.file_idx && bytes_to_write == buf@.len(),
            !first ==> first_chunk_error(file_infos@, file_offsets, buf@.len() as int) is None,
            n_files == file_infos@.len(),
            bytes_to_write <= buf@.len(),
            buf@.len() > 0 ==> start_in_file(file_infos@, file_offsets),
            file_idx >= file_offsets.file_idx,
            full == file_chunks(
                file_infos@,
                file_offsets,
                file_offsets.file_idx as int,
                buf@.len() as int,
            ),
            full is Ok <==> file_chunks(file_infos@, file_offsets, file_idx as int, bytes_to_write as int) is Ok,
            full is Err ==> full == file_chunks(
                file_infos@,
                file_offsets,
                file_idx as int,
                bytes_to_write as int,
            ),
            plan == chunk_writes(
                placed_chunks(
                    file_infos@,
                    file_offsets,
                    file_offsets.file_idx as int,
                    buf@.len() as int,
                ),
                buf@,
            ),
            c0 == old(storage).calls(),
            S::records_calls() ==> storage.calls() == c0 + made,
            writes_follow(made, plan),
            forall|i: int| 0 <= i < made.len() ==> (#[trigger] made[i])->Write_result is Ok,
            plan.skip(made.len() as int) == chunk_writes(
                placed_chunks(file_infos@, file_offsets, file_idx as int, bytes_to_write as int),
                buf@.skip(buf@.len() - bytes_to_write),
            ),
        decreases file_infos@.len() + 1 - file_idx,
    {
        let step = next_chunk(file_infos, file_offsets, file_idx, bytes_to_write);
        let (offset, current) = match step {
            Ok(c) => c,
            Err(e) => {
                assert(plan.skip(made.len() as int) =~= Seq::<(int, int, Seq<u8>)>::empty());
                return Err(e);
            },
        };
        assert(file_idx < file_infos@.len());
        let written_bytes = buf.len() - bytes_to_write;
        let ghost rest = buf@.skip(written_bytes as int);
        let ghost chunk = FileChunk { file_idx: file_idx as int, offset: offset as int, len: current as int };
        let ghost next = placed_chunks(
            file_infos@,
            file_offsets,
            file_idx + 1,
            bytes_to_write - current,
        );
        proof {
            assert((seq![chunk] + next).drop_first() =~= next);
            assert(rest.take(current as int) =~= buf@.subrange(
                written_bytes as int,
                written_bytes + current,
            ));
            assert(rest.skip(current as int) =~= buf@.skip(written_bytes + current));
            let cw = chunk_writes(seq![chunk] + next, rest);
            assert(cw == seq![(file_idx as int, offset as int, rest.take(current as int))]
                + chunk_writes(next, rest.skip(current as int)));
            assert(plan.skip(made.len() as int) == cw);
            assert(cw.len() > 0);
            assert(made.len() < plan.len());
            assert(plan.skip(made.len() as int)[0] == plan[made.len() as int]);
            assert(plan[made.len() as int] == cw[0]);
        }
        let data = &buf[written_bytes..written_bytes + current];
        let written = storage.write_all(file_idx, offset, data);
        proof {
            let call = StorageCall::Write { file_idx, offset, data: data@, result: written };
            assert(plan.skip((made.len() + 1) as int) =~= plan.skip(made.len() as int).drop_first());
            made = made.push(call);
            assert(made.drop_last() =~= made.take(made.len() - 1));
        }
        match written {
            Ok(()) => {},
            Err(e) => return Err(e),
        }
        proof {
            first = false;
        }
        file_idx = file_idx + 1;
        bytes_to_write = bytes_to_write - current;
    }
    proof {
        assert(buf@.skip(buf@.len() as int) =~= Seq::<u8>::empty());
    }
    Ok(true)
}

/// Reads the first `piece_length` bytes of `buf` from the files, starting at
/// `file_offsets` and going on into the files after it. `false` where a file
/// ended early; succeeds, with `true`, only where the files can hold the
/// data; fails where they cannot, or where the storage fails.
///
/// The reads are those of the chunks that the data is placed in, in order,
/// each into the next stretch of the buffer; the first one that does not
/// find all its bytes ends the reading, and what it gave is returned.
pub fn read_data_from_files<S: Storage + ?Sized>(
    storage: &mut S,
    buf: &mut [u8],
    file_offsets: FileOffsets,
    file_infos: &[FileInfo],
    piece_length: usize,
) -> (r: Result<bool, StorageError>)
    requires
        piece_length <= old(buf)@.len(),
        piece_length > 0 ==> start_in_file(file_infos@, file_offsets),
    ensures
        final(buf)@.len() == old(buf)@.len(),
        r == Ok::<bool, StorageError>(true) ==> file_chunks(
            file_infos@,
            file_offsets,
            file_offsets.file_idx as int,
            piece_length as int,
        ) is Ok,
        file_chunks(file_infos@, file_offsets, file_offsets.file_idx as int, piece_length as int) is Err
            ==> r != Ok::<bool, StorageError>(true),
        piece_length == 0 ==> r == Ok::<bool, StorageError>(true) && final(buf)@ == old(buf)@,
        first_chunk_error(file_infos@, file_offsets, piece_length as int) matches Some(e) ==> r
            == Err::<bool, StorageError>(e) && final(buf)@ == old(buf)@,
        S::records_calls() ==> ({
            let c0 = old(storage).calls();
            let made = final(storage).calls().skip(c0.len() as int);
            let plan = placed_chunks(
                file_infos@,
                file_offsets,
                file_offsets.file_idx as int,
                piece_length as int,
            );
            &&& c0.len() <= final(storage).calls().len()
            &&& final(storage).calls().take(c0.len() as int) == c0
            &&& reads_follow(made, plan)
            &&& read_outcome(
                made,
                plan.len() as int,
                file_chunks(file_infos@, file_offsets, file_offsets.file_idx as int, piece_length as int),
                r,
            )
            &&& final(buf)@ == read_data(made) + old(buf)@.skip(read_data(made).len() as int)
        }),
{
    let n_files = file_infos.len();
    let mut file_idx = file_offsets.file_idx;
    let mut bytes_to_read = piece_length;
    let ghost mut first = true;
    let ghost c0 = storage.calls();
    let ghost full = file_chunks(
        file_infos@,
        file_offsets,
        file_offsets.file_idx as int,
        piece_length as int,
    );
    let ghost plan = placed_chunks(
        file_infos@,
        file_offsets,
        file_offsets.file_idx as int,
        piece_length as int,
    );
    let ghost mut made: Seq<StorageCall> = Seq::empty();
    assert(plan.skip(0) =~= plan);
    assert(old(buf)@.skip(0) =~= old(buf)@);
    while bytes_to_read != 0
        invariant
            first ==> file_idx == file_offsets.file_idx && bytes_to_read == piece_length && buf@
                == old(buf)@,
            !first ==> first_chunk_error(file_infos@, file_offsets, piece_length as int) is None,
            piece_length == 0 ==> first,
            n_files == file_infos@.len(),
            bytes_to_read <= piece_length,
            piece_length <= buf@.len(),
            buf@.len() == old(buf)@.len(),
            piece_length > 0 ==> start_in_file(file_infos@, file_offsets),
            file_idx >= file_offsets.file_idx,
            full == file_chunks(
                file_infos@,
                file_offsets,
                file_offsets.file_idx as int,
                piece_length as int,
            ),
            full is Ok <==> file_chunks(file_infos@, file_offsets, file_idx as int, bytes_to_read as int) is Ok,
            full is Err ==> full == file_chunks(
                file_infos@,
                file_offsets,
                file_idx as int,
                bytes_to_read as int,
            ),
            plan == placed_chunks(
                file_infos@,
                file_offsets,
                file_offsets.file_idx as int,
                piece_length as int,
            ),
            c0 == old(storage).calls(),
            S::records_calls() ==> storage.calls() == c0 + made,
            reads_follow(made, plan),
            forall|i: int|
                0 <= i < made.len() ==> (#[trigger] made[i])->Read_outcome == Ok::<bool, StorageError>(
                    true,
                ),
            plan.skip(made.len() as int) == placed_chunks(
                file_infos@,
                file_offsets,
                file_idx as int,
                bytes_to_read as int,
            ),
            read_data(made).len() == piece_length - bytes_to_read,
            buf@ == read_data(made) + old(buf)@.skip(piece_length - bytes_to_read),
        decreases file_infos@.len() + 1 - file_idx,
    {
        let step = next_chunk(file_infos, file_offsets, file_idx, bytes_to_read);
        let (offset, current) = match step {
            Ok(c) => c,
            Err(e) => {
                assert(plan.skip(made.len() as int) =~= Seq::<FileChunk>::empty());
                proof {
                    assert((c0 + made).skip(c0.len() as int) =~= made);
                    assert((c0 + made).take(c0.len() as int) =~= c0);
                }
                return Err(e);
            },
        };
        assert(file_idx < file_infos@.len());
        let read_bytes = piece_length - bytes_to_read;
        let ghost before = buf@;
        let ghost chunk_spec = FileChunk {
            file_idx: file_idx as int,
            offset: offset as int,
            len: current as int,
        };
        proof {
            let next = placed_chunks(file_infos@, file_offsets, file_idx + 1, bytes_to_read - current);
            assert(plan.skip(made.len() as int) == seq![chunk_spec] + next);
            assert(made.len() < plan.len());
            assert(plan.skip(made.len() as int)[0] == plan[made.len() as int]);
            assert(plan.skip((made.len() + 1) as int) =~= plan.skip(made.len() as int).drop_first());
            assert((seq![chunk_spec] + next).drop_first() =~= next);
        }
        let (_, rest) = buf.split_at_mut(read_bytes);
        let (chunk, _) = rest.split_at_mut(current);
        let found = storage.read_exact(file_idx, offset, chunk);
        let ghost got = chunk@;
        proof {
            let call = StorageCall::Read {
                file_idx,
                offset,
                len: current as nat,
                data: got,
                outcome: found,
            };
            let made1 = made.push(call);
            assert(made1.drop_last() =~= made);
            assert(read_data(made1) == read_data(made) + got);
            made = made1;
        }
        assert(buf@ =~= before.take(read_bytes as int) + got + before.skip(read_bytes + current));
        assert(before.take(read_bytes as int) =~= read_data(made.drop_last()));
        assert(before.skip(read_bytes + current) =~= old(buf)@.skip(read_bytes + current));
        assert(buf@ =~= read_data(made) + old(buf)@.skip(read_bytes + current));
        proof {
            assert((c0 + made).skip(c0.len() as int) =~= made);
            assert((c0 + made).take(c0.len() as int) =~= c0);
        }
        let file_had_enough_bytes = match found {
            Ok(b) => b,
            Err(e) => return Err(e),
        };
        if !file_had_enough_bytes {
            return Ok(false);
        }
        proof {
            first = false;
        }
        file_idx = file_idx + 1;
        bytes_to_read = bytes_to_read - current;
    }
    proof {
        assert(plan.skip(made.len() as int) =~= Seq::<FileChunk>::empty());
        assert((c0 + made).skip(c0.len() as int) =~= made);
        assert((c0 + made).take(c0.len() as int) =~= c0);
    }
    Ok(true)
}

} // verus!
