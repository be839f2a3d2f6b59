//! The files that a torrent's info dictionary describes, under a base
//! directory.

use std::borrow::Cow;
use std::path::{Path, PathBuf};
use vstd::prelude::*;

use super::{FileInfo, StorageError};
use crate::parser::Info;

verus! {

#[verifier::external_type_specification]
#[verifier::external_body]
pub struct ExPath(Path);

/// The owned copy of a path that `Path::to_path_buf` makes.
pub uninterp spec fn owned_path(p: &Path) -> PathBuf;

/// The path that `PathBuf::push` makes of `p` and one more component.
pub uninterp spec fn pushed(p: PathBuf, part: Seq<char>) -> PathBuf;

/// Calls `Path::to_path_buf`: an owned copy of the path.
#[verifier::external_body]
fn path_to_buf(p: &Path) -> (r: PathBuf)
    ensures
        r == owned_path(p),
{
    p.to_path_buf()
}

/// Calls `PathBuf::push`: the path with one more component.
#[verifier::external_body]
fn path_push(p: &mut PathBuf, part: &str)
    ensures
        *final(p) == pushed(*old(p), part@),
{
    p.push(part)
}

/// Calls `PathBuf::as_path`: the path that the buffer holds, of which
/// `Path::to_path_buf` makes the same buffer again.
#[verifier::external_body]
fn path_as_path(p: &PathBuf) -> (r: &Path)
    ensures
        owned_path(r) == *p,
{
    p.as_path()
}

/// `base` with the components `parts` pushed onto it, first to last.
pub open spec fn joined(base: PathBuf, parts: Seq<Seq<char>>) -> PathBuf
    decreases parts.len(),
{
    if parts.len() == 0 {
        base
    } else {
        pushed(joined(base, parts.drop_last()), parts.last())
    }
}

/// The texts of the components of a file's path.
pub open spec fn part_texts(parts: Seq<Cow<str>>) -> Seq<Seq<char>> {
    Seq::new(parts.len(), |i: int| parts[i]@)
}

/// The string that a `Cow` holds.
fn cow_as_str<'b>(c: &'b Cow<'_, str>) -> (r: &'b str)
    ensures
        r@ == c@,
{
    match c {
        Cow::Borrowed(s) => s,
        Cow::Owned(s) => s.as_str(),
    }
}

/// A torrent's files, in the order of the info dictionary.
#[derive(Debug)]
pub struct TorrentFileMetadata {
    pub file_infos: Vec<FileInfo>,
}

impl TorrentFileMetadata {
    /// The files of the torrent: each file of a torrent with several files,
    /// at its path under `base_path`, or the single file, named after the
    /// torrent, under `base_path`. An error where a single-file torrent has
    /// no length.
    pub fn new(info: &mut Info, base_path: &Path) -> (r: Result<Self, StorageError>)
        ensures
            match old(info).files {
                Some(files) => r matches Ok(m) && m.file_infos@.len() == files@.len() && forall|i: int|
                    0 <= i < files@.len() ==> (#[trigger] m.file_infos@[i]).length == files@[i].length
                        && m.file_infos@[i].path == joined(
                        owned_path(base_path),
                        part_texts(files@[i].path@),
                    ),
                None => match old(info).length {
                    Some(l) => r matches Ok(m) && m.file_infos@.len() == 1 && m.file_infos@[0].length
                        == l && m.file_infos@[0].path == pushed(
                        owned_path(base_path),
                        old(info).name@,
                    ),
                    None => r matches Err(StorageError::MissingLength),
                },
            },
            *final(info) == *old(info),
    {
        let mut file_infos: Vec<FileInfo> = Vec::new();
        match &info.files {
            Some(files) => {
                let mut i: usize = 0;
                while i < files.len()
                    invariant
                        i <= files@.len(),
                        file_infos@.len() == i,
                        forall|j: int|
                            0 <= j < i ==> (#[trigger] file_infos@[j]).length == files@[j].length
                                && file_infos@[j].path == joined(
                                owned_path(base_path),
                                part_texts(files@[j].path@),
                            ),
                    decreases files@.len() - i,
                {
                    let file = &files[i];
                    let mut path = path_to_buf(base_path);
                    let mut k: usize = 0;
                    while k < file.path.len()
                        invariant
                            k <= file.path@.len(),
                            path == joined(owned_path(base_path), part_texts(file.path@).take(k as int)),
                        decreases file.path@.len() - k,
                    {
                        let part = cow_as_str(&file.path[k]);
                        path_push(&mut path, part);
                        proof {
                            let t = part_texts(file.path@);
                            assert(t.take(k + 1).drop_last() =~= t.take(k as int));
                            assert(t.take(k + 1).last() == part@);
                        }
                        k = k + 1;
                    }
                    assert(part_texts(file.path@).take(file.path@.len() as int) =~= part_texts(
                        file.path@,
                    ));
                    file_infos.push(FileInfo::new(path, file.length));
                    i = i + 1;
                }
            },
            None => {
                let mut path = path_to_buf(base_path);
                path_push(&mut path, cow_as_str(&info.name));
                let length = match info.length {
                    Some(l) => l,
                    None => return Err(StorageError::MissingLength),
                };
                file_infos.push(FileInfo::new(path, length));
            },
        }
        Ok(TorrentFileMetadata { file_infos })
    }

    /// The files of a torrent downloaded to `download_path`: a single file
    /// lies right there, the files of a torrent with several lie in a
    /// directory named after the torrent, each at its own path.
    pub fn for_download(info: &mut Info, download_path: &Path) -> (r: Result<Self, StorageError>)
        ensures
            match old(info).files {
                Some(files) => r matches Ok(m) && m.file_infos@.len() == files@.len() && forall|i: int|
                    0 <= i < files@.len() ==> (#[trigger] m.file_infos@[i]).length == files@[i].length
                        && m.file_infos@[i].path == joined(
                        pushed(owned_path(download_path), old(info).name@),
                        part_texts(files@[i].path@),
                    ),
                None => match old(info).length {
                    Some(l) => r matches Ok(m) && m.file_infos@.len() == 1 && m.file_infos@[0].length
                        == l && m.file_infos@[0].path == pushed(
                        owned_path(download_path),
                        old(info).name@,
                    ),
                    None => r matches Err(StorageError::MissingLength),
                },
            },
            *final(info) == *old(info),
    {
        let mut base = path_to_buf(download_path);
        if info.files.is_some() {
            path_push(&mut base, cow_as_str(&info.name));
        }
        Self::new(info, path_as_path(&base))
    }
}

} // verus!
