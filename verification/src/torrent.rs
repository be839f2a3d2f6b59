//! What a torrent is made of once its metainfo is read: its piece hashes,
//! its length, its layout, and the announce URL with the request's query.

use vstd::prelude::*;
use vstd::string::StringExecFns;

use crate::bencode::grammar::ascii_chars;
use crate::parser::Info;
use crate::tracker::{query_params, TrackerRequest};

verus! {

#[verifier::external_type_specification]
#[verifier::external_body]
pub struct ExUrl(url::Url);

#[verifier::external_type_specification]
#[verifier::external_body]
pub struct ExUrlParseError(url::ParseError);

/// Why setting up a torrent failed.
#[derive(Debug)]
pub enum Error {
    /// The metainfo could not be decoded.
    ParsingError(crate::bencode::Error),
    /// An internal conversion or consistency check failed.
    InternalError(&'static str),
    /// A downloaded piece has another hash than expected.
    PieceHashMismatch([u8; 20], [u8; 20]),
    /// A peer announced another torrent.
    BadInfoHash([u8; 20]),
    /// A piece index past the last piece, and the number of pieces.
    WrongPieceIndex(u32, u32),
    /// A peer wire message could not be encoded or decoded.
    BittorentProtocolError(crate::protocol::Error),
    /// The tracker's announce URL could not be parsed.
    BadAnnounceUrl(url::ParseError),
}

/// What a torrent's peers need to know of it.
#[derive(Debug, Clone)]
pub struct TorrentMeta {
    pub info_hash: [u8; 20],
    pub piece_size: usize,
    pub number_of_pieces: usize,
    pub total_length: usize,
}

impl TorrentMeta {
    pub fn new(info_hash: [u8; 20], piece_size: usize, total_length: usize, number_of_pieces: usize) -> (r:
        Result<Self, Error>)
        ensures
            r matches Ok(m) && m.info_hash == info_hash && m.piece_size == piece_size
                && m.number_of_pieces == number_of_pieces && m.total_length == total_length,
    {
        Ok(TorrentMeta { info_hash, piece_size, number_of_pieces, total_length })
    }
}

/// The piece hashes in the concatenation `pieces`: twenty bytes each.
pub open spec fn piece_hashes(pieces: Seq<u8>) -> Seq<Seq<u8>> {
    Seq::new(pieces.len() / 20, |i: int| pieces.subrange(20 * i, 20 * i + 20))
}

/// Cuts the concatenated piece hashes into hashes of twenty bytes. An error
/// where the last one is shorter.
pub fn split_piece_hashes(pieces: &[u8]) -> (r: Result<Vec<[u8; 20]>, Error>)
    ensures
        pieces@.len() % 20 != 0 ==> r is Err,
        pieces@.len() % 20 == 0 ==> (r matches Ok(v) && v@.len() == pieces@.len() / 20 && forall|
            i: int,
        |
            0 <= i < v@.len() ==> (#[trigger] v@[i])@ == piece_hashes(pieces@)[i]),
{
    let len = pieces.len();
    if len % 20 != 0 {
        return Err(Error::InternalError("Type casting error"));
    }
    let n = len / 20;
    let mut hashes: Vec<[u8; 20]> = Vec::with_capacity(n);
    let mut i: usize = 0;
    while i < n
        invariant
            len == pieces@.len(),
            n == len / 20,
            len % 20 == 0,
            i <= n,
            hashes@.len() == i,
            forall|j: int| 0 <= j < i ==> (#[trigger] hashes@[j])@ == piece_hashes(pieces@)[j],
        decreases n - i,
    {
        assert(20 * i + 20 <= len) by (nonlinear_arith)
            requires
                i < n,
                n == len / 20,
        ;
        let mut h = [0u8; 20];
        let mut k: usize = 0;
        while k < 20
            invariant
                k <= 20,
                20 * i + 20 <= len,
                len == pieces@.len(),
                h@.len() == 20,
                forall|j: int| 0 <= j < k ==> h@[j] == pieces@[20 * i + j],
            decreases 20 - k,
        {
            h[k] = pieces[20 * i + k];
            k = k + 1;
        }
        assert(h@ =~= piece_hashes(pieces@)[i as int]);
        hashes.push(h);
        i = i + 1;
    }
    Ok(hashes)
}

/// The sum of the files' lengths.
pub open spec fn files_total(files: Seq<crate::parser::File>) -> int
    decreases files.len(),
{
    if files.len() == 0 {
        0
    } else {
        files_total(files.drop_last()) + files.last().length
    }
}

/// Whether every running total of the files' lengths fits in a `u64`, as
/// `total_torrent_length` needs.
pub fn files_total_fits(info: &Info) -> (r: bool)
    ensures
        r == match info.files {
            Some(fs) => forall|k: int|
                0 <= k <= fs@.len() ==> #[trigger] files_total(fs@.take(k)) <= u64::MAX,
            None => true,
        },
{
    match &info.files {
        None => true,
        Some(files) => {
            assert(info.files == Some(*files));
            let mut total: u64 = 0;
            let mut i: usize = 0;
            assert(files@.take(0) =~= Seq::<crate::parser::File>::empty());
            while i < files.len()
                invariant
                    info.files == Some(*files),
                    i <= files@.len(),
                    total == files_total(files@.take(i as int)),
                    forall|k: int| 0 <= k <= i ==> #[trigger] files_total(files@.take(k)) <= u64::MAX,
                decreases files@.len() - i,
            {
                assert(files@.take(i + 1).drop_last() =~= files@.take(i as int));
                match total.checked_add(files[i].length) {
                    Some(t) => total = t,
                    None => {
                        assert(files_total(files@.take(i + 1)) > u64::MAX);
                        let ghost fs = info.files->Some_0;
                        assert(fs@ == files@);
                        assert(files_total(fs@.take(i + 1)) > u64::MAX);
                        return false;
                    },
                }
                i = i + 1;
            }
            true
        },
    }
}

/// The length of a torrent: the sum of its files' lengths, or its single
/// length. An error where it has neither, or where the length does not fit
/// in a `usize`.
pub fn total_torrent_length(info: &Info) -> (r: Result<usize, Error>)
    requires
        info.files matches Some(fs) ==> forall|k: int|
            0 <= k <= fs@.len() ==> #[trigger] files_total(fs@.take(k)) <= u64::MAX,
    ensures
        match info.files {
            Some(fs) => if files_total(fs@) <= usize::MAX {
                r == Ok::<usize, Error>(files_total(fs@) as usize)
            } else {
                r is Err
            },
            None => match info.length {
                Some(l) => if l <= usize::MAX {
                    r == Ok::<usize, Error>(l as usize)
                } else {
                    r is Err
                },
                None => r is Err,
            },
        },
{
    match &info.files {
        Some(files) => {
            let mut acc: u64 = 0;
            let mut i: usize = 0;
            while i < files.len()
                invariant
                    i <= files@.len(),
                    acc == files_total(files@.take(i as int)),
                    forall|k: int|
                        0 <= k <= files@.len() ==> #[trigger] files_total(files@.take(k)) <= u64::MAX,
                decreases files@.len() - i,
            {
                assert(files@.take(i + 1).drop_last() =~= files@.take(i as int));
                assert(files_total(files@.take(i + 1)) <= u64::MAX);
                acc = acc + files[i].length;
                i = i + 1;
            }
            assert(files@.take(files@.len() as int) =~= files@);
            if acc > usize::MAX as u64 {
                Err(Error::InternalError("converting total torrent length to usize"))
            } else {
                Ok(acc as usize)
            }
        },
        None => match info.length {
            Some(len) => {
                if len > usize::MAX as u64 {
                    Err(Error::InternalError("converting total torrent length to usize"))
                } else {
                    Ok(len as usize)
                }
            },
            None => Err(
                Error::InternalError(
                    "Malformed torrent file: both 'files' and 'length' fields are missing",
                ),
            ),
        },
    }
}

/// The download counts after the initial check found `verified_pieces` of
/// `number_of_pieces` pieces on disk: `None` where all are there, else the
/// bytes downloaded, counting whole pieces, and the bytes left.
pub fn initial_progress(
    verified_pieces: usize,
    number_of_pieces: usize,
    piece_length: usize,
    total_length: usize,
) -> (r: Option<(usize, usize)>)
    requires
        verified_pieces != number_of_pieces ==> verified_pieces * piece_length <= total_length,
    ensures
        verified_pieces == number_of_pieces ==> r is None,
        verified_pieces != number_of_pieces ==> r == Some(
            (
                (verified_pieces * piece_length) as usize,
                (total_length - verified_pieces * piece_length) as usize,
            ),
        ),
{
    if verified_pieces == number_of_pieces {
        return None;
    }
    proof {
        assert(verified_pieces * piece_length <= usize::MAX);
    }
    let downloaded = verified_pieces * piece_length;
    Some((downloaded, total_length - downloaded))
}

/// The query of an announce URL that had `existing` as its query, once the
/// request's own query is added: the existing query first, then `&`.
pub open spec fn combined_query(existing: Option<Seq<char>>, query: Seq<char>) -> Seq<char> {
    match existing {
        Some(e) => e + seq!['&'] + query,
        None => query,
    }
}

/// The query that a URL holds, as `url::Url::query` reads it.
pub uninterp spec fn url_query_of(url: url::Url) -> Option<Seq<char>>;

/// The URL with its query replaced, as `url::Url::set_query` makes it.
pub uninterp spec fn url_with_query(url: url::Url, query: Seq<char>) -> url::Url;

/// The URL that a string parses as, as `url::Url::parse` reads it.
pub uninterp spec fn url_parsed(s: Seq<char>) -> Option<url::Url>;

/// Calls `url::Url::parse`: the URL that `s` holds, or the parse error.
#[verifier::external_body]
fn url_parse(s: &str) -> (r: Result<url::Url, url::ParseError>)
    ensures
        r is Ok <==> url_parsed(s@) is Some,
        r matches Ok(u) ==> Some(u) == url_parsed(s@),
{
    url::Url::parse(s)
}

/// Calls `url::Url::query`: the URL's query, if it has one.
#[verifier::external_body]
fn url_query(u: &url::Url) -> (r: Option<String>)
    ensures
        match r {
            Some(q) => url_query_of(*u) == Some(q@),
            None => url_query_of(*u) is None,
        },
{
    u.query().map(|q| q.to_string())
}

/// The length in bytes of the text of a URL, as `url::Url::as_str` shows it.
pub uninterp spec fn url_serialization_len(url: url::Url) -> nat;

/// Calls `url::Url::as_str` and takes the length in bytes of that text.
#[verifier::external_body]
fn url_len(u: &url::Url) -> (r: usize)
    ensures
        r == url_serialization_len(*u),
{
    u.as_str().len()
}

/// Whether a URL of `url_len` bytes can take a query of `query_len` chars:
/// the new text up to its fragment must have a length that fits in a `u32`,
/// and each char of the query takes at most four bytes, each of which
/// becomes at most three once percent-encoded.
pub open spec fn query_fits(url_len: nat, query_len: nat) -> bool {
    url_len + 1 + 12 * query_len <= u32::MAX
}

/// Calls `url::Url::set_query` with a query. `set_query` panics where the
/// length of the new text, before the fragment, does not fit in a `u32`;
/// the bound rules that out.
#[verifier::external_body]
fn url_set_query(u: &mut url::Url, query: &str)
    requires
        query_fits(url_serialization_len(*old(u)), query@.len()),
    ensures
        *final(u) == url_with_query(*old(u), query@),
{
    u.set_query(Some(query))
}

/// The announce URL with the request's query added after any query that it
/// had; an internal error where the URL would grow too long to be addressed.
pub fn params(url: &str, request: TrackerRequest<'_>) -> (r: Result<url::Url, Error>)
    ensures
        url_parsed(url@) is None ==> r is Err,
        url_parsed(url@) matches Some(u) ==> ({
            let full = combined_query(url_query_of(u), ascii_chars(query_params(request)));
            if query_fits(url_serialization_len(u), full.len()) {
                r matches Ok(v) && v == url_with_query(u, full)
            } else {
                r matches Err(e) && e is InternalError
            }
        }),
{
    let ghost q = query_params(request);
    let mut parsed = match url_parse(url) {
        Ok(u) => u,
        Err(e) => return Err(Error::BadAnnounceUrl(e)),
    };
    let query = match request.into_query_params() {
        Ok(q) => q,
        Err(_) => return Err(Error::InternalError("failed to serialize the tracker request")),
    };
    assert(query@ == ascii_chars(q));
    proof {
        reveal_strlit("&");
    }
    let full = match url_query(&parsed) {
        Some(existing) => {
            let mut s = existing;
            s.append("&");
            s.append(query.as_str());
            assert(s@ =~= combined_query(url_query_of(parsed), query@));
            s
        },
        None => query,
    };
    assert(full@ == combined_query(url_query_of(parsed), ascii_chars(q)));
    let current = url_len(&parsed) as u64;
    let query_len = full.as_str().unicode_len() as u64;
    if current > 0xffff_ffffu64 || query_len > 0xffff_ffffu64 || current + 1 + 12 * query_len
        > 0xffff_ffffu64 {
        return Err(Error::InternalError("announce URL too long"));
    }
    url_set_query(&mut parsed, full.as_str());
    Ok(parsed)
}

} // verus!
