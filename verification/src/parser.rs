//! The metainfo file of a torrent: its types, how they are read from bencode,
//! and the hash of the info dictionary that names the torrent.

use std::borrow::Cow;
use vstd::prelude::*;
use vstd::string::StringSliceAdditionalSpecFns;
use vstd::utf8::encode_utf8;

use crate::bencode::access::{
    as_text, as_text_list, as_uint, dict_get, get, is_absent, opt_text, opt_uint, opt_view,
    present, text_list_of, text_of, uint_of,
};
use crate::bencode::de::checked_from_bytes;
use crate::bencode::grammar::{spec_value, Parsed};
use crate::bencode::ser::{spec_encode, spec_encode_dict, spec_encode_list, Serializer};
use crate::bencode::value::{lemma_view_list, view_list, view_value, BValue, BencodeValue};
use crate::hash::{sha1, sha1_array};

verus! {

/// One file of a torrent with several files.
#[derive(Clone, Debug)]
pub struct File<'a> {
    /// Length of the file in bytes.
    pub length: u64,
    /// MD5 sum of the file.
    pub md5sum: Option<Cow<'a, str>>,
    /// The path of the file, one element per directory and the file's name
    /// last.
    pub path: Vec<Cow<'a, str>>,
}

/// The info dictionary of a torrent.
#[derive(Debug)]
pub struct Info<'a> {
    /// The files, for a torrent with several files.
    pub files: Option<Vec<File<'a>>>,
    /// Length of the file in bytes, for a torrent of a single file.
    pub length: Option<u64>,
    /// The file's name, or the directory's for several files.
    pub name: Cow<'a, str>,
    /// Number of bytes in each piece.
    pub piece_length: usize,
    /// The pieces' SHA-1 hashes, twenty bytes each, one after the other.
    pub pieces: Cow<'a, [u8]>,
    /// Whether peers come only from the tracker (1) or not (0).
    pub private: Option<u8>,
    /// MD5 sum of the file, for a torrent of a single file.
    pub md5sum: Option<Cow<'a, str>>,
}

/// A metainfo file.
#[derive(Debug)]
pub struct MetaInfo<'a> {
    /// The torrent's files.
    pub info: Info<'a>,
    /// The tracker's announce URL.
    pub announce: Cow<'a, str>,
    /// The string encoding of the pieces.
    pub encoding: Option<Cow<'a, str>>,
    /// Tiers of announce URLs.
    pub announce_list: Option<Vec<Vec<Cow<'a, str>>>>,
    /// When the torrent was made, in seconds since the UNIX epoch.
    pub creation_date: Option<u64>,
    /// The author's comments.
    pub comment: Option<Cow<'a, str>>,
    /// The program that made the metainfo file.
    pub created_by: Option<Cow<'a, str>>,
}

/// Why a metainfo operation failed.
#[derive(Debug)]
pub enum MetaInfoError {
    /// The info dictionary could not be serialised.
    Serialization,
    /// The file is not bencode.
    Decode(crate::bencode::Error),
    /// The bencode is not a metainfo file: a field is missing or of the
    /// wrong kind.
    Malformed,
}

/// `files`
pub open spec fn key_files() -> Seq<u8> {
    seq![102u8, 105, 108, 101, 115]
}

/// `length`
pub open spec fn key_length() -> Seq<u8> {
    seq![108u8, 101, 110, 103, 116, 104]
}

/// `name`
pub open spec fn key_name() -> Seq<u8> {
    seq![110u8, 97, 109, 101]
}

/// `piece length`
pub open spec fn key_piece_length() -> Seq<u8> {
    seq![112u8, 105, 101, 99, 101, 32, 108, 101, 110, 103, 116, 104]
}

/// `pieces`
pub open spec fn key_pieces() -> Seq<u8> {
    seq![112u8, 105, 101, 99, 101, 115]
}

/// `private`
pub open spec fn key_private() -> Seq<u8> {
    seq![112u8, 114, 105, 118, 97, 116, 101]
}

/// `md5sum`
pub open spec fn key_md5sum() -> Seq<u8> {
    seq![109u8, 100, 53, 115, 117, 109]
}

/// `path`
pub open spec fn key_path() -> Seq<u8> {
    seq![112u8, 97, 116, 104]
}

/// A dictionary entry where there is a value, none where there is not.
pub open spec fn opt_entry(key: Seq<u8>, v: Option<BValue>) -> Seq<(Seq<u8>, BValue)> {
    match v {
        Some(x) => seq![(key, x)],
        None => Seq::empty(),
    }
}

/// A string as a bencode byte string: its UTF-8 bytes.
pub open spec fn str_value(s: Seq<char>) -> BValue {
    BValue::Bytes(encode_utf8(s))
}

/// An optional string as an optional bencode byte string.
pub open spec fn opt_str_value(s: Option<Cow<str>>) -> Option<BValue> {
    match s {
        Some(c) => Some(str_value(c@)),
        None => None,
    }
}

/// An optional integer as an optional bencode integer.
pub open spec fn opt_int_value(v: Option<int>) -> Option<BValue> {
    match v {
        Some(i) => Some(BValue::Int(i)),
        None => None,
    }
}

/// The elements of a path, as bencode byte strings.
pub open spec fn path_values(p: Seq<Cow<str>>) -> Seq<BValue> {
    p.map_values(|c: Cow<str>| str_value(c@))
}

/// A file as bencode: its length, its MD5 sum where it has one, its path.
pub open spec fn file_bvalue(f: File) -> BValue {
    BValue::Dict(
        seq![(key_length(), BValue::Int(f.length as int))] + opt_entry(
            key_md5sum(),
            opt_str_value(f.md5sum),
        ) + seq![(key_path(), BValue::List(path_values(f.path@)))],
    )
}

/// The info dictionary as bencode: its fields in order, those that are
/// missing left out.
pub open spec fn info_bvalue(i: Info) -> BValue {
    BValue::Dict(
        opt_entry(
            key_files(),
            match i.files {
                Some(fs) => Some(BValue::List(fs@.map_values(|f: File| file_bvalue(f)))),
                None => None,
            },
        ) + opt_entry(
            key_length(),
            opt_int_value(
                match i.length {
                    Some(l) => Some(l as int),
                    None => None,
                },
            ),
        ) + seq![
            (key_name(), str_value(i.name@)),
            (key_piece_length(), BValue::Int(i.piece_length as int)),
            (key_pieces(), BValue::Bytes(i.pieces@)),
        ] + opt_entry(
            key_private(),
            opt_int_value(
                match i.private {
                    Some(p) => Some(p as int),
                    None => None,
                },
            ),
        ) + opt_entry(key_md5sum(), opt_str_value(i.md5sum)),
    )
}

/// The string that a `Cow` holds.
fn cow_str<'b>(c: &'b Cow<'_, str>) -> (r: &'b str)
    ensures
        r@ == c@,
{
    match c {
        Cow::Borrowed(s) => s,
        Cow::Owned(s) => s.as_str(),
    }
}

/// The bytes that a `Cow` holds.
fn cow_bytes<'b>(c: &'b Cow<'_, [u8]>) -> (r: &'b [u8])
    ensures
        r@ == c@,
{
    match c {
        Cow::Borrowed(b) => b,
        Cow::Owned(v) => v.as_slice(),
    }
}

/// The bencoding of a dictionary with one more entry at its end.
proof fn lemma_dict_push(d: Seq<(Seq<u8>, BValue)>, e: (Seq<u8>, BValue))
    ensures
        spec_encode_dict(d.push(e)) == spec_encode_dict(d) + crate::bencode::ser::encode_bytes(e.0)
            + spec_encode(e.1),
{
    assert(d.push(e).drop_last() =~= d);
}

/// The bencoding of a list with one more item at its end.
proof fn lemma_list_push(l: Seq<BValue>, v: BValue)
    ensures
        spec_encode_list(l.push(v)) == spec_encode_list(l) + spec_encode(v),
{
    assert(l.push(v).drop_last() =~= l);
}

/// Writing one more entry after a dictionary's entries writes the entries
/// with that one at their end.
proof fn lemma_entry_step(
    prefix: Seq<u8>,
    d: Seq<(Seq<u8>, BValue)>,
    e: (Seq<u8>, BValue),
    before: Seq<u8>,
    after: Seq<u8>,
)
    requires
        before == prefix + spec_encode_dict(d),
        after == before + crate::bencode::ser::encode_bytes(e.0) + spec_encode(e.1),
    ensures
        after == prefix + spec_encode_dict(d.push(e)),
{
    lemma_dict_push(d, e);
    assert(after =~= prefix + spec_encode_dict(d.push(e)));
}

/// Writing one more item after a list's items writes the items with that
/// one at their end.
proof fn lemma_item_step(prefix: Seq<u8>, l: Seq<BValue>, v: BValue, before: Seq<u8>, after: Seq<u8>)
    requires
        before == prefix + spec_encode_list(l),
        after == before + spec_encode(v),
    ensures
        after == prefix + spec_encode_list(l.push(v)),
{
    lemma_list_push(l, v);
    assert(after =~= prefix + spec_encode_list(l.push(v)));
}

/// Closing a dictionary after its entries writes the dictionary.
proof fn lemma_close_dict(prefix: Seq<u8>, d: Seq<(Seq<u8>, BValue)>, before: Seq<u8>, after: Seq<u8>)
    requires
        before == prefix.push(100u8) + spec_encode_dict(d),
        after == before.push(101u8),
    ensures
        after == prefix + spec_encode(BValue::Dict(d)),
{
    assert(after =~= prefix + spec_encode(BValue::Dict(d)));
}

/// Closing a list after its items writes the list.
proof fn lemma_close_list(prefix: Seq<u8>, l: Seq<BValue>, before: Seq<u8>, after: Seq<u8>)
    requires
        before == prefix.push(108u8) + spec_encode_list(l),
        after == before.push(101u8),
    ensures
        after == prefix + spec_encode(BValue::List(l)),
{
    assert(after =~= prefix + spec_encode(BValue::List(l)));
}

/// Writes a dictionary key.
fn write_key(ser: &mut Serializer, key: &[u8])
    ensures
        final(ser)@ == old(ser)@ + crate::bencode::ser::encode_bytes(key@),
{
    let _ = ser.serialize_bytes(key);
}

/// Writes a string as a bencode byte string.
fn write_str(ser: &mut Serializer, s: &Cow<'_, str>)
    ensures
        final(ser)@ == old(ser)@ + spec_encode(str_value(s@)),
{
    let _ = ser.serialize_str(cow_str(s));
}

/// Writes a path as a bencode list of byte strings.
fn write_path(ser: &mut Serializer, path: &Vec<Cow<'_, str>>)
    ensures
        final(ser)@ == old(ser)@ + spec_encode(BValue::List(path_values(path@))),
{
    let ghost start = ser@;
    ser.write_delimiter(108);
    let ghost items = path_values(path@);
    assert(items.take(0) =~= Seq::<BValue>::empty());
    let mut i: usize = 0;
    while i < path.len()
        invariant
            i <= path@.len(),
            items == path_values(path@),
            ser@ == start.push(108u8) + spec_encode_list(items.take(i as int)),
        decreases path@.len() - i,
    {
        let ghost before = ser@;
        write_str(ser, &path[i]);
        proof {
            lemma_item_step(start.push(108u8), items.take(i as int), items[i as int], before, ser@);
            assert(items.take(i + 1) =~= items.take(i as int).push(items[i as int]));
        }
        i = i + 1;
    }
    let ghost before = ser@;
    ser.write_delimiter(101);
    proof {
        assert(items.take(path@.len() as int) =~= items);
        lemma_close_list(start, items, before, ser@);
    }
}

impl<'a> File<'a> {
    /// Writes the file as a bencode dictionary.
    fn write_bencode(&self, ser: &mut Serializer)
        ensures
            final(ser)@ == old(ser)@ + spec_encode(file_bvalue(*self)),
    {
        let ghost start = ser@;
        ser.write_delimiter(100);
        let ghost p = start.push(100u8);
        let ghost mut d: Seq<(Seq<u8>, BValue)> = Seq::empty();
        assert(ser@ == p + spec_encode_dict(d));
        let ghost before = ser@;
        write_key(ser, [108u8, 101, 110, 103, 116, 104].as_slice());
        let _ = ser.serialize_u64(self.length);
        proof {
            lemma_entry_step(p, d, (key_length(), BValue::Int(self.length as int)), before, ser@);
            d = d.push((key_length(), BValue::Int(self.length as int)));
        }
        if let Some(m) = &self.md5sum {
            let ghost before = ser@;
            write_key(ser, [109u8, 100, 53, 115, 117, 109].as_slice());
            write_str(ser, m);
            proof {
                lemma_entry_step(p, d, (key_md5sum(), str_value(m@)), before, ser@);
                d = d.push((key_md5sum(), str_value(m@)));
            }
        }
        let ghost before = ser@;
        write_key(ser, [112u8, 97, 116, 104].as_slice());
        write_path(ser, &self.path);
        proof {
            lemma_entry_step(p, d, (key_path(), BValue::List(path_values(self.path@))), before, ser@);
            d = d.push((key_path(), BValue::List(path_values(self.path@))));
        }
        let ghost before = ser@;
        ser.write_delimiter(101);
        proof {
            lemma_close_dict(start, d, before, ser@);
            assert(d =~= file_bvalue(*self)->Dict_0);
        }
    }
}

/// Writes a list of files as bencode.
fn write_files(ser: &mut Serializer, files: &Vec<File<'_>>)
    ensures
        final(ser)@ == old(ser)@ + spec_encode(
            BValue::List(files@.map_values(|f: File| file_bvalue(f))),
        ),
{
    let ghost start = ser@;
    ser.write_delimiter(108);
    let ghost items = files@.map_values(|f: File| file_bvalue(f));
    assert(items.take(0) =~= Seq::<BValue>::empty());
    let mut i: usize = 0;
    while i < files.len()
        invariant
            i <= files@.len(),
            items == files@.map_values(|f: File| file_bvalue(f)),
            ser@ == start.push(108u8) + spec_encode_list(items.take(i as int)),
        decreases files@.len() - i,
    {
        let ghost before = ser@;
        files[i].write_bencode(ser);
        proof {
            lemma_item_step(start.push(108u8), items.take(i as int), items[i as int], before, ser@);
            assert(items.take(i + 1) =~= items.take(i as int).push(items[i as int]));
        }
        i = i + 1;
    }
    let ghost before = ser@;
    ser.write_delimiter(101);
    proof {
        assert(items.take(files@.len() as int) =~= items);
        lemma_close_list(start, items, before, ser@);
    }
}

impl<'a> Info<'a> {
    /// Writes the info dictionary as bencode, the fields in order and those
    /// that are missing left out.
    #[verifier::rlimit(50)]
    pub fn write_bencode(&self, ser: &mut Serializer)
        ensures
            final(ser)@ == old(ser)@ + spec_encode(info_bvalue(*self)),
    {
        let ghost start = ser@;
        ser.write_delimiter(100);
        let ghost p = start.push(100u8);
        let ghost mut d: Seq<(Seq<u8>, BValue)> = Seq::empty();
        assert(ser@ == p + spec_encode_dict(d));
        if let Some(files) = &self.files {
            let ghost before = ser@;
            write_key(ser, [102u8, 105, 108, 101, 115].as_slice());
            write_files(ser, files);
            proof {
                let e = (key_files(), BValue::List(files@.map_values(|f: File| file_bvalue(f))));
                lemma_entry_step(p, d, e, before, ser@);
                d = d.push(e);
            }
        }
        if let Some(length) = self.length {
            let ghost before = ser@;
            write_key(ser, [108u8, 101, 110, 103, 116, 104].as_slice());
            let _ = ser.serialize_u64(length);
            proof {
                lemma_entry_step(p, d, (key_length(), BValue::Int(length as int)), before, ser@);
                d = d.push((key_length(), BValue::Int(length as int)));
            }
        }
        let ghost before = ser@;
        write_key(ser, [110u8, 97, 109, 101].as_slice());
        write_str(ser, &self.name);
        proof {
            lemma_entry_step(p, d, (key_name(), str_value(self.name@)), before, ser@);
            d = d.push((key_name(), str_value(self.name@)));
        }
        let ghost before = ser@;
        write_key(ser, [112u8, 105, 101, 99, 101, 32, 108, 101, 110, 103, 116, 104].as_slice());
        let _ = ser.serialize_u64(self.piece_length as u64);
        proof {
            lemma_entry_step(
                p,
                d,
                (key_piece_length(), BValue::Int(self.piece_length as int)),
                before,
                ser@,
            );
            d = d.push((key_piece_length(), BValue::Int(self.piece_length as int)));
        }
        let ghost before = ser@;
        write_key(ser, [112u8, 105, 101, 99, 101, 115].as_slice());
        let _ = ser.serialize_bytes(cow_bytes(&self.pieces));
        proof {
            lemma_entry_step(p, d, (key_pieces(), BValue::Bytes(self.pieces@)), before, ser@);
            d = d.push((key_pieces(), BValue::Bytes(self.pieces@)));
        }
        if let Some(private) = self.private {
            let ghost before = ser@;
            write_key(ser, [112u8, 114, 105, 118, 97, 116, 101].as_slice());
            let _ = ser.serialize_u8(private);
            proof {
                lemma_entry_step(p, d, (key_private(), BValue::Int(private as int)), before, ser@);
                d = d.push((key_private(), BValue::Int(private as int)));
            }
        }
        if let Some(m) = &self.md5sum {
            let ghost before = ser@;
            write_key(ser, [109u8, 100, 53, 115, 117, 109].as_slice());
            write_str(ser, m);
            proof {
                lemma_entry_step(p, d, (key_md5sum(), str_value(m@)), before, ser@);
                d = d.push((key_md5sum(), str_value(m@)));
            }
        }
        let ghost before = ser@;
        ser.write_delimiter(101);
        proof {
            lemma_close_dict(start, d, before, ser@);
            assert(d =~= info_bvalue(*self)->Dict_0);
        }
    }

    /// The SHA-1 hash of the bencoded info dictionary, which names the
    /// torrent.
    pub fn hash(&self) -> (r: Result<[u8; 20], MetaInfoError>)
        ensures
            r matches Ok(h) && h@ == sha1(spec_encode(info_bvalue(*self))),
    {
        let mut ser = Serializer::new();
        self.write_bencode(&mut ser);
        let bytes = ser.into_bytes();
        Ok(sha1_array(bytes.as_slice()))
    }
}

/// `info`
pub open spec fn key_info() -> Seq<u8> {
    seq![105u8, 110, 102, 111]
}

/// `announce`
pub open spec fn key_announce() -> Seq<u8> {
    seq![97u8, 110, 110, 111, 117, 110, 99, 101]
}

/// `encoding`
pub open spec fn key_encoding() -> Seq<u8> {
    seq![101u8, 110, 99, 111, 100, 105, 110, 103]
}

/// `announce-list`
pub open spec fn key_announce_list() -> Seq<u8> {
    seq![97u8, 110, 110, 111, 117, 110, 99, 101, 45, 108, 105, 115, 116]
}

/// `creation date`
pub open spec fn key_creation_date() -> Seq<u8> {
    seq![99u8, 114, 101, 97, 116, 105, 111, 110, 32, 100, 97, 116, 101]
}

/// `comment`
pub open spec fn key_comment() -> Seq<u8> {
    seq![99u8, 111, 109, 109, 101, 110, 116]
}

/// `created by`
pub open spec fn key_created_by() -> Seq<u8> {
    seq![99u8, 114, 101, 97, 116, 101, 100, 32, 98, 121]
}

/// What a file of a torrent with several files holds.
pub struct FileModel {
    pub length: int,
    pub md5sum: Option<Seq<char>>,
    pub path: Seq<Seq<char>>,
}

/// What an info dictionary holds.
pub struct InfoModel {
    pub files: Option<Seq<FileModel>>,
    pub length: Option<int>,
    pub name: Seq<char>,
    pub piece_length: int,
    pub pieces: Seq<u8>,
    pub private: Option<int>,
    pub md5sum: Option<Seq<char>>,
}

/// What a metainfo file holds.
pub struct MetaInfoModel {
    pub info: InfoModel,
    pub announce: Seq<char>,
    pub encoding: Option<Seq<char>>,
    pub announce_list: Option<Seq<Seq<Seq<char>>>>,
    pub creation_date: Option<int>,
    pub comment: Option<Seq<char>>,
    pub created_by: Option<Seq<char>>,
}

/// The text of an optional string.
pub open spec fn opt_cow_text(c: Option<Cow<str>>) -> Option<Seq<char>> {
    match c {
        Some(s) => Some(s@),
        None => None,
    }
}

/// The texts of a list of strings.
pub open spec fn cow_texts(p: Seq<Cow<str>>) -> Seq<Seq<char>> {
    p.map_values(|c: Cow<str>| c@)
}

/// What a file holds.
pub open spec fn file_model(f: File) -> FileModel {
    FileModel { length: f.length as int, md5sum: opt_cow_text(f.md5sum), path: cow_texts(f.path@) }
}

/// What an info dictionary holds.
pub open spec fn info_model(i: Info) -> InfoModel {
    InfoModel {
        files: match i.files {
            Some(fs) => Some(fs@.map_values(|f: File| file_model(f))),
            None => None,
        },
        length: match i.length {
            Some(l) => Some(l as int),
            None => None,
        },
        name: i.name@,
        piece_length: i.piece_length as int,
        pieces: i.pieces@,
        private: match i.private {
            Some(p) => Some(p as int),
            None => None,
        },
        md5sum: opt_cow_text(i.md5sum),
    }
}

/// What a metainfo file holds.
pub open spec fn metainfo_model(m: MetaInfo) -> MetaInfoModel {
    MetaInfoModel {
        info: info_model(m.info),
        announce: m.announce@,
        encoding: opt_cow_text(m.encoding),
        announce_list: match m.announce_list {
            Some(tiers) => Some(tiers@.map_values(|t: Vec<Cow<str>>| cow_texts(t@))),
            None => None,
        },
        creation_date: match m.creation_date {
            Some(d) => Some(d as int),
            None => None,
        },
        comment: opt_cow_text(m.comment),
        created_by: opt_cow_text(m.created_by),
    }
}

/// A file, read from bencode: a dictionary with a `length`, an optional
/// `md5sum` and a `path` of texts.
pub open spec fn parse_file(v: BValue) -> Option<FileModel> {
    match v {
        BValue::Dict(d) => match (
            as_uint(dict_get(d, key_length()), u64::MAX as int),
            opt_text(dict_get(d, key_md5sum())),
            as_text_list(dict_get(d, key_path())),
        ) {
            (Some(length), Some(md5sum), Some(path)) => Some(FileModel { length, md5sum, path }),
            _ => None,
        },
        _ => None,
    }
}

/// An optional list of files.
pub open spec fn parse_files(v: Option<BValue>) -> Option<Option<Seq<FileModel>>> {
    match present(v) {
        None => Some(None),
        Some(BValue::List(l)) => if forall|i: int| 0 <= i < l.len() ==> (#[trigger] parse_file(l[i])) is Some {
            Some(Some(l.map_values(|x: BValue| parse_file(x)->Some_0)))
        } else {
            None
        },
        _ => None,
    }
}

/// An info dictionary, read from bencode: its required `name`, `piece
/// length` and `pieces`, and its optional fields.
pub open spec fn parse_info(v: BValue) -> Option<InfoModel> {
    match v {
        BValue::Dict(d) => match (
            parse_files(dict_get(d, key_files())),
            opt_uint(dict_get(d, key_length()), u64::MAX as int),
            as_text(dict_get(d, key_name())),
            as_uint(dict_get(d, key_piece_length()), usize::MAX as int),
            dict_get(d, key_pieces()),
            opt_uint(dict_get(d, key_private()), u8::MAX as int),
            opt_text(dict_get(d, key_md5sum())),
        ) {
            (
                Some(files),
                Some(length),
                Some(name),
                Some(piece_length),
                Some(BValue::Bytes(pieces)),
                Some(private),
                Some(md5sum),
            ) => Some(InfoModel { files, length, name, piece_length, pieces, private, md5sum }),
            _ => None,
        },
        _ => None,
    }
}

/// An optional list of tiers of announce URLs.
pub open spec fn parse_tiers(v: Option<BValue>) -> Option<Option<Seq<Seq<Seq<char>>>>> {
    match present(v) {
        None => Some(None),
        Some(BValue::List(l)) => if forall|i: int| 0 <= i < l.len() ==> (#[trigger] as_text_list(Some(l[i]))) is Some {
            Some(Some(l.map_values(|x: BValue| as_text_list(Some(x))->Some_0)))
        } else {
            None
        },
        _ => None,
    }
}

/// A metainfo file, read from bencode: its required `info` and `announce`,
/// and its optional fields.
pub open spec fn parse_metainfo(v: BValue) -> Option<MetaInfoModel> {
    match v {
        BValue::Dict(d) => match (
            dict_get(d, key_info()),
            as_text(dict_get(d, key_announce())),
            opt_text(dict_get(d, key_encoding())),
            parse_tiers(dict_get(d, key_announce_list())),
            opt_uint(dict_get(d, key_creation_date()), u64::MAX as int),
            opt_text(dict_get(d, key_comment())),
            opt_text(dict_get(d, key_created_by())),
        ) {
            (
                Some(info),
                Some(announce),
                Some(encoding),
                Some(announce_list),
                Some(creation_date),
                Some(comment),
                Some(created_by),
            ) => match parse_info(info) {
                Some(info) => Some(
                    MetaInfoModel {
                        info,
                        announce,
                        encoding,
                        announce_list,
                        creation_date,
                        comment,
                        created_by,
                    },
                ),
                None => None,
            },
            _ => None,
        },
        _ => None,
    }
}

/// An optional text.
fn opt_text_of(v: Option<&BencodeValue>) -> (r: Option<Option<Cow<'static, str>>>)
    ensures
        match opt_text(opt_view(v)) {
            None => r is None,
            Some(t) => r matches Some(c) && opt_cow_text(c) == t,
        },
{
    if is_absent(v) {
        return Some(None);
    }
    match text_of(v) {
        Some(t) => Some(Some(Cow::Owned(t))),
        None => None,
    }
}

/// An optional integer from 0 to `max`.
fn opt_uint_of(v: Option<&BencodeValue>, max: u64) -> (r: Option<Option<u64>>)
    ensures
        match opt_uint(opt_view(v), max as int) {
            None => r is None,
            Some(None) => r == Some(None::<u64>),
            Some(Some(i)) => r == Some(Some(i as u64)),
        },
{
    if is_absent(v) {
        return Some(None);
    }
    match uint_of(v, max) {
        Some(i) => Some(Some(i)),
        None => None,
    }
}

/// A list of texts, as strings.
fn cow_list_of(v: Option<&BencodeValue>) -> (r: Option<Vec<Cow<'static, str>>>)
    ensures
        match as_text_list(opt_view(v)) {
            Some(ts) => r matches Some(list) && cow_texts(list@) == ts,
            None => r is None,
        },
{
    let list = match text_list_of(v) {
        Some(l) => l,
        None => return None,
    };
    let ghost ts = as_text_list(opt_view(v))->Some_0;
    let mut out: Vec<Cow<'static, str>> = Vec::new();
    let mut i: usize = 0;
    while i < list.len()
        invariant
            i <= list@.len(),
            list@.len() == ts.len(),
            forall|k: int| 0 <= k < ts.len() ==> (#[trigger] list@[k])@ == ts[k],
            out@.len() == i,
            forall|k: int| 0 <= k < i ==> (#[trigger] out@[k])@ == ts[k],
        decreases list@.len() - i,
    {
        let s = list[i].clone();
        out.push(Cow::Owned(s));
        i = i + 1;
    }
    assert(cow_texts(out@) =~= ts);
    Some(out)
}

impl File<'static> {
    /// Reads a file from bencode.
    pub fn from_value(v: &BencodeValue) -> (r: Result<File<'static>, MetaInfoError>)
        ensures
            match parse_file(v@) {
                Some(model) => r matches Ok(f) && file_model(f) == model,
                None => r matches Err(MetaInfoError::Malformed),
            },
    {
        let d = match v {
            BencodeValue::Dict(d) => d,
            _ => return Err(MetaInfoError::Malformed),
        };
        let k_length = [108u8, 101, 110, 103, 116, 104];
        let k_md5sum = [109u8, 100, 53, 115, 117, 109];
        let k_path = [112u8, 97, 116, 104];
        proof {
            assert(k_length@ =~= key_length());
            assert(k_md5sum@ =~= key_md5sum());
            assert(k_path@ =~= key_path());
        }
        let length = match uint_of(get(d, k_length.as_slice()), u64::MAX) {
            Some(l) => l,
            None => return Err(MetaInfoError::Malformed),
        };
        let md5sum = match opt_text_of(get(d, k_md5sum.as_slice())) {
            Some(m) => m,
            None => return Err(MetaInfoError::Malformed),
        };
        let path = match cow_list_of(get(d, k_path.as_slice())) {
            Some(p) => p,
            None => return Err(MetaInfoError::Malformed),
        };
        Ok(File { length, md5sum, path })
    }
}

/// An optional list of files.
fn files_of(v: Option<&BencodeValue>) -> (r: Option<Option<Vec<File<'static>>>>)
    ensures
        match parse_files(opt_view(v)) {
            None => r is None,
            Some(None) => r matches Some(None),
            Some(Some(fs)) => r matches Some(Some(list)) && list@.map_values(|f: File| file_model(f))
                == fs,
        },
{
    if is_absent(v) {
        return Some(None);
    }
    match v {
        Some(BencodeValue::List(l)) => {
            let ghost vl = view_list(l@);
            proof {
                lemma_view_list(l@);
            }
            assert(present(opt_view(v)) == Some(BValue::List(vl)));
            let mut out: Vec<File<'static>> = Vec::new();
            let mut i: usize = 0;
            while i < l.len()
                invariant
                    i <= l@.len(),
                    vl == view_list(l@),
                    vl =~= Seq::new(l@.len(), |k: int| view_value(l@[k])),
                    present(opt_view(v)) == Some(BValue::List(vl)),
                    forall|k: int| 0 <= k < i ==> (#[trigger] parse_file(vl[k])) is Some,
                    out@.map_values(|f: File| file_model(f)) == vl.take(i as int).map_values(
                        |x: BValue| parse_file(x)->Some_0,
                    ),
                decreases l@.len() - i,
            {
                match File::from_value(&l[i]) {
                    Ok(f) => {
                        let ghost before = out@;
                        out.push(f);
                        proof {
                            assert(vl.take(i + 1) =~= vl.take(i as int).push(vl[i as int]));
                            assert(out@.map_values(|f: File| file_model(f)) =~= before.map_values(
                                |f: File| file_model(f),
                            ).push(file_model(f)));
                            assert(vl.take(i + 1).map_values(|x: BValue| parse_file(x)->Some_0)
                                =~= vl.take(i as int).map_values(|x: BValue| parse_file(x)->Some_0).push(
                                parse_file(vl[i as int])->Some_0,
                            ));
                        }
                    },
                    Err(_) => {
                        proof {
                            assert(parse_file(vl[i as int]) is None);
                        }
                        return None;
                    },
                }
                i = i + 1;
            }
            assert(vl.take(l@.len() as int) =~= vl);
            Some(Some(out))
        },
        _ => None,
    }
}

/// An optional list of tiers of announce URLs.
fn tiers_of(v: Option<&BencodeValue>) -> (r: Option<Option<Vec<Vec<Cow<'static, str>>>>>)
    ensures
        match parse_tiers(opt_view(v)) {
            None => r is None,
            Some(None) => r matches Some(None),
            Some(Some(ts)) => r matches Some(Some(list)) && list@.map_values(
                |t: Vec<Cow<str>>| cow_texts(t@),
            ) == ts,
        },
{
    if is_absent(v) {
        return Some(None);
    }
    match v {
        Some(BencodeValue::List(l)) => {
            let ghost vl = view_list(l@);
            proof {
                lemma_view_list(l@);
            }
            assert(present(opt_view(v)) == Some(BValue::List(vl)));
            let mut out: Vec<Vec<Cow<'static, str>>> = Vec::new();
            let mut i: usize = 0;
            while i < l.len()
                invariant
                    i <= l@.len(),
                    vl == view_list(l@),
                    vl =~= Seq::new(l@.len(), |k: int| view_value(l@[k])),
                    present(opt_view(v)) == Some(BValue::List(vl)),
                    forall|k: int| 0 <= k < i ==> (#[trigger] as_text_list(Some(vl[k]))) is Some,
                    out@.map_values(|t: Vec<Cow<str>>| cow_texts(t@)) == vl.take(i as int).map_values(
                        |x: BValue| as_text_list(Some(x))->Some_0,
                    ),
                decreases l@.len() - i,
            {
                match cow_list_of(Some(&l[i])) {
                    Some(t) => {
                        let ghost before = out@;
                        out.push(t);
                        proof {
                            assert(vl.take(i + 1) =~= vl.take(i as int).push(vl[i as int]));
                            assert(out@.map_values(|t: Vec<Cow<str>>| cow_texts(t@)) =~= before.map_values(
                                |t: Vec<Cow<str>>| cow_texts(t@),
                            ).push(cow_texts(t@)));
                            assert(vl.take(i + 1).map_values(|x: BValue| as_text_list(Some(x))->Some_0)
                                =~= vl.take(i as int).map_values(
                                |x: BValue| as_text_list(Some(x))->Some_0,
                            ).push(as_text_list(Some(vl[i as int]))->Some_0));
                        }
                    },
                    None => {
                        return None;
                    },
                }
                i = i + 1;
            }
            assert(vl.take(l@.len() as int) =~= vl);
            Some(Some(out))
        },
        _ => None,
    }
}

impl Info<'static> {
    /// Reads an info dictionary from bencode.
    pub fn from_value(v: &BencodeValue) -> (r: Result<Info<'static>, MetaInfoError>)
        ensures
            match parse_info(v@) {
                Some(model) => r matches Ok(i) && info_model(i) == model,
                None => r matches Err(MetaInfoError::Malformed),
            },
    {
        let d = match v {
            BencodeValue::Dict(d) => d,
            _ => return Err(MetaInfoError::Malformed),
        };
        let k_files = [102u8, 105, 108, 101, 115];
        let k_length = [108u8, 101, 110, 103, 116, 104];
        let k_name = [110u8, 97, 109, 101];
        let k_piece_length = [112u8, 105, 101, 99, 101, 32, 108, 101, 110, 103, 116, 104];
        let k_pieces = [112u8, 105, 101, 99, 101, 115];
        let k_private = [112u8, 114, 105, 118, 97, 116, 101];
        let k_md5sum = [109u8, 100, 53, 115, 117, 109];
        proof {
            assert(k_files@ =~= key_files());
            assert(k_length@ =~= key_length());
            assert(k_name@ =~= key_name());
            assert(k_piece_length@ =~= key_piece_length());
            assert(k_pieces@ =~= key_pieces());
            assert(k_private@ =~= key_private());
            assert(k_md5sum@ =~= key_md5sum());
        }
        let files = match files_of(get(d, k_files.as_slice())) {
            Some(f) => f,
            None => return Err(MetaInfoError::Malformed),
        };
        let length = match opt_uint_of(get(d, k_length.as_slice()), u64::MAX) {
            Some(l) => l,
            None => return Err(MetaInfoError::Malformed),
        };
        let name = match text_of(get(d, k_name.as_slice())) {
            Some(n) => n,
            None => return Err(MetaInfoError::Malformed),
        };
        let piece_length = match uint_of(get(d, k_piece_length.as_slice()), usize::MAX as u64) {
            Some(p) => p as usize,
            None => return Err(MetaInfoError::Malformed),
        };
        let pieces = match get(d, k_pieces.as_slice()) {
            Some(BencodeValue::Bytes(b)) => vstd::slice::slice_to_vec(b.as_slice()),
            _ => return Err(MetaInfoError::Malformed),
        };
        let private = match opt_uint_of(get(d, k_private.as_slice()), u8::MAX as u64) {
            Some(p) => match p {
                Some(p) => Some(p as u8),
                None => None,
            },
            None => return Err(MetaInfoError::Malformed),
        };
        let md5sum = match opt_text_of(get(d, k_md5sum.as_slice())) {
            Some(m) => m,
            None => return Err(MetaInfoError::Malformed),
        };
        Ok(
            Info {
                files,
                length,
                name: Cow::Owned(name),
                piece_length,
                pieces: Cow::Owned(pieces),
                private,
                md5sum,
            },
        )
    }
}

impl MetaInfo<'static> {
    /// Reads a metainfo file from bencode.
    pub fn from_value(v: &BencodeValue) -> (r: Result<MetaInfo<'static>, MetaInfoError>)
        ensures
            match parse_metainfo(v@) {
                Some(model) => r matches Ok(m) && metainfo_model(m) == model,
                None => r matches Err(MetaInfoError::Malformed),
            },
    {
        let d = match v {
            BencodeValue::Dict(d) => d,
            _ => return Err(MetaInfoError::Malformed),
        };
        let k_info = [105u8, 110, 102, 111];
        let k_announce = [97u8, 110, 110, 111, 117, 110, 99, 101];
        let k_encoding = [101u8, 110, 99, 111, 100, 105, 110, 103];
        let k_announce_list = [97u8, 110, 110, 111, 117, 110, 99, 101, 45, 108, 105, 115, 116];
        let k_creation_date = [99u8, 114, 101, 97, 116, 105, 111, 110, 32, 100, 97, 116, 101];
        let k_comment = [99u8, 111, 109, 109, 101, 110, 116];
        let k_created_by = [99u8, 114, 101, 97, 116, 101, 100, 32, 98, 121];
        proof {
            assert(k_info@ =~= key_info());
            assert(k_announce@ =~= key_announce());
            assert(k_encoding@ =~= key_encoding());
            assert(k_announce_list@ =~= key_announce_list());
            assert(k_creation_date@ =~= key_creation_date());
            assert(k_comment@ =~= key_comment());
            assert(k_created_by@ =~= key_created_by());
        }
        let info_value = match get(d, k_info.as_slice()) {
            Some(i) => i,
            None => return Err(MetaInfoError::Malformed),
        };
        let announce = match text_of(get(d, k_announce.as_slice())) {
            Some(a) => a,
            None => return Err(MetaInfoError::Malformed),
        };
        let encoding = match opt_text_of(get(d, k_encoding.as_slice())) {
            Some(e) => e,
            None => return Err(MetaInfoError::Malformed),
        };
        let announce_list = match tiers_of(get(d, k_announce_list.as_slice())) {
            Some(a) => a,
            None => return Err(MetaInfoError::Malformed),
        };
        let creation_date = match opt_uint_of(get(d, k_creation_date.as_slice()), u64::MAX) {
            Some(c) => c,
            None => return Err(MetaInfoError::Malformed),
        };
        let comment = match opt_text_of(get(d, k_comment.as_slice())) {
            Some(c) => c,
            None => return Err(MetaInfoError::Malformed),
        };
        let created_by = match opt_text_of(get(d, k_created_by.as_slice())) {
            Some(c) => c,
            None => return Err(MetaInfoError::Malformed),
        };
        let info = match Info::from_value(info_value) {
            Ok(i) => i,
            Err(e) => return Err(e),
        };
        Ok(
            MetaInfo {
                info,
                announce: Cow::Owned(announce),
                encoding,
                announce_list,
                creation_date,
                comment,
                created_by,
            },
        )
    }

    /// Reads a metainfo file from its bytes: an error where they are not
    /// bencode, or not a metainfo file.
    pub fn from_bytes(bytes: &[u8]) -> (r: Result<MetaInfo<'static>, MetaInfoError>)
        ensures
            match spec_value(bytes@, 0) {
                Parsed::Done(v, q) => if q == bytes@.len() {
                    match parse_metainfo(v) {
                        Some(model) => r matches Ok(m) && metainfo_model(m) == model,
                        None => r matches Err(MetaInfoError::Malformed),
                    }
                } else {
                    r matches Err(MetaInfoError::Decode(_))
                },
                _ => r is Err,
            },
    {
        match checked_from_bytes(bytes) {
            Some(Ok(v)) => MetaInfo::from_value(&v),
            Some(Err(e)) => Err(MetaInfoError::Decode(e)),
            None => Err(MetaInfoError::Decode(crate::bencode::ErrorKind::BadInputData("expected valid bytes length").into())),
        }
    }
}

} // verus!
