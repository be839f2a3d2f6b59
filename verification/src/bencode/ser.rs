//! The bencode encoder.

use vstd::prelude::*;
use vstd::string::StringSliceAdditionalSpecFns;
use vstd::utf8::{decode_utf8, valid_utf8};

use super::error::{Error, ErrorKind};
use super::grammar::{int_decimal, nat_digits, write_int_decimal, write_nat_digits};
use super::value::{lemma_view_dict, lemma_view_list, view_value, BValue, BencodeValue, Bytes};
use crate::utf8::string_from_utf8;

verus! {

/// A byte string as bencode writes it: its length, a `:`, then its bytes.
pub open spec fn encode_bytes(b: Seq<u8>) -> Seq<u8> {
    nat_digits(b.len()) + seq![58u8] + b
}

/// The bencoding of a value.
pub open spec fn spec_encode(v: BValue) -> Seq<u8>
    decreases v,
{
    match v {
        BValue::Int(i) => seq![105u8] + int_decimal(i) + seq![101u8],
        BValue::Bytes(b) => encode_bytes(b),
        BValue::List(l) => seq![108u8] + spec_encode_list(l) + seq![101u8],
        BValue::Dict(d) => seq![100u8] + spec_encode_dict(d) + seq![101u8],
    }
}

/// The items of a list, one after the other.
pub open spec fn spec_encode_list(l: Seq<BValue>) -> Seq<u8>
    decreases l,
{
    if l.len() == 0 {
        Seq::empty()
    } else {
        spec_encode_list(l.drop_last()) + spec_encode(l.last())
    }
}

/// The entries of a dictionary, each its key then its value, in their order.
pub open spec fn spec_encode_dict(d: Seq<(Seq<u8>, BValue)>) -> Seq<u8>
    decreases d,
{
    if d.len() == 0 {
        Seq::empty()
    } else {
        spec_encode_dict(d.drop_last()) + encode_bytes(d.last().0) + spec_encode(d.last().1)
    }
}

/// The error for a type that bencode cannot hold.
pub open spec fn unsupported(what: &'static str) -> Error {
    Error { kind: ErrorKind::Unsupported(what), position: None }
}

/// Writes bencode into a growing buffer.
pub struct Serializer {
    output: Vec<u8>,
}

impl View for Serializer {
    type V = Seq<u8>;

    closed spec fn view(&self) -> Seq<u8> {
        self.output@
    }
}

impl Serializer {
    pub fn new() -> (r: Self)
        ensures
            r@ == Seq::<u8>::empty(),
    {
        Serializer { output: Vec::new() }
    }

    /// Writes one byte that opens or closes a list or dictionary.
    pub(crate) fn write_delimiter(&mut self, b: u8)
        ensures
            final(self)@ == old(self)@.push(b),
    {
        self.output.push(b);
    }

    /// The bytes written so far.
    pub fn into_bytes(self) -> (r: Vec<u8>)
        ensures
            r@ == self@,
    {
        self.output
    }

    pub fn serialize_bool(&mut self, _v: bool) -> (r: Result<(), Error>)
        ensures
            r == Err::<(), Error>(unsupported("bool")),
            final(self)@ == old(self)@,
    {
        Err(ErrorKind::Unsupported("bool").into())
    }

    pub fn serialize_i8(&mut self, v: i8) -> (r: Result<(), Error>)
        ensures
            r is Ok,
            final(self)@ == old(self)@ + spec_encode(BValue::Int(v as int)),
    {
        self.serialize_i64(v as i64)
    }

    pub fn serialize_i16(&mut self, v: i16) -> (r: Result<(), Error>)
        ensures
            r is Ok,
            final(self)@ == old(self)@ + spec_encode(BValue::Int(v as int)),
    {
        self.serialize_i64(v as i64)
    }

    pub fn serialize_i32(&mut self, v: i32) -> (r: Result<(), Error>)
        ensures
            r is Ok,
            final(self)@ == old(self)@ + spec_encode(BValue::Int(v as int)),
    {
        self.serialize_i64(v as i64)
    }

    /// Writes `i<v>e`.
    pub fn serialize_i64(&mut self, v: i64) -> (r: Result<(), Error>)
        ensures
            r is Ok,
            final(self)@ == old(self)@ + spec_encode(BValue::Int(v as int)),
    {
        self.output.push(105);
        write_int_decimal(&mut self.output, v);
        self.output.push(101);
        assert(self.output@ =~= old(self)@ + spec_encode(BValue::Int(v as int)));
        Ok(())
    }

    pub fn serialize_u8(&mut self, v: u8) -> (r: Result<(), Error>)
        ensures
            r is Ok,
            final(self)@ == old(self)@ + spec_encode(BValue::Int(v as int)),
    {
        self.serialize_u64(v as u64)
    }

    pub fn serialize_u16(&mut self, v: u16) -> (r: Result<(), Error>)
        ensures
            r is Ok,
            final(self)@ == old(self)@ + spec_encode(BValue::Int(v as int)),
    {
        self.serialize_u64(v as u64)
    }

    pub fn serialize_u32(&mut self, v: u32) -> (r: Result<(), Error>)
        ensures
            r is Ok,
            final(self)@ == old(self)@ + spec_encode(BValue::Int(v as int)),
    {
        self.serialize_u64(v as u64)
    }

    /// Writes `i<v>e`.
    pub fn serialize_u64(&mut self, v: u64) -> (r: Result<(), Error>)
        ensures
            r is Ok,
            final(self)@ == old(self)@ + spec_encode(BValue::Int(v as int)),
    {
        self.output.push(105);
        write_nat_digits(&mut self.output, v);
        self.output.push(101);
        assert(self.output@ =~= old(self)@ + spec_encode(BValue::Int(v as int)));
        Ok(())
    }

    pub fn serialize_char(&mut self, _v: char) -> (r: Result<(), Error>)
        ensures
            r == Err::<(), Error>(unsupported("char")),
            final(self)@ == old(self)@,
    {
        Err(ErrorKind::Unsupported("char").into())
    }

    /// Writes the UTF-8 bytes of `v` as a byte string.
    pub fn serialize_str(&mut self, v: &str) -> (r: Result<(), Error>)
        ensures
            r is Ok,
            final(self)@ == old(self)@ + encode_bytes(v.spec_bytes()),
    {
        self.serialize_bytes(v.as_bytes())
    }

    /// Writes `<length>:<bytes>`.
    pub fn serialize_bytes(&mut self, v: &[u8]) -> (r: Result<(), Error>)
        ensures
            r is Ok,
            final(self)@ == old(self)@ + encode_bytes(v@),
    {
        let len = v.len();
        write_nat_digits(&mut self.output, len as u64);
        self.output.push(58);
        let mut i: usize = 0;
        while i < v.len()
            invariant
                i <= v@.len(),
                self.output@ == old(self)@ + nat_digits(v@.len()) + seq![58u8] + v@.take(i as int),
            decreases v@.len() - i,
        {
            self.output.push(v[i]);
            assert(v@.take(i + 1) =~= v@.take(i as int).push(v@[i as int]));
            i = i + 1;
        }
        assert(v@.take(v@.len() as int) =~= v@);
        assert(self.output@ =~= old(self)@ + encode_bytes(v@));
        Ok(())
    }

    /// `None` is written as the empty byte string `0:`.
    pub fn serialize_none(&mut self) -> (r: Result<(), Error>)
        ensures
            r is Ok,
            final(self)@ == old(self)@ + seq![48u8, 58u8],
    {
        self.serialize_empty()
    }

    /// `()` is written as the empty byte string `0:`.
    pub fn serialize_unit(&mut self) -> (r: Result<(), Error>)
        ensures
            r is Ok,
            final(self)@ == old(self)@ + seq![48u8, 58u8],
    {
        self.serialize_empty()
    }

    /// A unit struct is written as the empty byte string `0:`.
    pub fn serialize_unit_struct(&mut self, _name: &'static str) -> (r: Result<(), Error>)
        ensures
            r is Ok,
            final(self)@ == old(self)@ + seq![48u8, 58u8],
    {
        self.serialize_empty()
    }

    fn serialize_empty(&mut self) -> (r: Result<(), Error>)
        ensures
            r is Ok,
            final(self)@ == old(self)@ + seq![48u8, 58u8],
    {
        self.output.push(48);
        self.output.push(58);
        assert(self.output@ =~= old(self)@ + seq![48u8, 58u8]);
        Ok(())
    }

    /// A unit variant is written as a dictionary from its name to `0:`.
    pub fn serialize_unit_variant(
        &mut self,
        _name: &'static str,
        _variant_index: u32,
        variant: &'static str,
    ) -> (r: Result<(), Error>)
        ensures
            r is Ok,
            final(self)@ == old(self)@ + seq![100u8] + encode_bytes(variant.spec_bytes()) + seq![
                48u8,
                58u8,
                101u8,
            ],
    {
        self.output.push(100);
        let _ = self.serialize_str(variant);
        let _ = self.serialize_empty();
        self.output.push(101);
        assert(self.output@ =~= old(self)@ + seq![100u8] + encode_bytes(variant.spec_bytes())
            + seq![48u8, 58u8, 101u8]);
        Ok(())
    }

    /// Starts a list: writes `l`.
    pub fn serialize_seq(&mut self, _len: Option<usize>) -> (r: Result<SerializeSeq<'_>, Error>)
        ensures
            r matches Ok(s) && (*s.serializer)@ == old(self)@.push(108u8) && *final(self)
                == *final(s.serializer),
    {
        self.output.push(108);
        Ok(SerializeSeq { serializer: self })
    }

    /// Starts a tuple, written as a list.
    pub fn serialize_tuple(&mut self, len: usize) -> (r: Result<SerializeSeq<'_>, Error>)
        ensures
            r matches Ok(s) && (*s.serializer)@ == old(self)@.push(108u8) && *final(self)
                == *final(s.serializer),
    {
        self.serialize_seq(Some(len))
    }

    /// Starts a tuple struct, written as a list.
    pub fn serialize_tuple_struct(&mut self, _name: &'static str, len: usize) -> (r: Result<
        SerializeSeq<'_>,
        Error,
    >)
        ensures
            r matches Ok(s) && (*s.serializer)@ == old(self)@.push(108u8) && *final(self)
                == *final(s.serializer),
    {
        self.serialize_seq(Some(len))
    }

    /// Starts a tuple variant: a dictionary from the variant's name to a list.
    pub fn serialize_tuple_variant(
        &mut self,
        _name: &'static str,
        _variant_index: u32,
        variant: &'static str,
        _len: usize,
    ) -> (r: Result<SerializeComplexVariants<'_>, Error>)
        ensures
            r matches Ok(s) && (*s.serializer)@ == old(self)@ + seq![100u8] + encode_bytes(
                variant.spec_bytes(),
            ) + seq![108u8] && *final(self) == *final(s.serializer),
    {
        self.output.push(100);
        let _ = self.serialize_str(variant);
        self.output.push(108);
        assert(self.output@ =~= old(self)@ + seq![100u8] + encode_bytes(variant.spec_bytes())
            + seq![108u8]);
        Ok(SerializeComplexVariants { serializer: self })
    }

    /// Starts a dictionary: writes `d`.
    pub fn serialize_map(&mut self, _len: Option<usize>) -> (r: Result<SerializeMap<'_>, Error>)
        ensures
            r matches Ok(s) && (*s.serializer)@ == old(self)@.push(100u8) && *final(self)
                == *final(s.serializer),
    {
        self.output.push(100);
        Ok(SerializeMap { serializer: self })
    }

    /// Starts a struct, written as a dictionary from field names to values.
    pub fn serialize_struct(&mut self, _name: &'static str, _len: usize) -> (r: Result<
        SerializeStruct<'_>,
        Error,
    >)
        ensures
            r matches Ok(s) && (*s.serializer)@ == old(self)@.push(100u8) && *final(self)
                == *final(s.serializer),
    {
        self.output.push(100);
        Ok(SerializeStruct { serializer: self })
    }

    /// Starts a struct variant: a dictionary from the variant's name to a
    /// dictionary of its fields.
    pub fn serialize_struct_variant(
        &mut self,
        _name: &'static str,
        _variant_index: u32,
        variant: &'static str,
        _len: usize,
    ) -> (r: Result<SerializeComplexVariants<'_>, Error>)
        ensures
            r matches Ok(s) && (*s.serializer)@ == old(self)@ + seq![100u8] + encode_bytes(
                variant.spec_bytes(),
            ) + seq![100u8] && *final(self) == *final(s.serializer),
    {
        self.output.push(100);
        let _ = self.serialize_str(variant);
        self.output.push(100);
        assert(self.output@ =~= old(self)@ + seq![100u8] + encode_bytes(variant.spec_bytes())
            + seq![100u8]);
        Ok(SerializeComplexVariants { serializer: self })
    }
}

/// A list being written.
pub struct SerializeSeq<'a> {
    pub serializer: &'a mut Serializer,
}

impl<'a> SerializeSeq<'a> {
    /// Closes the list: writes `e`.
    pub fn end(self) -> (r: Result<(), Error>)
        ensures
            r is Ok,
            (*final(self.serializer))@ == (*old(self.serializer))@.push(101u8),
    {
        self.serializer.output.push(101);
        Ok(())
    }
}

/// A dictionary being written.
pub struct SerializeMap<'a> {
    pub serializer: &'a mut Serializer,
}

impl<'a> SerializeMap<'a> {
    /// Closes the dictionary: writes `e`.
    pub fn end(self) -> (r: Result<(), Error>)
        ensures
            r is Ok,
            (*final(self.serializer))@ == (*old(self.serializer))@.push(101u8),
    {
        self.serializer.output.push(101);
        Ok(())
    }
}

/// A struct being written as a dictionary.
pub struct SerializeStruct<'a> {
    pub serializer: &'a mut Serializer,
}

impl<'a> SerializeStruct<'a> {
    /// Closes the dictionary: writes `e`.
    pub fn end(self) -> (r: Result<(), Error>)
        ensures
            r is Ok,
            (*final(self.serializer))@ == (*old(self.serializer))@.push(101u8),
    {
        self.serializer.output.push(101);
        Ok(())
    }
}

/// A tuple or struct variant being written.
pub struct SerializeComplexVariants<'a> {
    pub serializer: &'a mut Serializer,
}

impl<'a> SerializeComplexVariants<'a> {
    /// Closes both the inner list or dictionary and the outer dictionary:
    /// writes `ee`.
    pub fn end(self) -> (r: Result<(), Error>)
        ensures
            r is Ok,
            (*final(self.serializer))@ == (*old(self.serializer))@.push(101u8).push(101u8),
    {
        self.serializer.output.push(101);
        self.serializer.output.push(101);
        Ok(())
    }
}

impl<'a> Bytes<'a> {
    /// Writes the byte string.
    pub fn serialize(&self, serializer: &mut Serializer) -> (r: Result<(), Error>)
        ensures
            r is Ok,
            final(serializer)@ == old(serializer)@ + encode_bytes(self@),
    {
        serializer.serialize_bytes(self.as_slice())
    }
}

pub proof fn lemma_encode_list_take(l: Seq<BValue>, i: int)
    requires
        0 <= i < l.len(),
    ensures
        spec_encode_list(l.take(i + 1)) == spec_encode_list(l.take(i)) + spec_encode(l[i]),
{
    assert(l.take(i + 1).drop_last() =~= l.take(i));
}

pub proof fn lemma_encode_dict_take(d: Seq<(Seq<u8>, BValue)>, i: int)
    requires
        0 <= i < d.len(),
    ensures
        spec_encode_dict(d.take(i + 1)) == spec_encode_dict(d.take(i)) + encode_bytes(d[i].0)
            + spec_encode(d[i].1),
{
    assert(d.take(i + 1).drop_last() =~= d.take(i));
}

impl<'a> BencodeValue<'a> {
    /// Writes the value: an integer as `i<n>e`, a byte string as
    /// `<length>:<bytes>`, a list as `l<items>e` and a dictionary as
    /// `d<key><value>...e` with its entries in their order.
    pub fn serialize(&self, serializer: &mut Serializer) -> (r: Result<(), Error>)
        ensures
            r is Ok,
            final(serializer)@ == old(serializer)@ + spec_encode(self@),
        decreases self,
    {
        match self {
            BencodeValue::Int(i) => serializer.serialize_i64(*i),
            BencodeValue::Bytes(b) => b.serialize(serializer),
            BencodeValue::List(l) => {
                let ghost vl = view_value(*self)->List_0;
                proof {
                    lemma_view_list(l@);
                }
                serializer.output.push(108);
                let mut i: usize = 0;
                assert(vl.take(0) =~= Seq::<BValue>::empty());
                while i < l.len()
                    invariant
                        *self is List,
                        (*self)->List_0 == *l,
                        i <= l@.len(),
                        vl.len() == l@.len(),
                        forall|j: int| 0 <= j < l@.len() ==> vl[j] == view_value(#[trigger] l@[j]),
                        serializer@ == old(serializer)@ + seq![108u8] + spec_encode_list(
                            vl.take(i as int),
                        ),
                    decreases l@.len() - i,
                {
                    proof {
                        lemma_encode_list_take(vl, i as int);
                        assert(decreases_to!(*self => (*self)->List_0));
                        assert(*l == (*self)->List_0);
                        assert(decreases_to!(*l => l@));
                        assert(decreases_to!(l@ => l@[i as int]));
                        assert(decreases_to!(*self => l@[i as int]));
                    }
                    let _ = l[i].serialize(serializer);
                    i = i + 1;
                }
                serializer.output.push(101);
                assert(vl.take(l@.len() as int) =~= vl);
                assert(serializer@ =~= old(serializer)@ + spec_encode(self@));
                Ok(())
            },
            BencodeValue::Dict(d) => {
                let ghost vd = view_value(*self)->Dict_0;
                proof {
                    lemma_view_dict(d@);
                }
                serializer.output.push(100);
                let mut i: usize = 0;
                assert(vd.take(0) =~= Seq::<(Seq<u8>, BValue)>::empty());
                while i < d.len()
                    invariant
                        *self is Dict,
                        (*self)->Dict_0 == *d,
                        i <= d@.len(),
                        vd.len() == d@.len(),
                        forall|j: int|
                            0 <= j < d@.len() ==> vd[j] == (
                                #[trigger] d@[j].0@,
                                view_value(d@[j].1),
                            ),
                        serializer@ == old(serializer)@ + seq![100u8] + spec_encode_dict(
                            vd.take(i as int),
                        ),
                    decreases d@.len() - i,
                {
                    proof {
                        lemma_encode_dict_take(vd, i as int);
                        assert(decreases_to!(*self => (*self)->Dict_0));
                        assert(*d == (*self)->Dict_0);
                        assert(decreases_to!(*d => d@));
                        assert(decreases_to!(d@ => d@[i as int]));
                        assert(decreases_to!(d@[i as int] => d@[i as int].1));
                        assert(decreases_to!(*self => d@[i as int].1));
                    }
                    let _ = d[i].0.serialize(serializer);
                    let _ = d[i].1.serialize(serializer);
                    i = i + 1;
                }
                serializer.output.push(101);
                assert(vd.take(d@.len() as int) =~= vd);
                assert(serializer@ =~= old(serializer)@ + spec_encode(self@));
                Ok(())
            },
        }
    }
}

/// The bencoding of `value`.
pub fn to_bytes(value: &BencodeValue) -> (r: Vec<u8>)
    ensures
        r@ == spec_encode(value@),
{
    let mut serializer = Serializer::new();
    let _ = value.serialize(&mut serializer);
    assert(serializer@ =~= spec_encode(value@));
    serializer.into_bytes()
}

/// Appends the bencoding of `value` to `writer`; it never fails.
pub fn to_writer(value: &BencodeValue, writer: &mut Vec<u8>) -> (r: Result<(), Error>)
    ensures
        r is Ok,
        final(writer)@ == old(writer)@ + spec_encode(value@),
{
    let mut bytes = to_bytes(value);
    writer.append(&mut bytes);
    Ok(())
}

/// The bencoding of `value` as a string; an error where it is not valid UTF-8.
pub fn to_string(value: &BencodeValue) -> (r: Result<String, Error>)
    ensures
        valid_utf8(spec_encode(value@)) ==> (r matches Ok(s) && s@ == decode_utf8(
            spec_encode(value@),
        )),
        !valid_utf8(spec_encode(value@)) ==> (r matches Err(e) && e.kind is Custom
            && e.position is None),
{
    let buff = to_bytes(value);
    match string_from_utf8(buff) {
        Ok(s) => Ok(s),
        Err(msg) => Err(ErrorKind::Custom(msg).into()),
    }
}

} // verus!
