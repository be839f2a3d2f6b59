use std::borrow::Cow;
use vstd::prelude::*;

verus! {

/// A bencoded byte string, borrowed from the input where it can be.
#[derive(Debug, PartialEq, Eq, Hash)]
pub struct Bytes<'a>(pub Cow<'a, [u8]>);

/// Any bencode value. A dictionary keeps its entries in the order in which
/// they were inserted; a key occurs in it at most once.
#[derive(Debug, PartialEq, Eq)]
pub enum BencodeValue<'a> {
    Int(i64),
    Bytes(Bytes<'a>),
    List(Vec<BencodeValue<'a>>),
    Dict(Vec<(Bytes<'a>, BencodeValue<'a>)>),
}

/// The mathematical model of a bencode value.
pub enum BValue {
    Int(int),
    Bytes(Seq<u8>),
    List(Seq<BValue>),
    Dict(Seq<(Seq<u8>, BValue)>),
}

impl<'a> View for Bytes<'a> {
    type V = Seq<u8>;

    open spec fn view(&self) -> Seq<u8> {
        self.0@
    }
}

impl<'a> Bytes<'a> {
    /// The bytes themselves.
    pub fn as_slice(&self) -> (r: &[u8])
        ensures
            r@ == self@,
    {
        match &self.0 {
            Cow::Borrowed(b) => b,
            Cow::Owned(v) => v.as_slice(),
        }
    }
}

pub open spec fn view_value(v: BencodeValue) -> BValue
    decreases v,
{
    match v {
        BencodeValue::Int(i) => BValue::Int(i as int),
        BencodeValue::Bytes(b) => BValue::Bytes(b@),
        BencodeValue::List(l) => BValue::List(view_list(l@)),
        BencodeValue::Dict(d) => BValue::Dict(view_dict(d@)),
    }
}

pub open spec fn view_list(l: Seq<BencodeValue>) -> Seq<BValue>
    decreases l,
{
    if l.len() == 0 {
        Seq::empty()
    } else {
        view_list(l.drop_last()).push(view_value(l.last()))
    }
}

pub open spec fn view_dict(d: Seq<(Bytes, BencodeValue)>) -> Seq<(Seq<u8>, BValue)>
    decreases d,
{
    if d.len() == 0 {
        Seq::empty()
    } else {
        view_dict(d.drop_last()).push((d.last().0@, view_value(d.last().1)))
    }
}

/// The model of a list, item by item.
pub proof fn lemma_view_list(l: Seq<BencodeValue>)
    ensures
        view_list(l) =~= Seq::new(l.len(), |i: int| view_value(l[i])),
    decreases l.len(),
{
    if l.len() > 0 {
        lemma_view_list(l.drop_last());
    }
}

/// The model of a dictionary, entry by entry.
pub proof fn lemma_view_dict(d: Seq<(Bytes, BencodeValue)>)
    ensures
        view_dict(d) =~= Seq::new(d.len(), |i: int| (d[i].0@, view_value(d[i].1))),
    decreases d.len(),
{
    if d.len() > 0 {
        lemma_view_dict(d.drop_last());
    }
}

pub proof fn lemma_view_dict_len(d: Seq<(Bytes, BencodeValue)>)
    ensures
        view_dict(d).len() == d.len(),
{
    lemma_view_dict(d);
}

pub proof fn lemma_view_dict_index(d: Seq<(Bytes, BencodeValue)>, i: int)
    requires
        0 <= i < d.len(),
    ensures
        view_dict(d)[i] == (d[i].0@, view_value(d[i].1)),
{
    lemma_view_dict(d);
}

pub proof fn lemma_view_dict_update(d: Seq<(Bytes, BencodeValue)>, i: int, e: (Bytes, BencodeValue))
    requires
        0 <= i < d.len(),
    ensures
        view_dict(d.update(i, e)) == view_dict(d).update(i, (e.0@, view_value(e.1))),
{
    lemma_view_dict(d);
    lemma_view_dict(d.update(i, e));
    assert(view_dict(d.update(i, e)) =~= view_dict(d).update(i, (e.0@, view_value(e.1))));
}

pub proof fn lemma_view_dict_push(d: Seq<(Bytes, BencodeValue)>, e: (Bytes, BencodeValue))
    ensures
        view_dict(d.push(e)) == view_dict(d).push((e.0@, view_value(e.1))),
{
    assert(d.push(e).drop_last() =~= d);
}

pub proof fn lemma_view_list_push(l: Seq<BencodeValue>, v: BencodeValue)
    ensures
        view_list(l.push(v)) == view_list(l).push(view_value(v)),
{
    assert(l.push(v).drop_last() =~= l);
}

impl<'a> View for BencodeValue<'a> {
    type V = BValue;

    open spec fn view(&self) -> BValue {
        view_value(*self)
    }
}

impl<'a> vstd::std_specs::convert::FromSpecImpl<i64> for BencodeValue<'a> {
    open spec fn obeys_from_spec() -> bool {
        true
    }

    open spec fn from_spec(value: i64) -> Self {
        BencodeValue::Int(value)
    }
}

impl<'a> From<i64> for BencodeValue<'a> {
    fn from(value: i64) -> (r: Self)
        ensures
            r == BencodeValue::<'a>::Int(value),
    {
        BencodeValue::Int(value)
    }
}

impl<'a> vstd::std_specs::convert::FromSpecImpl<Vec<BencodeValue<'a>>> for BencodeValue<'a> {
    open spec fn obeys_from_spec() -> bool {
        true
    }

    open spec fn from_spec(value: Vec<BencodeValue<'a>>) -> Self {
        BencodeValue::List(value)
    }
}

impl<'a> From<Vec<BencodeValue<'a>>> for BencodeValue<'a> {
    fn from(value: Vec<BencodeValue<'a>>) -> (r: Self)
        ensures
            r == BencodeValue::<'a>::List(value),
    {
        BencodeValue::List(value)
    }
}

} // verus!
