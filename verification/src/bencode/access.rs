//! Reading fields out of bencode dictionaries.

use vstd::prelude::*;
use vstd::utf8::{decode_utf8, valid_utf8};

use super::de::bytes_eq;
use super::grammar::find_key;
use super::value::{
    lemma_view_dict_index, lemma_view_dict_len, lemma_view_list, view_dict, view_list, view_value,
    BValue, BencodeValue, Bytes,
};
use crate::utf8::str_from_utf8;

verus! {

/// The value of `key` in a dictionary: that of its first entry.
pub open spec fn dict_get(d: Seq<(Seq<u8>, BValue)>, key: Seq<u8>) -> Option<BValue> {
    match find_key(d, key, 0) {
        Some(i) => Some(d[i].1),
        None => None,
    }
}

/// The text of a byte string that is valid UTF-8.
pub open spec fn as_text(v: Option<BValue>) -> Option<Seq<char>> {
    match v {
        Some(BValue::Bytes(b)) => if valid_utf8(b) {
            Some(decode_utf8(b))
        } else {
            None
        },
        _ => None,
    }
}

/// The model of a value that may be missing.
pub open spec fn opt_view(o: Option<&BencodeValue>) -> Option<BValue> {
    match o {
        Some(v) => Some(v@),
        None => None,
    }
}

/// The value of `key` in a dictionary: that of its first entry.
pub fn get<'b, 'c>(d: &'b Vec<(Bytes<'c>, BencodeValue<'c>)>, key: &[u8]) -> (r: Option<&'b BencodeValue<'c>>)
    ensures
        opt_view(r) == dict_get(view_dict(d@), key@),
{
    let ghost vd = view_dict(d@);
    proof {
        lemma_view_dict_len(d@);
    }
    let mut i: usize = 0;
    while i < d.len()
        invariant
            i <= d@.len(),
            vd == view_dict(d@),
            vd.len() == d@.len(),
            find_key(vd, key@, 0) == find_key(vd, key@, i as int),
        decreases d@.len() - i,
    {
        proof {
            lemma_view_dict_index(d@, i as int);
        }
        if bytes_eq(d[i].0.as_slice(), key) {
            return Some(&d[i].1);
        }
        i = i + 1;
    }
    None
}

/// The text of a value that is a byte string of valid UTF-8.
pub fn text_of(v: Option<&BencodeValue>) -> (r: Option<String>)
    ensures
        match as_text(opt_view(v)) {
            Some(t) => r matches Some(s) && s@ == t,
            None => r is None,
        },
{
    match v {
        Some(BencodeValue::Bytes(b)) => match str_from_utf8(b.as_slice()) {
            Some(s) => Some(s.to_owned()),
            None => None,
        },
        _ => None,
    }
}

/// An optional field as a decoder reads it: a missing field or an empty
/// byte string is `None`.
pub open spec fn present(v: Option<BValue>) -> Option<BValue> {
    match v {
        Some(BValue::Bytes(b)) => if b.len() == 0 {
            None
        } else {
            v
        },
        _ => v,
    }
}

/// An integer from 0 to `max`.
pub open spec fn as_uint(v: Option<BValue>, max: int) -> Option<int> {
    match v {
        Some(BValue::Int(i)) => if 0 <= i <= max {
            Some(i)
        } else {
            None
        },
        _ => None,
    }
}

/// An optional text: `Some(None)` where it is absent, `None` where it is
/// there but no text.
pub open spec fn opt_text(v: Option<BValue>) -> Option<Option<Seq<char>>> {
    match present(v) {
        None => Some(None),
        Some(x) => match as_text(Some(x)) {
            Some(t) => Some(Some(t)),
            None => None,
        },
    }
}

/// An optional integer from 0 to `max`, as `opt_text` reads texts.
pub open spec fn opt_uint(v: Option<BValue>, max: int) -> Option<Option<int>> {
    match present(v) {
        None => Some(None),
        Some(x) => match as_uint(Some(x), max) {
            Some(i) => Some(Some(i)),
            None => None,
        },
    }
}

/// A list of texts.
pub open spec fn as_text_list(v: Option<BValue>) -> Option<Seq<Seq<char>>> {
    match v {
        Some(BValue::List(l)) => if forall|i: int| 0 <= i < l.len() ==> (#[trigger] as_text(Some(l[i]))) is Some {
            Some(l.map_values(|x: BValue| as_text(Some(x))->Some_0))
        } else {
            None
        },
        _ => None,
    }
}

/// Whether a value that may be missing is missing or an empty byte string.
pub fn is_absent(v: Option<&BencodeValue>) -> (r: bool)
    ensures
        r == (present(opt_view(v)) is None),
{
    match v {
        None => true,
        Some(BencodeValue::Bytes(b)) => b.as_slice().len() == 0,
        _ => false,
    }
}

/// An integer from 0 to `max`.
pub fn uint_of(v: Option<&BencodeValue>, max: u64) -> (r: Option<u64>)
    ensures
        match as_uint(opt_view(v), max as int) {
            Some(i) => r == Some(i as u64),
            None => r is None,
        },
{
    match v {
        Some(BencodeValue::Int(i)) => {
            if 0 <= *i && (*i as u64) <= max {
                Some(*i as u64)
            } else {
                None
            }
        },
        _ => None,
    }
}

/// A list of texts.
pub fn text_list_of(v: Option<&BencodeValue>) -> (r: Option<Vec<String>>)
    ensures
        match as_text_list(opt_view(v)) {
            Some(ts) => r matches Some(list) && list@.len() == ts.len() && forall|i: int|
                0 <= i < ts.len() ==> (#[trigger] list@[i])@ == ts[i],
            None => r is None,
        },
{
    match v {
        Some(BencodeValue::List(l)) => {
            let ghost vl = view_list(l@);
            proof {
                lemma_view_list(l@);
            }
            assert(opt_view(v) == Some(BValue::List(vl)));
            let mut out: Vec<String> = Vec::new();
            let mut i: usize = 0;
            while i < l.len()
                invariant
                    i <= l@.len(),
                    vl == view_list(l@),
                    vl =~= Seq::new(l@.len(), |k: int| view_value(l@[k])),
                    opt_view(v) == Some(BValue::List(vl)),
                    out@.len() == i,
                    forall|k: int| 0 <= k < i ==> (#[trigger] as_text(Some(vl[k]))) is Some,
                    forall|k: int| 0 <= k < i ==> (#[trigger] out@[k])@ == as_text(Some(vl[k]))->Some_0,
                decreases l@.len() - i,
            {
                match text_of(Some(&l[i])) {
                    Some(t) => {
                        out.push(t);
                    },
                    None => {
                        proof {
                            assert(as_text(Some(vl[i as int])) is None);
                        }
                        return None;
                    },
                }
                i = i + 1;
            }
            Some(out)
        },
        _ => None,
    }
}

} // verus!
