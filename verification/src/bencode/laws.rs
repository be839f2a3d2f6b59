//! What decoding and encoding promise of each other.

use vstd::prelude::*;

use super::de::{decode_aborts, decode_matches};
use super::error::Error;
use super::grammar::{
    all_digits, digits_value, dict_insert, find_byte, find_key, int_decimal, is_digit,
    lemma_find_byte, lemma_nat_digits, nat_digits,
    parse_i64_spec, spec_dict_items, spec_list_items, spec_parse_bytes_checked, spec_parse_integer,
    spec_value, Parsed,
};
use super::ser::{encode_bytes, spec_encode, spec_encode_dict, spec_encode_list};
use super::value::{BValue, BencodeValue};
use crate::utf8::lemma_ascii_valid_utf8;

verus! {

/// The keys of `d` are pairwise distinct.
pub open spec fn distinct_keys(d: Seq<(Seq<u8>, BValue)>) -> bool {
    forall|i: int, j: int| 0 <= i < j < d.len() ==> (#[trigger] d[i]).0 != (#[trigger] d[j]).0
}

/// A value that bencode can carry through the decoder: integers fit in an
/// `i64`, byte strings in memory, and no dictionary repeats a key.
pub open spec fn wf_value(v: BValue) -> bool
    decreases v,
{
    match v {
        BValue::Int(i) => i64::MIN <= i <= i64::MAX,
        BValue::Bytes(b) => b.len() <= usize::MAX,
        BValue::List(l) => wf_list(l),
        BValue::Dict(d) => distinct_keys(d) && wf_dict(d),
    }
}

/// Every item of `l` is well formed.
pub open spec fn wf_list(l: Seq<BValue>) -> bool
    decreases l,
{
    l.len() == 0 || (wf_list(l.drop_last()) && wf_value(l.last()))
}

/// Every key of `d` fits in memory and every value is well formed.
pub open spec fn wf_dict(d: Seq<(Seq<u8>, BValue)>) -> bool
    decreases d,
{
    d.len() == 0 || (wf_dict(d.drop_last()) && d.last().0.len() <= usize::MAX && wf_value(
        d.last().1,
    ))
}

pub proof fn lemma_wf_list(l: Seq<BValue>)
    ensures
        wf_list(l) <==> forall|i: int| 0 <= i < l.len() ==> #[trigger] wf_value(l[i]),
    decreases l.len(),
{
    if l.len() > 0 {
        lemma_wf_list(l.drop_last());
        if forall|i: int| 0 <= i < l.len() ==> #[trigger] wf_value(l[i]) {
            assert forall|i: int| 0 <= i < l.drop_last().len() implies #[trigger] wf_value(
                l.drop_last()[i],
            ) by {
                assert(wf_value(l[i]));
            }
            assert(wf_value(l[l.len() - 1]));
        }
        if wf_list(l) {
            assert forall|i: int| 0 <= i < l.len() implies #[trigger] wf_value(l[i]) by {
                if i < l.len() - 1 {
                    assert(wf_value(l.drop_last()[i]));
                }
            }
        }
    }
}

pub proof fn lemma_wf_dict(d: Seq<(Seq<u8>, BValue)>)
    ensures
        wf_dict(d) <==> forall|i: int|
            0 <= i < d.len() ==> (#[trigger] d[i]).0.len() <= usize::MAX && wf_value(d[i].1),
    decreases d.len(),
{
    if d.len() > 0 {
        lemma_wf_dict(d.drop_last());
        if forall|i: int|
            0 <= i < d.len() ==> (#[trigger] d[i]).0.len() <= usize::MAX && wf_value(d[i].1) {
            assert forall|i: int| 0 <= i < d.drop_last().len() implies (#[trigger] d.drop_last()[
                i
            ]).0.len() <= usize::MAX && wf_value(d.drop_last()[i].1) by {
                assert(d[i].0.len() <= usize::MAX && wf_value(d[i].1));
            }
            assert(d[d.len() - 1].0.len() <= usize::MAX && wf_value(d[d.len() - 1].1));
        }
        if wf_dict(d) {
            assert forall|i: int| 0 <= i < d.len() implies (#[trigger] d[i]).0.len() <= usize::MAX
                && wf_value(d[i].1) by {
                if i < d.len() - 1 {
                    assert(d.drop_last()[i].0.len() <= usize::MAX && wf_value(d.drop_last()[i].1));
                }
            }
        }
    }
}

pub proof fn lemma_find_byte_at(s: Seq<u8>, from: int, q: int, b: u8)
    requires
        0 <= from <= q < s.len(),
        s[q] == b,
        forall|k: int| from <= k < q ==> s[k] != b,
    ensures
        find_byte(s, from, b) == Some(q),
    decreases q - from,
{
    if from < q {
        lemma_find_byte_at(s, from + 1, q, b);
    }
}

pub proof fn lemma_encode_list_first(l: Seq<BValue>)
    requires
        l.len() > 0,
    ensures
        spec_encode_list(l) == spec_encode(l[0]) + spec_encode_list(l.drop_first()),
    decreases l.len(),
{
    if l.len() == 1 {
        assert(l.drop_last() =~= Seq::<BValue>::empty());
        assert(l.drop_first() =~= Seq::<BValue>::empty());
        assert(spec_encode_list(l) =~= spec_encode(l[0]) + spec_encode_list(l.drop_first()));
    } else {
        lemma_encode_list_first(l.drop_last());
        assert(l.drop_last().drop_first() =~= l.drop_first().drop_last());
        assert(l.drop_first().last() == l.last());
        assert(spec_encode_list(l) =~= spec_encode(l[0]) + spec_encode_list(l.drop_first()));
    }
}

pub proof fn lemma_encode_dict_first(d: Seq<(Seq<u8>, BValue)>)
    requires
        d.len() > 0,
    ensures
        spec_encode_dict(d) == encode_bytes(d[0].0) + spec_encode(d[0].1) + spec_encode_dict(
            d.drop_first(),
        ),
    decreases d.len(),
{
    if d.len() == 1 {
        assert(d.drop_last() =~= Seq::<(Seq<u8>, BValue)>::empty());
        assert(d.drop_first() =~= Seq::<(Seq<u8>, BValue)>::empty());
        assert(spec_encode_dict(d) =~= encode_bytes(d[0].0) + spec_encode(d[0].1)
            + spec_encode_dict(d.drop_first()));
    } else {
        lemma_encode_dict_first(d.drop_last());
        assert(d.drop_last().drop_first() =~= d.drop_first().drop_last());
        assert(d.drop_first().last() == d.last());
        assert(spec_encode_dict(d) =~= encode_bytes(d[0].0) + spec_encode(d[0].1)
            + spec_encode_dict(d.drop_first()));
    }
}

/// What `i64::from_str` reads back from the decimal form of an `i64`.
pub proof fn lemma_parse_int_decimal(i: int)
    requires
        i64::MIN <= i <= i64::MAX,
    ensures
        parse_i64_spec(int_decimal(i)) == Some(i as i64),
        forall|k: int|
            0 <= k < int_decimal(i).len() ==> #[trigger] int_decimal(i)[k] < 128
                && int_decimal(i)[k] != 101u8,
{
    if i < 0 {
        lemma_nat_digits((-i) as nat);
        let d = int_decimal(i);
        assert(d.drop_first() =~= nat_digits((-i) as nat));
        assert forall|k: int| 0 <= k < d.len() implies #[trigger] d[k] < 128 && d[k] != 101u8 by {
            if k > 0 {
                assert(d[k] == nat_digits((-i) as nat)[k - 1]);
                assert(is_digit(nat_digits((-i) as nat)[k - 1]));
            }
        }
    } else {
        lemma_nat_digits(i as nat);
        let d = int_decimal(i);
        assert(is_digit(d[0]));
        assert forall|k: int| 0 <= k < d.len() implies #[trigger] d[k] < 128 && d[k] != 101u8 by {
            assert(is_digit(d[k]));
        }
    }
}

/// The digits of `i e`, at `p`, read back as `i`.
pub proof fn lemma_integer_roundtrip(i: int, s: Seq<u8>, p: int)
    requires
        i64::MIN <= i <= i64::MAX,
        0 <= p,
        p + int_decimal(i).len() + 1 <= s.len(),
        s.subrange(p, p + int_decimal(i).len() + 1) == int_decimal(i) + seq![101u8],
    ensures
        spec_parse_integer(s, p) == Parsed::Done(i as i64, p + int_decimal(i).len() + 1),
{
    let d = int_decimal(i);
    let q = p + d.len();
    lemma_parse_int_decimal(i);
    assert forall|k: int| p <= k < q implies s[k] != 101u8 by {
        assert(s[k] == s.subrange(p, q + 1)[k - p]);
        assert(s.subrange(p, q + 1)[k - p] == d[k - p]);
    }
    assert(s[q] == s.subrange(p, q + 1)[q - p]);
    lemma_find_byte_at(s, p, q, 101u8);
    assert(s.subrange(p, q) =~= d);
    lemma_ascii_valid_utf8(d);
}

/// A byte string, at `p`, reads back as itself.
pub proof fn lemma_bytes_roundtrip(b: Seq<u8>, s: Seq<u8>, p: int)
    requires
        b.len() <= usize::MAX,
        0 <= p,
        p + encode_bytes(b).len() <= s.len(),
        s.subrange(p, p + encode_bytes(b).len()) == encode_bytes(b),
    ensures
        spec_parse_bytes_checked(s, p) == Parsed::Done(b, p + encode_bytes(b).len()),
{
    let d = nat_digits(b.len());
    let q = p + d.len();
    let e = encode_bytes(b);
    lemma_nat_digits(b.len());
    assert forall|k: int| p <= k < q implies s[k] != 58u8 && s[k] < 128 by {
        assert(s[k] == s.subrange(p, p + e.len())[k - p]);
        assert(e[k - p] == d[k - p]);
        assert(is_digit(d[k - p]));
    }
    assert(s[q] == s.subrange(p, p + e.len())[q - p]);
    assert(s[p] == s.subrange(p, p + e.len())[0]);
    assert(is_digit(d[0]));
    lemma_find_byte_at(s, p, q, 58u8);
    assert(s.subrange(p, q) =~= d);
    assert forall|k: int| 0 <= k < d.len() implies #[trigger] d[k] < 128 by {
        assert(is_digit(d[k]));
    }
    lemma_ascii_valid_utf8(d);
    assert(s.subrange(q + 1, q + 1 + b.len()) =~= b) by {
        assert forall|k: int| 0 <= k < b.len() implies s.subrange(q + 1, q + 1 + b.len())[k]
            == b[k] by {
            assert(s[q + 1 + k] == s.subrange(p, p + e.len())[q + 1 + k - p]);
            assert(e[d.len() + 1 + k] == b[k]);
        }
    }
}

pub proof fn lemma_encode_first_byte(v: BValue)
    ensures
        spec_encode(v).len() >= 1,
        spec_encode(v)[0] != 101u8,
{
    match v {
        BValue::Bytes(b) => {
            lemma_nat_digits(b.len());
            assert(spec_encode(v)[0] == nat_digits(b.len())[0]);
            assert(is_digit(nat_digits(b.len())[0]));
        },
        _ => {},
    }
}

pub proof fn lemma_find_key_absent(d: Seq<(Seq<u8>, BValue)>, key: Seq<u8>, from: int)
    requires
        0 <= from,
        forall|i: int| 0 <= i < d.len() ==> (#[trigger] d[i]).0 != key,
    ensures
        find_key(d, key, from) is None,
    decreases d.len() - from,
{
    if from < d.len() {
        lemma_find_key_absent(d, key, from + 1);
    }
}

/// A value's bencoding, found at `p`, reads back as the value.
pub proof fn lemma_value_roundtrip(v: BValue, s: Seq<u8>, p: int)
    requires
        wf_value(v),
        0 <= p,
        p + spec_encode(v).len() <= s.len(),
        s.subrange(p, p + spec_encode(v).len()) == spec_encode(v),
    ensures
        spec_value(s, p) == Parsed::Done(v, p + spec_encode(v).len()),
    decreases v,
{
    let e = spec_encode(v);
    let end = p + e.len();
    assert(s[p] == s.subrange(p, end)[0]);
    match v {
        BValue::Int(i) => {
            let d = int_decimal(i);
            assert(s.subrange(p + 1, end) =~= d + seq![101u8]) by {
                assert(e =~= seq![105u8] + (d + seq![101u8]));
                assert forall|k: int| 0 <= k < end - (p + 1) implies s.subrange(p + 1, end)[k]
                    == (d + seq![101u8])[k] by {
                    assert(s[p + 1 + k] == s.subrange(p, end)[1 + k]);
                }
            }
            lemma_integer_roundtrip(i, s, p + 1);
        },
        BValue::Bytes(b) => {
            lemma_bytes_roundtrip(b, s, p);
            lemma_nat_digits(b.len());
            assert(is_digit(e[0]));
        },
        BValue::List(l) => {
            let inner = spec_encode_list(l);
            assert(e =~= seq![108u8] + inner + seq![101u8]);
            assert(s.subrange(p + 1, p + 1 + inner.len()) =~= inner) by {
                assert forall|k: int| 0 <= k < inner.len() implies s.subrange(
                    p + 1,
                    p + 1 + inner.len(),
                )[k] == inner[k] by {
                    assert(s[p + 1 + k] == s.subrange(p, end)[1 + k]);
                }
            }
            assert(s[p + 1 + inner.len()] == s.subrange(p, end)[1 + inner.len() as int]);
            lemma_wf_list(l);
            lemma_list_items_roundtrip(l, s, p + 1, Seq::empty());
            assert(Seq::<BValue>::empty() + l =~= l);
        },
        BValue::Dict(d) => {
            let inner = spec_encode_dict(d);
            assert(e =~= seq![100u8] + inner + seq![101u8]);
            assert(s.subrange(p + 1, p + 1 + inner.len()) =~= inner) by {
                assert forall|k: int| 0 <= k < inner.len() implies s.subrange(
                    p + 1,
                    p + 1 + inner.len(),
                )[k] == inner[k] by {
                    assert(s[p + 1 + k] == s.subrange(p, end)[1 + k]);
                }
            }
            assert(s[p + 1 + inner.len()] == s.subrange(p, end)[1 + inner.len() as int]);
            assert(Seq::<(Seq<u8>, BValue)>::empty() + d =~= d);
            lemma_wf_dict(d);
            lemma_dict_items_roundtrip(d, s, p + 1, Seq::empty());
        },
    }
}

/// The bencoding of a list's items, found at `p` and followed by `e`, reads
/// back as those items after the ones already read.
pub proof fn lemma_list_items_roundtrip(l: Seq<BValue>, s: Seq<u8>, p: int, acc: Seq<BValue>)
    requires
        forall|i: int| 0 <= i < l.len() ==> #[trigger] wf_value(l[i]),
        0 <= p,
        p + spec_encode_list(l).len() < s.len(),
        s.subrange(p, p + spec_encode_list(l).len()) == spec_encode_list(l),
        s[p + spec_encode_list(l).len()] == 101u8,
    ensures
        spec_list_items(s, p, acc) == Parsed::Done(acc + l, p + spec_encode_list(l).len()),
    decreases l,
{
    if l.len() == 0 {
        assert(acc + l =~= acc);
    } else {
        let e = spec_encode_list(l);
        lemma_encode_list_first(l);
        let first = spec_encode(l[0]);
        let rest = spec_encode_list(l.drop_first());
        lemma_encode_first_byte(l[0]);
        assert(s[p] == s.subrange(p, p + e.len())[0]);
        assert(s.subrange(p, p + first.len()) =~= first) by {
            assert forall|k: int| 0 <= k < first.len() implies s.subrange(p, p + first.len())[k]
                == first[k] by {
                assert(s[p + k] == s.subrange(p, p + e.len())[k]);
            }
        }
        lemma_value_roundtrip(l[0], s, p);
        let q = p + first.len();
        assert(s.subrange(q, q + rest.len()) =~= rest) by {
            assert forall|k: int| 0 <= k < rest.len() implies s.subrange(q, q + rest.len())[k]
                == rest[k] by {
                assert(s[q + k] == s.subrange(p, p + e.len())[first.len() + k]);
            }
        }
        assert forall|i: int| 0 <= i < l.drop_first().len() implies #[trigger] wf_value(
            l.drop_first()[i],
        ) by {
            assert(wf_value(l[i + 1]));
        }
        lemma_list_items_roundtrip(l.drop_first(), s, q, acc.push(l[0]));
        assert(acc.push(l[0]) + l.drop_first() =~= acc + l);
    }
}

/// The bencoding of a dictionary's entries, found at `p` and followed by `e`,
/// reads back as those entries after the ones already read, where no key
/// repeats.
pub proof fn lemma_dict_items_roundtrip(
    d: Seq<(Seq<u8>, BValue)>,
    s: Seq<u8>,
    p: int,
    acc: Seq<(Seq<u8>, BValue)>,
)
    requires
        distinct_keys(acc + d),
        forall|i: int| 0 <= i < d.len() ==> (#[trigger] d[i]).0.len() <= usize::MAX,
        forall|i: int| 0 <= i < d.len() ==> #[trigger] wf_value(d[i].1),
        0 <= p,
        p + spec_encode_dict(d).len() < s.len(),
        s.subrange(p, p + spec_encode_dict(d).len()) == spec_encode_dict(d),
        s[p + spec_encode_dict(d).len()] == 101u8,
    ensures
        spec_dict_items(s, p, acc) == Parsed::Done(acc + d, p + spec_encode_dict(d).len()),
    decreases d,
{
    if d.len() == 0 {
        assert(acc + d =~= acc);
    } else {
        let e = spec_encode_dict(d);
        lemma_encode_dict_first(d);
        let key = encode_bytes(d[0].0);
        let val = spec_encode(d[0].1);
        let rest = spec_encode_dict(d.drop_first());
        lemma_nat_digits(d[0].0.len());
        assert(s[p] == s.subrange(p, p + e.len())[0]);
        assert(s[p] == key[0]);
        assert(is_digit(key[0]));
        assert(s.subrange(p, p + key.len()) =~= key) by {
            assert forall|k: int| 0 <= k < key.len() implies s.subrange(p, p + key.len())[k]
                == key[k] by {
                assert(s[p + k] == s.subrange(p, p + e.len())[k]);
            }
        }
        lemma_bytes_roundtrip(d[0].0, s, p);
        let q = p + key.len();
        assert(s.subrange(q, q + val.len()) =~= val) by {
            assert forall|k: int| 0 <= k < val.len() implies s.subrange(q, q + val.len())[k]
                == val[k] by {
                assert(s[q + k] == s.subrange(p, p + e.len())[key.len() + k]);
            }
        }
        assert(decreases_to!(d => d[0]));
        assert(decreases_to!(d[0] => d[0].1));
        lemma_value_roundtrip(d[0].1, s, q);
        lemma_encode_first_byte(d[0].1);
        let r = q + val.len();
        assert(s.subrange(r, r + rest.len()) =~= rest) by {
            assert forall|k: int| 0 <= k < rest.len() implies s.subrange(r, r + rest.len())[k]
                == rest[k] by {
                assert(s[r + k] == s.subrange(p, p + e.len())[key.len() + val.len() + k]);
            }
        }
        assert forall|i: int| 0 <= i < acc.len() implies (#[trigger] acc[i]).0 != d[0].0 by {
            assert((acc + d)[i] == acc[i]);
            assert((acc + d)[acc.len() as int] == d[0]);
        }
        lemma_find_key_absent(acc, d[0].0, 0);
        assert(dict_insert(acc, d[0].0, d[0].1) == acc.push(d[0]));
        assert(acc.push(d[0]) + d.drop_first() =~= acc + d);
        assert forall|i: int| 0 <= i < d.drop_first().len() implies #[trigger] wf_value(
            d.drop_first()[i].1,
        ) && (d.drop_first()[i]).0.len() <= usize::MAX by {
            assert(wf_value(d[i + 1].1));
            assert(d[i + 1].0.len() <= usize::MAX);
        }
        lemma_dict_items_roundtrip(d.drop_first(), s, r, acc.push(d[0]));
    }
}

/// Decoding the bencoding of a value gives the value back.
pub proof fn lemma_decode_encode(v: BValue)
    requires
        wf_value(v),
    ensures
        !decode_aborts(spec_encode(v)),
        spec_value(spec_encode(v), 0) == Parsed::Done(v, spec_encode(v).len() as int),
{
    let e = spec_encode(v);
    assert(e.subrange(0, e.len() as int) =~= e);
    lemma_value_roundtrip(v, e, 0);
}


/// The decimal digits of `n` are ASCII digits, with no leading zero, whose
/// value is `n` and whose last one is `n`'s last decimal digit.
proof fn lemma_decimal(n: nat)
    ensures
        nat_digits(n).len() >= 1,
        all_digits(nat_digits(n)),
        digits_value(nat_digits(n)) == n,
        nat_digits(n)[0] != 48 || n == 0,
        nat_digits(n).last() == 48 + n % 10,
{
    lemma_nat_digits(n);
}

/// How each kind of value is written: an integer as `i`, an optional `-`,
/// its decimal digits and `e`; a byte string as the decimal digits of its
/// length, `:` and its bytes; a list as `l`, its items and `e`; a
/// dictionary as `d`, its keys and values and `e`.
pub proof fn lemma_encode_layout(v: BValue)
    ensures
        ({
            let e = spec_encode(v);
            match v {
                BValue::Int(i) => {
                    let mag: nat = if i < 0 {
                        (-i) as nat
                    } else {
                        i as nat
                    };
                    let digits = if i < 0 {
                        e.subrange(2, e.len() - 1)
                    } else {
                        e.subrange(1, e.len() - 1)
                    };
                    &&& e.len() >= 3
                    &&& e[0] == 105
                    &&& e.last() == 101
                    &&& (i < 0 <==> e[1] == 45)
                    &&& digits.len() >= 1
                    &&& all_digits(digits)
                    &&& digits_value(digits) == mag
                    &&& (digits[0] != 48 || mag == 0)
                    &&& e[e.len() - 2] == 48 + mag % 10
                },
                BValue::Bytes(b) => {
                    let k = e.len() - b.len() - 1;
                    &&& e.len() >= b.len() + 2
                    &&& e.skip(k + 1) == b
                    &&& e[k] == 58
                    &&& all_digits(e.take(k))
                    &&& digits_value(e.take(k)) == b.len()
                    &&& e[k - 1] == 48 + b.len() % 10
                },
                BValue::List(_) => e.len() >= 2 && e[0] == 108 && e.last() == 101,
                BValue::Dict(_) => e.len() >= 2 && e[0] == 100 && e.last() == 101,
            }
        }),
{
    let e = spec_encode(v);
    match v {
        BValue::Int(i) => {
            let mag: nat = if i < 0 {
                (-i) as nat
            } else {
                i as nat
            };
            lemma_decimal(mag);
            let d = nat_digits(mag);
            if i < 0 {
                assert(e =~= seq![105u8, 45u8] + d + seq![101u8]);
                assert(e.subrange(2, e.len() - 1) =~= d);
            } else {
                assert(e =~= seq![105u8] + d + seq![101u8]);
                assert(e.subrange(1, e.len() - 1) =~= d);
                assert(is_digit(d[0]));
            }
            assert(e[e.len() - 2] == d.last());
        },
        BValue::Bytes(b) => {
            lemma_decimal(b.len());
            let d = nat_digits(b.len());
            assert(e =~= d + seq![58u8] + b);
            let k = e.len() - b.len() - 1;
            assert(e.take(k) =~= d);
            assert(e.skip(k + 1) =~= b);
            assert(e[k - 1] == d.last());
        },
        _ => {},
    }
}

/// Where the search for `key` from `from` finds an entry, that entry has the
/// key; where it finds none, no entry from `from` on has it.
proof fn lemma_find_key(d: Seq<(Seq<u8>, BValue)>, key: Seq<u8>, from: int)
    requires
        0 <= from,
    ensures
        find_key(d, key, from) matches Some(i) ==> from <= i < d.len() && d[i].0 == key,
        find_key(d, key, from) is None ==> forall|i: int| from <= i < d.len() ==> (#[trigger] d[i]).0 != key,
    decreases d.len() - from,
{
    if from < d.len() {
        lemma_find_key(d, key, from + 1);
    }
}

/// Setting a key in a well-formed dictionary whose keys are distinct keeps
/// it so.
proof fn lemma_dict_insert_wf(d: Seq<(Seq<u8>, BValue)>, key: Seq<u8>, value: BValue)
    requires
        distinct_keys(d),
        wf_dict(d),
        key.len() <= usize::MAX,
        wf_value(value),
    ensures
        distinct_keys(dict_insert(d, key, value)),
        wf_dict(dict_insert(d, key, value)),
{
    let r = dict_insert(d, key, value);
    lemma_wf_dict(d);
    lemma_find_key(d, key, 0);
    lemma_wf_dict(r);
    match find_key(d, key, 0) {
        Some(k) => {
            assert forall|i: int| 0 <= i < r.len() implies (#[trigger] r[i]).0.len() <= usize::MAX
                && wf_value(r[i].1) by {
                if i != k {
                    assert(r[i] == d[i]);
                }
            }
            assert forall|i: int, j: int| 0 <= i < j < r.len() implies (#[trigger] r[i]).0 != (
            #[trigger] r[j]).0 by {
                assert(d[i].0 != d[j].0);
            }
        },
        None => {
            assert forall|i: int| 0 <= i < r.len() implies (#[trigger] r[i]).0.len() <= usize::MAX
                && wf_value(r[i].1) by {
                if i < d.len() {
                    assert(r[i] == d[i]);
                }
            }
            assert forall|i: int, j: int| 0 <= i < j < r.len() implies (#[trigger] r[i]).0 != (
            #[trigger] r[j]).0 by {
                if j < d.len() {
                    assert(d[i].0 != d[j].0);
                } else {
                    assert(r[i] == d[i]);
                }
            }
        },
    }
}

/// What the decoder reads as a byte string lies in its input.
proof fn lemma_read_bytes_len(s: Seq<u8>, p: int)
    requires
        0 <= p,
    ensures
        spec_parse_bytes_checked(s, p) matches Parsed::Done(b, _) ==> b.len() <= s.len(),
{
    lemma_find_byte(s, p, 58u8);
}

/// Every value that the decoder reads from an input that fits in memory is
/// well formed: its integers fit in an `i64`, and no dictionary in it
/// repeats a key, since a later entry with a key replaces the earlier one.
pub proof fn lemma_decoded_value_wf(s: Seq<u8>, p: int)
    requires
        0 <= p,
        s.len() <= usize::MAX,
    ensures
        spec_value(s, p) matches Parsed::Done(v, _) ==> wf_value(v),
    decreases s.len() - p, 0int,
{
    if p < s.len() {
        if s[p] == 100u8 {
            lemma_dict_items_wf(s, p + 1, Seq::empty());
        } else if s[p] == 108u8 {
            lemma_list_items_wf(s, p + 1, Seq::empty());
        } else if s[p] != 105u8 {
            lemma_read_bytes_len(s, p);
        }
    }
}

proof fn lemma_list_items_wf(s: Seq<u8>, p: int, acc: Seq<BValue>)
    requires
        0 <= p,
        s.len() <= usize::MAX,
        wf_list(acc),
    ensures
        spec_list_items(s, p, acc) matches Parsed::Done(l, _) ==> wf_list(l),
    decreases s.len() - p, 1int,
{
    if p < s.len() && s[p] != 101u8 {
        lemma_decoded_value_wf(s, p);
        if let Parsed::Done(v, q) = spec_value(s, p) {
            if p < q <= s.len() {
                assert(acc.push(v).drop_last() =~= acc);
                lemma_list_items_wf(s, q, acc.push(v));
            }
        }
    }
}

proof fn lemma_dict_items_wf(s: Seq<u8>, p: int, acc: Seq<(Seq<u8>, BValue)>)
    requires
        0 <= p,
        s.len() <= usize::MAX,
        distinct_keys(acc),
        wf_dict(acc),
    ensures
        spec_dict_items(s, p, acc) matches Parsed::Done(d, _) ==> distinct_keys(d) && wf_dict(d),
    decreases s.len() - p, 1int,
{
    if p < s.len() && s[p] != 101u8 {
        lemma_read_bytes_len(s, p);
        if let Parsed::Done(k, q) = spec_parse_bytes_checked(s, p) {
            if q > p {
                lemma_decoded_value_wf(s, q);
                if let Parsed::Done(v, r) = spec_value(s, q) {
                    if q < r <= s.len() {
                        lemma_dict_insert_wf(acc, k, v);
                        lemma_dict_items_wf(s, r, dict_insert(acc, k, v));
                    }
                }
            }
        }
    }
}


/// Every value that decoding a whole input gives is well formed, and so
/// decoding its own bencoding gives it back.
pub proof fn lemma_decoded_value_roundtrip(s: Seq<u8>, r: Result<BencodeValue, Error>)
    requires
        s.len() <= usize::MAX,
        decode_matches(s, r),
    ensures
        r matches Ok(x) ==> wf_value(x@) && spec_value(spec_encode(x@), 0) == Parsed::Done(
            x@,
            spec_encode(x@).len() as int,
        ),
{
    lemma_decoded_value_wf(s, 0);
    if let Ok(x) = r {
        lemma_decode_encode(x@);
    }
}

} // verus!
