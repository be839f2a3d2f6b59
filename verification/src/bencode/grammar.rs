//! The bencode grammar as the decoder reads it and as the encoder writes it.

use vstd::prelude::*;
use vstd::utf8::{decode_utf8, valid_utf8};

use super::error::{error_at, Error, ErrorKind};
use super::value::BValue;

verus! {

pub open spec fn is_digit(b: u8) -> bool {
    48 <= b <= 57
}

pub open spec fn all_digits(d: Seq<u8>) -> bool {
    forall|i: int| 0 <= i < d.len() ==> is_digit(#[trigger] d[i])
}

/// The number that a string of ASCII decimal digits denotes.
pub open spec fn digits_value(d: Seq<u8>) -> nat
    decreases d.len(),
{
    if d.len() == 0 {
        0
    } else {
        digits_value(d.drop_last()) * 10 + (d.last() - 48) as nat
    }
}

/// The decimal digits of `n`, most significant first, with no leading zero.
pub open spec fn nat_digits(n: nat) -> Seq<u8>
    decreases n,
{
    if n < 10 {
        seq![(48 + n) as u8]
    } else {
        nat_digits(n / 10).push((48 + n % 10) as u8)
    }
}

/// An integer as `Display` writes it: a `-` for a negative one, then its digits.
pub open spec fn int_decimal(i: int) -> Seq<u8> {
    if i < 0 {
        seq![45u8] + nat_digits((-i) as nat)
    } else {
        nat_digits(i as nat)
    }
}

/// What `i64::from_str` gives on these bytes: an optional sign, then at
/// least one decimal digit, of a value in range.
pub open spec fn parse_i64_spec(d: Seq<u8>) -> Option<i64> {
    if d.len() > 0 && (d[0] == 43 || d[0] == 45) {
        let rest = d.drop_first();
        if rest.len() > 0 && all_digits(rest) {
            let m = digits_value(rest);
            if d[0] == 45 {
                if m <= 0x8000_0000_0000_0000 {
                    Some((-m) as i64)
                } else {
                    None
                }
            } else if m <= i64::MAX {
                Some(m as i64)
            } else {
                None
            }
        } else {
            None
        }
    } else if d.len() > 0 && all_digits(d) && digits_value(d) <= i64::MAX {
        Some(digits_value(d) as i64)
    } else {
        None
    }
}

/// What `usize::from_str` gives on these bytes: an optional `+`, then at
/// least one decimal digit, of a value in range.
pub open spec fn parse_usize_spec(d: Seq<u8>) -> Option<usize> {
    let digits = if d.len() > 0 && d[0] == 43 { d.drop_first() } else { d };
    if digits.len() > 0 && all_digits(digits) && digits_value(digits) <= usize::MAX {
        Some(digits_value(digits) as usize)
    } else {
        None
    }
}

pub proof fn lemma_nat_digits(n: nat)
    ensures
        nat_digits(n).len() >= 1,
        all_digits(nat_digits(n)),
        digits_value(nat_digits(n)) == n,
        nat_digits(n)[0] != 48 || n == 0,
    decreases n,
{
    if n >= 10 {
        lemma_nat_digits(n / 10);
        let d = nat_digits(n);
        assert(d.drop_last() =~= nat_digits(n / 10));
        assert(d.last() == (48 + n % 10) as u8);
        assert((d.last() - 48) as nat == n % 10);
        assert(digits_value(d) == digits_value(d.drop_last()) * 10 + (d.last() - 48) as nat);
        assert(n == (n / 10) * 10 + n % 10);
    } else {
        let d = nat_digits(n);
        assert(d.drop_last() =~= Seq::<u8>::empty());
        assert(digits_value(d.drop_last()) == 0);
        assert((d.last() - 48) as nat == n);
    }
}

/// Appending a digit never makes the value smaller.
pub proof fn lemma_digits_value_prefix(d: Seq<u8>, k: int)
    requires
        0 <= k <= d.len(),
        all_digits(d),
    ensures
        digits_value(d.take(k)) <= digits_value(d),
    decreases d.len() - k,
{
    if k < d.len() {
        lemma_digits_value_prefix(d, k + 1);
        assert(d.take(k + 1).drop_last() =~= d.take(k));
        assert(is_digit(d[k]));
    } else {
        assert(d.take(k) =~= d);
    }
}


/// The first offset at or after `from` that holds the byte `b`.
pub open spec fn find_byte(s: Seq<u8>, from: int, b: u8) -> Option<int>
    decreases s.len() - from,
{
    if from < 0 || from >= s.len() {
        None
    } else if s[from] == b {
        Some(from)
    } else {
        find_byte(s, from + 1, b)
    }
}

pub proof fn lemma_find_byte(s: Seq<u8>, from: int, b: u8)
    requires
        0 <= from,
    ensures
        find_byte(s, from, b) matches Some(q) ==> from <= q < s.len() && s[q] == b && forall|
            i: int,
        | from <= i < q ==> s[i] != b,
        find_byte(s, from, b) is None ==> forall|i: int| from <= i < s.len() ==> s[i] != b,
    decreases s.len() - from,
{
    if from < s.len() && s[from] != b {
        lemma_find_byte(s, from + 1, b);
    }
}

/// The outcome of reading something at an offset of the input: the thing and
/// the offset just past it, an error and the offset at which the reading
/// stopped, or `Abort` where the reading would index past the end of the input.
pub enum Parsed<T> {
    Done(T, int),
    Fail(Error, int),
    Abort,
}

pub open spec fn bad_input(msg: &'static str, at: int) -> Error {
    error_at(ErrorKind::BadInputData(msg), at)
}

pub open spec fn eof(msg: &'static str, at: int) -> Error {
    error_at(ErrorKind::UnexpectedEof(msg), at)
}

/// Reads the digits of an integer at `p` (just past its `i`) up to its `e`.
pub open spec fn spec_parse_integer(s: Seq<u8>, p: int) -> Parsed<i64> {
    match find_byte(s, p, 101u8) {
        None => Parsed::Fail(bad_input("expected closing delimiter for integer", p), p),
        Some(q) => {
            let digits = s.subrange(p, q);
            if !valid_utf8(digits) {
                Parsed::Fail(bad_input("Bad integer", p), p)
            } else {
                match parse_i64_spec(digits) {
                    None => Parsed::Fail(
                        bad_input("Unnable to parse integer from the provided data", p),
                        p,
                    ),
                    Some(v) => Parsed::Done(v, q + 1),
                }
            }
        },
    }
}

/// Reads a byte string `<length>:<bytes>` at `p`.
pub open spec fn spec_parse_bytes(s: Seq<u8>, p: int) -> Parsed<Seq<u8>> {
    match find_byte(s, p, 58u8) {
        None => Parsed::Fail(bad_input("expected bytes delimiter ':'", p), p),
        Some(q) => {
            let digits = s.subrange(p, q);
            if !valid_utf8(digits) {
                Parsed::Fail(bad_input("bytes length is not valid utf8", p), p)
            } else {
                match parse_usize_spec(digits) {
                    None => Parsed::Fail(bad_input("expected valid bytes length", p), p),
                    Some(n) => if q + 1 + n > s.len() {
                        Parsed::Abort
                    } else {
                        Parsed::Done(s.subrange(q + 1, q + 1 + n), q + 1 + n)
                    },
                }
            }
        },
    }
}

/// Reads a byte string at `p`, which must start with a digit.
pub open spec fn spec_parse_bytes_checked(s: Seq<u8>, p: int) -> Parsed<Seq<u8>> {
    if p < 0 || p >= s.len() {
        Parsed::Fail(eof("bytes", p), p)
    } else if is_digit(s[p]) {
        spec_parse_bytes(s, p)
    } else {
        Parsed::Fail(bad_input("expected bytes length", p), p)
    }
}

/// After the items of a list or a dictionary: the `e` that must close it.
pub open spec fn spec_finish<T>(
    s: Seq<u8>,
    r: Parsed<T>,
    eof_msg: &'static str,
    bad_msg: &'static str,
) -> Parsed<T> {
    match r {
        Parsed::Abort => Parsed::Abort,
        Parsed::Done(v, c) => if c < 0 || c >= s.len() {
            Parsed::Fail(eof(eof_msg, c), c)
        } else if s[c] == 101u8 {
            Parsed::Done(v, c + 1)
        } else {
            Parsed::Fail(bad_input(bad_msg, c), c)
        },
        Parsed::Fail(e, c) => if c < 0 || c >= s.len() {
            Parsed::Fail(eof(eof_msg, c), c)
        } else if s[c] == 101u8 {
            Parsed::Fail(e, c + 1)
        } else {
            Parsed::Fail(bad_input(bad_msg, c), c)
        },
    }
}

/// The index of the first entry of `d` whose key is `key`, looking from `from` on.
pub open spec fn find_key(d: Seq<(Seq<u8>, BValue)>, key: Seq<u8>, from: int) -> Option<int>
    decreases d.len() - from,
{
    if from < 0 || from >= d.len() {
        None
    } else if d[from].0 == key {
        Some(from)
    } else {
        find_key(d, key, from + 1)
    }
}

/// A dictionary after `key` is set to `value`: the entry of that key is
/// given the new value where there is one, else the entry is added at the end.
pub open spec fn dict_insert(d: Seq<(Seq<u8>, BValue)>, key: Seq<u8>, value: BValue) -> Seq<
    (Seq<u8>, BValue),
> {
    match find_key(d, key, 0) {
        Some(i) => d.update(i, (key, value)),
        None => d.push((key, value)),
    }
}

/// Reads any value at `p`.
pub open spec fn spec_value(s: Seq<u8>, p: int) -> Parsed<BValue>
    decreases s.len() - p, 0int,
{
    if p < 0 || p >= s.len() {
        Parsed::Fail(eof("any bencode value", p), p)
    } else if s[p] == 100u8 {
        match spec_finish(
            s,
            spec_dict_items(s, p + 1, Seq::empty()),
            "bencode dictionary end",
            "expected bencode dictionary end",
        ) {
            Parsed::Done(d, q) => Parsed::Done(BValue::Dict(d), q),
            Parsed::Fail(e, c) => Parsed::Fail(e, c),
            Parsed::Abort => Parsed::Abort,
        }
    } else if s[p] == 108u8 {
        match spec_finish(
            s,
            spec_list_items(s, p + 1, Seq::empty()),
            "bencode list end",
            "expected bencode list end",
        ) {
            Parsed::Done(l, q) => Parsed::Done(BValue::List(l), q),
            Parsed::Fail(e, c) => Parsed::Fail(e, c),
            Parsed::Abort => Parsed::Abort,
        }
    } else if s[p] == 105u8 {
        match spec_parse_integer(s, p + 1) {
            Parsed::Done(v, q) => Parsed::Done(BValue::Int(v as int), q),
            Parsed::Fail(e, c) => Parsed::Fail(e, c),
            Parsed::Abort => Parsed::Abort,
        }
    } else {
        match spec_parse_bytes_checked(s, p) {
            Parsed::Done(b, q) => Parsed::Done(BValue::Bytes(b), q),
            Parsed::Fail(e, c) => Parsed::Fail(e, c),
            Parsed::Abort => Parsed::Abort,
        }
    }
}

/// Reads the items of a list from `p` on, after the items `acc` already read.
pub open spec fn spec_list_items(s: Seq<u8>, p: int, acc: Seq<BValue>) -> Parsed<Seq<BValue>>
    decreases s.len() - p, 1int,
{
    if p < 0 || p >= s.len() {
        Parsed::Fail(eof("next seq element or end", p), p)
    } else if s[p] == 101u8 {
        Parsed::Done(acc, p)
    } else {
        match spec_value(s, p) {
            Parsed::Done(v, q) => if q <= p || q > s.len() {
                Parsed::Abort
            } else {
                spec_list_items(s, q, acc.push(v))
            },
            Parsed::Fail(e, c) => Parsed::Fail(e, c),
            Parsed::Abort => Parsed::Abort,
        }
    }
}

/// Reads the entries of a dictionary from `p` on, into the entries `acc`
/// already read.
pub open spec fn spec_dict_items(s: Seq<u8>, p: int, acc: Seq<(Seq<u8>, BValue)>) -> Parsed<
    Seq<(Seq<u8>, BValue)>,
>
    decreases s.len() - p, 1int,
{
    if p < 0 || p >= s.len() {
        Parsed::Fail(eof("next dict key or end", p), p)
    } else if s[p] == 101u8 {
        Parsed::Done(acc, p)
    } else {
        match spec_parse_bytes_checked(s, p) {
            Parsed::Done(k, q) => if q <= p {
                Parsed::Abort
            } else {
                match spec_value(s, q) {
                    Parsed::Done(v, r) => if r <= q || r > s.len() {
                        Parsed::Abort
                    } else {
                        spec_dict_items(s, r, dict_insert(acc, k, v))
                    },
                    Parsed::Fail(e, c) => Parsed::Fail(e, c),
                    Parsed::Abort => Parsed::Abort,
                }
            },
            Parsed::Fail(e, c) => Parsed::Fail(e, c),
            Parsed::Abort => Parsed::Abort,
        }
    }
}

pub proof fn lemma_bytes_checked_advances(s: Seq<u8>, p: int)
    requires
        0 <= p,
    ensures
        spec_parse_bytes_checked(s, p) matches Parsed::Done(_, q) ==> p < q <= s.len(),
        spec_parse_bytes_checked(s, p) matches Parsed::Fail(_, c) ==> c == p,
{
    lemma_find_byte(s, p, 58u8);
}

pub proof fn lemma_list_items_bounds(s: Seq<u8>, p: int, acc: Seq<BValue>)
    requires
        0 <= p,
    ensures
        spec_list_items(s, p, acc) matches Parsed::Done(_, c) ==> p <= c < s.len() && s[c] == 101u8,
    decreases s.len() - p,
{
    if 0 <= p < s.len() && s[p] != 101u8 {
        match spec_value(s, p) {
            Parsed::Done(v, q) => if q > p && q <= s.len() {
                lemma_list_items_bounds(s, q, acc.push(v));
            },
            _ => {},
        }
    }
}

pub proof fn lemma_dict_items_bounds(s: Seq<u8>, p: int, acc: Seq<(Seq<u8>, BValue)>)
    requires
        0 <= p,
    ensures
        spec_dict_items(s, p, acc) matches Parsed::Done(_, c) ==> p <= c < s.len() && s[c] == 101u8,
    decreases s.len() - p,
{
    if 0 <= p < s.len() && s[p] != 101u8 {
        match spec_parse_bytes_checked(s, p) {
            Parsed::Done(k, q) => if q > p {
                match spec_value(s, q) {
                    Parsed::Done(v, r) => if r > q && r <= s.len() {
                        lemma_dict_items_bounds(s, r, dict_insert(acc, k, v));
                    },
                    _ => {},
                }
            },
            _ => {},
        }
    }
}

/// A value that is read ends past where it starts, within the input.
pub proof fn lemma_value_advances(s: Seq<u8>, p: int)
    requires
        0 <= p,
    ensures
        spec_value(s, p) matches Parsed::Done(_, q) ==> p < q <= s.len(),
{
    lemma_find_byte(s, p + 1, 101u8);
    lemma_find_byte(s, p, 58u8);
    lemma_list_items_bounds(s, p + 1, Seq::empty());
    lemma_dict_items_bounds(s, p + 1, Seq::empty());
}

/// Appends the decimal digits of `n` to `out`.
pub fn write_nat_digits(out: &mut Vec<u8>, n: u64)
    ensures
        final(out)@ == old(out)@ + nat_digits(n as nat),
    decreases n,
{
    if n >= 10 {
        write_nat_digits(out, n / 10);
    }
    let ghost before = out@;
    out.push(48 + (n % 10) as u8);
    proof {
        if n >= 10 {
            assert(nat_digits(n as nat) == nat_digits((n / 10) as nat).push((48 + n % 10) as u8));
        }
        assert(out@ =~= old(out)@ + nat_digits(n as nat));
    }
}

/// Appends `i` as `Display` writes it to `out`.
pub fn write_int_decimal(out: &mut Vec<u8>, i: i64)
    ensures
        final(out)@ == old(out)@ + int_decimal(i as int),
{
    if i < 0 {
        out.push(45);
        let magnitude = (0i128 - i as i128) as u64;
        write_nat_digits(out, magnitude);
        assert(out@ =~= old(out)@ + int_decimal(i as int));
    } else {
        write_nat_digits(out, i as u64);
    }
}

/// Bytes read as characters one for one.
pub open spec fn ascii_chars(b: Seq<u8>) -> Seq<char> {
    b.map_values(|x: u8| x as char)
}

/// Bytes below 128 decode as UTF-8 to the characters of the same values.
pub proof fn lemma_ascii_decode(s: Seq<u8>)
    requires
        forall|i: int| 0 <= i < s.len() ==> #[trigger] s[i] < 128,
    ensures
        valid_utf8(s),
        decode_utf8(s) == ascii_chars(s),
    decreases s.len(),
{
    crate::utf8::lemma_ascii_valid_utf8(s);
    if s.len() > 0 {
        let b = s[0];
        assert((b & 0x7f) as u32 == b as u32) by (bit_vector)
            requires
                b < 128,
        ;
        let rest = s.subrange(1, s.len() as int);
        assert forall|i: int| 0 <= i < rest.len() implies #[trigger] rest[i] < 128 by {
            assert(rest[i] == s[i + 1]);
        }
        lemma_ascii_decode(rest);
        assert(decode_utf8(s) =~= ascii_chars(s));
    } else {
        assert(decode_utf8(s) =~= ascii_chars(s));
    }
}

/// The digits of a number are bytes below 128.
pub proof fn lemma_nat_digits_ascii(n: nat)
    ensures
        forall|i: int| 0 <= i < nat_digits(n).len() ==> #[trigger] nat_digits(n)[i] < 128,
{
    lemma_nat_digits(n);
}

} // verus!
