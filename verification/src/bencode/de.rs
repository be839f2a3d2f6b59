//! The bencode decoder.

use std::borrow::Cow;
use vstd::prelude::*;
use vstd::string::{StringExecFns, StringSliceAdditionalSpecFns};

use super::error::{decimal_string, error_at, Error, ErrorKind};
use super::grammar::{
    all_digits, ascii_chars, bad_input, dict_insert, digits_value, eof, find_byte, find_key,
    is_digit, lemma_bytes_checked_advances, lemma_digits_value_prefix, lemma_find_byte,
    lemma_value_advances, nat_digits, parse_i64_spec, parse_usize_spec, spec_dict_items,
    spec_list_items, spec_parse_bytes, spec_parse_bytes_checked, spec_parse_integer, spec_value,
    Parsed,
};
use super::value::{
    lemma_view_dict_index, lemma_view_dict_len, lemma_view_dict_push, lemma_view_dict_update,
    lemma_view_list_push, view_dict, view_list, view_value, BValue, BencodeValue, Bytes,
};
use crate::utf8::str_from_utf8;

verus! {

/// The outcome of a step of the decoder: a value, an error, or `Abort` where
/// the step would read past the end of the input.
pub enum Step<T> {
    Done(T),
    Fail(Error),
    Abort,
}

/// `r`, with the decoder left at `end`, is what the grammar gives in `p`.
pub open spec fn step_matches<T: View>(r: Step<T>, p: Parsed<T::V>, end: int) -> bool {
    match p {
        Parsed::Done(v, q) => r matches Step::Done(x) && x@ == v && end == q,
        Parsed::Fail(e, c) => r matches Step::Fail(x) && x == e && end == c,
        Parsed::Abort => r is Abort,
    }
}

/// `r`, with the decoder left at `end`, is what the grammar gives in `p`,
/// which is not `Abort`.
pub open spec fn result_matches<T: View>(r: Result<T, Error>, p: Parsed<T::V>, end: int) -> bool {
    match p {
        Parsed::Done(v, q) => r matches Ok(x) && x@ == v && end == q,
        Parsed::Fail(e, c) => r matches Err(x) && x == e && end == c,
        Parsed::Abort => false,
    }
}

/// `r`, with the decoder left at `end`, is the list of items that the grammar
/// gives in `p`.
pub open spec fn items_match(r: Step<Vec<BencodeValue>>, p: Parsed<Seq<BValue>>, end: int) -> bool {
    match p {
        Parsed::Done(v, q) => r matches Step::Done(x) && view_list(x@) == v && end == q,
        Parsed::Fail(e, c) => r matches Step::Fail(x) && x == e && end == c,
        Parsed::Abort => r is Abort,
    }
}

/// `r`, with the decoder left at `end`, is the dictionary that the grammar
/// gives in `p`.
pub open spec fn entries_match(
    r: Step<Vec<(Bytes, BencodeValue)>>,
    p: Parsed<Seq<(Seq<u8>, BValue)>>,
    end: int,
) -> bool {
    match p {
        Parsed::Done(v, q) => r matches Step::Done(x) && view_dict(x@) == v && end == q,
        Parsed::Fail(e, c) => r matches Step::Fail(x) && x == e && end == c,
        Parsed::Abort => r is Abort,
    }
}

/// Whether two byte strings are equal.
pub fn bytes_eq(a: &[u8], b: &[u8]) -> (r: bool)
    ensures
        r == (a@ == b@),
{
    if a.len() != b.len() {
        return false;
    }
    let mut i: usize = 0;
    while i < a.len()
        invariant
            a@.len() == b@.len(),
            i <= a@.len(),
            forall|j: int| 0 <= j < i ==> a@[j] == b@[j],
        decreases a@.len() - i,
    {
        if a[i] != b[i] {
            return false;
        }
        i = i + 1;
    }
    assert(a@ =~= b@);
    true
}

/// Sets `key` to `value` in the dictionary `d`.
pub fn dict_insert_entry<'a>(d: &mut Vec<(Bytes<'a>, BencodeValue<'a>)>, key: Bytes<'a>, value: BencodeValue<'a>)
    ensures
        view_dict(final(d)@) == dict_insert(view_dict(old(d)@), key@, value@),
{
    let ghost vd = view_dict(d@);
    let ghost kv = (key@, view_value(value));
    proof {
        lemma_view_dict_len(d@);
    }
    let mut i: usize = 0;
    let mut found = false;
    while i < d.len()
        invariant_except_break
            !found,
        invariant
            vd == view_dict(d@),
            vd.len() == d@.len(),
            i <= d@.len(),
            kv.0 == key@,
            find_key(vd, key@, 0) == find_key(vd, key@, i as int),
        ensures
            found ==> i < d@.len() && find_key(vd, key@, 0) == Some(i as int),
            !found ==> find_key(vd, key@, 0) is None,
        decreases d@.len() - i,
    {
        proof {
            lemma_view_dict_index(d@, i as int);
        }
        if bytes_eq(d[i].0.as_slice(), key.as_slice()) {
            assert(vd[i as int].0 == key@);
            assert(find_key(vd, key@, i as int) == Some(i as int));
            found = true;
            break;
        }
        i = i + 1;
    }
    if found {
        proof {
            lemma_view_dict_update(d@, i as int, (key, value));
        }
        d.set(i, (key, value));
    } else {
        proof {
            lemma_view_dict_push(d@, (key, value));
        }
        d.push((key, value));
    }
}

/// The value of the decimal digits `d` where they are all digits, there is at
/// least one, and the value is at most `limit`.
fn digits_to_u64(d: &[u8], limit: u64) -> (r: Option<u64>)
    ensures
        r is Some <==> (d@.len() > 0 && all_digits(d@) && digits_value(d@) <= limit),
        r matches Some(v) ==> v == digits_value(d@),
{
    if d.len() == 0 {
        return None;
    }
    let mut i: usize = 0;
    while i < d.len()
        invariant
            i <= d@.len(),
            forall|j: int| 0 <= j < i ==> is_digit(#[trigger] d@[j]),
        decreases d@.len() - i,
    {
        if d[i] < 48 || d[i] > 57 {
            return None;
        }
        i = i + 1;
    }
    let mut acc: u64 = 0;
    let mut k: usize = 0;
    assert(d@.take(0) =~= Seq::<u8>::empty());
    while k < d.len()
        invariant
            k <= d@.len(),
            all_digits(d@),
            acc as nat == digits_value(d@.take(k as int)),
            acc <= limit,
        decreases d@.len() - k,
    {
        let digit = (d[k] - 48) as u64;
        assert(d@.take(k + 1).drop_last() =~= d@.take(k as int));
        assert(digits_value(d@.take(k + 1)) == digits_value(d@.take(k as int)) * 10 + digit);
        if digit > limit || acc > (limit - digit) / 10 {
            proof {
                lemma_digits_value_prefix(d@, k + 1);
            }
            return None;
        }
        acc = acc * 10 + digit;
        k = k + 1;
    }
    assert(d@.take(d@.len() as int) =~= d@);
    Some(acc)
}

/// What `i64::from_str` gives on these bytes.
fn parse_i64_bytes(d: &[u8]) -> (r: Option<i64>)
    ensures
        r == parse_i64_spec(d@),
{
    if d.len() > 0 && (d[0] == 43 || d[0] == 45) {
        let rest = &d[1..d.len()];
        assert(rest@ =~= d@.drop_first());
        if rest.len() == 0 {
            return None;
        }
        if d[0] == 45 {
            match digits_to_u64(rest, 0x8000_0000_0000_0000u64) {
                Some(m) => Some((0i128 - m as i128) as i64),
                None => None,
            }
        } else {
            match digits_to_u64(rest, 0x7fff_ffff_ffff_ffffu64) {
                Some(m) => Some(m as i64),
                None => None,
            }
        }
    } else {
        match digits_to_u64(d, 0x7fff_ffff_ffff_ffffu64) {
            Some(m) => Some(m as i64),
            None => None,
        }
    }
}

/// What `usize::from_str` gives on these bytes.
fn parse_usize_bytes(d: &[u8]) -> (r: Option<usize>)
    ensures
        r == parse_usize_spec(d@),
{
    let digits = if d.len() > 0 && d[0] == 43 {
        &d[1..d.len()]
    } else {
        d
    };
    assert(d@.len() > 0 && d@[0] == 43 ==> digits@ =~= d@.drop_first());
    match digits_to_u64(digits, usize::MAX as u64) {
        Some(m) => Some(m as usize),
        None => None,
    }
}

/// A cursor over bencoded input.
pub struct BencodeDeserializer<'de> {
    input: &'de [u8],
    position: usize,
}

impl<'de> BencodeDeserializer<'de> {
    /// The whole input.
    pub closed spec fn data(&self) -> Seq<u8> {
        self.input@
    }

    /// The offset of the next byte to read.
    pub closed spec fn pos(&self) -> int {
        self.position as int
    }

    pub closed spec fn wf(&self) -> bool {
        &&& self.position <= self.input@.len()
        &&& self.input@.len() <= usize::MAX
    }

    pub fn from_str(input: &'de str) -> (r: Self)
        ensures
            r.data() == input.spec_bytes(),
            r.pos() == 0,
            r.wf(),
    {
        let input = input.as_bytes();
        let _ = input.len();
        BencodeDeserializer { input, position: 0 }
    }

    pub fn from_bytes(input: &'de [u8]) -> (r: Self)
        ensures
            r.data() == input@,
            r.pos() == 0,
            r.wf(),
    {
        let _ = input.len();
        BencodeDeserializer { input, position: 0 }
    }

    /// The error of `kind` at the current offset.
    pub fn error(&self, kind: ErrorKind) -> (r: Error)
        ensures
            r == error_at(kind, self.pos()),
    {
        let err: Error = kind.into();
        err.set_position(self.position)
    }

    pub(crate) fn move_cursor(&mut self, by: usize)
        requires
            old(self).wf(),
            old(self).pos() + by <= old(self).data().len(),
        ensures
            final(self).wf(),
            final(self).data() == old(self).data(),
            final(self).pos() == old(self).pos() + by,
    {
        self.position = self.position + by;
    }

    /// The next byte, if any is left.
    pub fn peek(&self) -> (r: Option<u8>)
        requires
            self.wf(),
        ensures
            r is Some <==> self.pos() < self.data().len(),
            r matches Some(b) ==> b == self.data()[self.pos()],
    {
        if self.position < self.input.len() {
            Some(self.input[self.position])
        } else {
            None
        }
    }

    /// The offset of the first `b` at or after the cursor.
    fn find_from_cursor(&self, b: u8) -> (r: Option<usize>)
        requires
            self.wf(),
        ensures
            match find_byte(self.data(), self.pos(), b) {
                Some(q) => r matches Some(x) && x as int == q,
                None => r.is_none(),
            },
            r matches Some(q) ==> self.pos() <= q < self.data().len(),
    {
        proof {
            lemma_find_byte(self.data(), self.pos(), b);
        }
        let mut i = self.position;
        while i < self.input.len()
            invariant
                self.wf(),
                self.pos() <= i <= self.data().len(),
                find_byte(self.data(), self.pos(), b) == find_byte(self.data(), i as int, b),
            decreases self.data().len() - i,
        {
            if self.input[i] == b {
                return Some(i);
            }
            i = i + 1;
        }
        None
    }

    /// Reads the digits of an integer and its closing `e`.
    fn parse_integer(&mut self) -> (r: Result<i64, Error>)
        requires
            old(self).wf(),
        ensures
            final(self).wf(),
            final(self).data() == old(self).data(),
            result_matches(r, spec_parse_integer(old(self).data(), old(self).pos()), final(self).pos()),
    {
        match self.find_from_cursor(101) {
            Some(pos) => {
                let integer = &self.input[self.position..pos];
                assert(integer@ =~= self.data().subrange(self.pos(), pos as int));
                if str_from_utf8(integer).is_none() {
                    return Err(self.error(ErrorKind::BadInputData("Bad integer")));
                }
                match parse_i64_bytes(integer) {
                    None => Err(
                        self.error(
                            ErrorKind::BadInputData("Unnable to parse integer from the provided data"),
                        ),
                    ),
                    Some(parsed_integer) => {
                        let by = pos - self.position + 1;
                        self.move_cursor(by);
                        Ok(parsed_integer)
                    },
                }
            },
            None => Err(self.error(ErrorKind::BadInputData("expected closing delimiter for integer"))),
        }
    }

    /// Reads a byte string `<length>:<bytes>`; `Abort` where the length runs
    /// past the end of the input.
    pub fn step_parse_bytes(&mut self) -> (r: Step<&'de [u8]>)
        requires
            old(self).wf(),
        ensures
            final(self).wf(),
            final(self).data() == old(self).data(),
            step_matches(r, spec_parse_bytes(old(self).data(), old(self).pos()), final(self).pos()),
    {
        match self.find_from_cursor(58) {
            Some(delim_pos) => {
                let raw_bytes_len = &self.input[self.position..delim_pos];
                assert(raw_bytes_len@ =~= self.data().subrange(self.pos(), delim_pos as int));
                if str_from_utf8(raw_bytes_len).is_none() {
                    return Step::Fail(
                        self.error(ErrorKind::BadInputData("bytes length is not valid utf8")),
                    );
                }
                match parse_usize_bytes(raw_bytes_len) {
                    None => Step::Fail(self.error(ErrorKind::BadInputData("expected valid bytes length"))),
                    Some(bytes_len) => {
                        let by = delim_pos - self.position + 1;
                        self.move_cursor(by);
                        if bytes_len > self.input.len() - self.position {
                            return Step::Abort;
                        }
                        let input: &'de [u8] = self.input;
                        let raw_bytes: &'de [u8] = &input[self.position..self.position + bytes_len];
                        self.move_cursor(bytes_len);
                        Step::Done(raw_bytes)
                    },
                }
            },
            None => Step::Fail(self.error(ErrorKind::BadInputData("expected bytes delimiter ':'"))),
        }
    }

    /// Reads a byte string `<length>:<bytes>`. Its length must not run past the
    /// end of the input.
    pub fn parse_bytes(&mut self) -> (r: Result<&'de [u8], Error>)
        requires
            old(self).wf(),
            !(spec_parse_bytes(old(self).data(), old(self).pos()) is Abort),
        ensures
            final(self).wf(),
            final(self).data() == old(self).data(),
            result_matches(r, spec_parse_bytes(old(self).data(), old(self).pos()), final(self).pos()),
    {
        match self.step_parse_bytes() {
            Step::Done(b) => Ok(b),
            Step::Fail(e) => Err(e),
            Step::Abort => Err(self.error(ErrorKind::BadInputData("expected valid bytes length"))),
        }
    }

    /// Reads a byte string, which must start with a digit; `Abort` where its
    /// length runs past the end of the input.
    pub fn step_parse_bytes_checked(&mut self) -> (r: Step<&'de [u8]>)
        requires
            old(self).wf(),
        ensures
            final(self).wf(),
            final(self).data() == old(self).data(),
            step_matches(
                r,
                spec_parse_bytes_checked(old(self).data(), old(self).pos()),
                final(self).pos(),
            ),
    {
        match self.peek() {
            None => Step::Fail(self.error(ErrorKind::UnexpectedEof("bytes"))),
            Some(b) => if 48 <= b && b <= 57 {
                self.step_parse_bytes()
            } else {
                Step::Fail(self.error(ErrorKind::BadInputData("expected bytes length")))
            },
        }
    }

    /// Reads a byte string, which must start with a digit. Its length must not
    /// run past the end of the input.
    pub fn parse_bytes_checked(&mut self) -> (r: Result<&'de [u8], Error>)
        requires
            old(self).wf(),
            !(spec_parse_bytes_checked(old(self).data(), old(self).pos()) is Abort),
        ensures
            final(self).wf(),
            final(self).data() == old(self).data(),
            result_matches(
                r,
                spec_parse_bytes_checked(old(self).data(), old(self).pos()),
                final(self).pos(),
            ),
    {
        match self.step_parse_bytes_checked() {
            Step::Done(b) => Ok(b),
            Step::Fail(e) => Err(e),
            Step::Abort => Err(self.error(ErrorKind::BadInputData("expected valid bytes length"))),
        }
    }

    /// After the items of a list or a dictionary: checks the `e` that must
    /// close it. `value` is what reading the items gave.
    pub fn finish_container<T>(
        &mut self,
        value: Step<T>,
        eof_msg: &'static str,
        bad_msg: &'static str,
    ) -> (r: Step<T>)
        requires
            old(self).wf(),
        ensures
            final(self).wf(),
            final(self).data() == old(self).data(),
            value is Abort ==> r is Abort && final(self).pos() == old(self).pos(),
            !(value is Abort) ==> {
                if old(self).pos() >= old(self).data().len() {
                    r == Step::<T>::Fail(eof(eof_msg, old(self).pos())) && final(self).pos()
                        == old(self).pos()
                } else if old(self).data()[old(self).pos()] == 101u8 {
                    r == value && final(self).pos() == old(self).pos() + 1
                } else {
                    r == Step::<T>::Fail(bad_input(bad_msg, old(self).pos())) && final(self).pos()
                        == old(self).pos()
                }
            },
    {
        if let Step::Abort = value {
            return Step::Abort;
        }
        match self.peek() {
            None => Step::Fail(self.error(ErrorKind::UnexpectedEof(eof_msg))),
            Some(b) => if b == 101 {
                self.move_cursor(1);
                value
            } else {
                Step::Fail(self.error(ErrorKind::BadInputData(bad_msg)))
            },
        }
    }

    /// Reads any value; `Abort` where a byte string's length runs past the end
    /// of the input.
    pub fn step_value(&mut self) -> (r: Step<BencodeValue<'de>>)
        requires
            old(self).wf(),
        ensures
            final(self).wf(),
            final(self).data() == old(self).data(),
            step_matches(r, spec_value(old(self).data(), old(self).pos()), final(self).pos()),
        decreases old(self).data().len() - old(self).pos(), 0int,
    {
        let ghost s = self.data();
        let ghost p = self.pos();
        match self.peek() {
            None => Step::Fail(self.error(ErrorKind::UnexpectedEof("any bencode value"))),
            Some(b) => {
                if b == 100 {
                    self.move_cursor(1);
                    let entries = self.step_dict_items();
                    let ghost inner = spec_dict_items(s, p + 1, Seq::empty());
                    let finished = self.finish_container(
                        entries,
                        "bencode dictionary end",
                        "expected bencode dictionary end",
                    );
                    match finished {
                        Step::Done(d) => Step::Done(BencodeValue::Dict(d)),
                        Step::Fail(e) => Step::Fail(e),
                        Step::Abort => Step::Abort,
                    }
                } else if b == 108 {
                    self.move_cursor(1);
                    let items = self.step_list_items();
                    let finished = self.finish_container(
                        items,
                        "bencode list end",
                        "expected bencode list end",
                    );
                    match finished {
                        Step::Done(l) => Step::Done(BencodeValue::List(l)),
                        Step::Fail(e) => Step::Fail(e),
                        Step::Abort => Step::Abort,
                    }
                } else if b == 105 {
                    self.move_cursor(1);
                    match self.parse_integer() {
                        Ok(v) => Step::Done(BencodeValue::Int(v)),
                        Err(e) => Step::Fail(e),
                    }
                } else {
                    match self.step_parse_bytes_checked() {
                        Step::Done(bytes) => Step::Done(BencodeValue::Bytes(Bytes(Cow::Borrowed(bytes)))),
                        Step::Fail(e) => Step::Fail(e),
                        Step::Abort => Step::Abort,
                    }
                }
            },
        }
    }

    /// Reads the items of a list up to, not including, its closing `e`.
    pub fn step_list_items(&mut self) -> (r: Step<Vec<BencodeValue<'de>>>)
        requires
            old(self).wf(),
        ensures
            final(self).wf(),
            final(self).data() == old(self).data(),
            items_match(
                r,
                spec_list_items(old(self).data(), old(self).pos(), Seq::empty()),
                final(self).pos(),
            ),
        decreases old(self).data().len() - old(self).pos(), 1int,
    {
        let ghost s = self.data();
        let ghost p0 = self.pos();
        let mut items: Vec<BencodeValue<'de>> = Vec::new();
        loop
            invariant
                self.wf(),
                self.data() == s,
                s == old(self).data(),
                p0 == old(self).pos(),
                p0 <= self.pos() <= s.len(),
                spec_list_items(s, p0, Seq::empty()) == spec_list_items(
                    s,
                    self.pos(),
                    view_list(items@),
                ),
            decreases s.len() - self.pos(),
        {
            let ghost p = self.pos();
            let ghost acc = view_list(items@);
            match self.peek() {
                None => {
                    return Step::Fail(self.error(ErrorKind::UnexpectedEof("next seq element or end")));
                },
                Some(b) => {
                    if b == 101 {
                        return Step::Done(items);
                    }
                },
            }
            match self.step_value() {
                Step::Done(v) => {
                    proof {
                        lemma_view_list_push(items@, v);
                        lemma_value_advances(s, p);
                    }
                    items.push(v);
                },
                Step::Fail(e) => {
                    return Step::Fail(e);
                },
                Step::Abort => {
                    return Step::Abort;
                },
            }
        }
    }

    /// Reads the entries of a dictionary up to, not including, its closing `e`.
    pub fn step_dict_items(&mut self) -> (r: Step<Vec<(Bytes<'de>, BencodeValue<'de>)>>)
        requires
            old(self).wf(),
        ensures
            final(self).wf(),
            final(self).data() == old(self).data(),
            entries_match(
                r,
                spec_dict_items(old(self).data(), old(self).pos(), Seq::empty()),
                final(self).pos(),
            ),
        decreases old(self).data().len() - old(self).pos(), 1int,
    {
        let ghost s = self.data();
        let ghost p0 = self.pos();
        let mut entries: Vec<(Bytes<'de>, BencodeValue<'de>)> = Vec::new();
        loop
            invariant
                self.wf(),
                self.data() == s,
                s == old(self).data(),
                p0 == old(self).pos(),
                p0 <= self.pos() <= s.len(),
                spec_dict_items(s, p0, Seq::empty()) == spec_dict_items(
                    s,
                    self.pos(),
                    view_dict(entries@),
                ),
            decreases s.len() - self.pos(),
        {
            let ghost p = self.pos();
            match self.peek() {
                None => {
                    return Step::Fail(self.error(ErrorKind::UnexpectedEof("next dict key or end")));
                },
                Some(b) => {
                    if b == 101 {
                        return Step::Done(entries);
                    }
                },
            }
            let key = match self.step_parse_bytes_checked() {
                Step::Done(k) => k,
                Step::Fail(e) => {
                    return Step::Fail(e);
                },
                Step::Abort => {
                    return Step::Abort;
                },
            };
            let ghost q = self.pos();
            proof {
                lemma_bytes_checked_advances(s, p);
            }
            match self.step_value() {
                Step::Done(v) => {
                    proof {
                        lemma_value_advances(s, q);
                    }
                    dict_insert_entry(&mut entries, Bytes(Cow::Borrowed(key)), v);
                },
                Step::Fail(e) => {
                    return Step::Fail(e);
                },
                Step::Abort => {
                    return Step::Abort;
                },
            }
        }
    }
}

/// The message of the error for `n` bytes left over after the value.
pub open spec fn trailing_message(n: nat) -> Seq<char> {
    "Trailing bytes after deserialization: "@ + ascii_chars(nat_digits(n))
}

/// Decoding the input `s` whole could read past its end.
pub open spec fn decode_aborts(s: Seq<u8>) -> bool {
    spec_value(s, 0) is Abort
}

/// `r` is what decoding the input `s` as one value gives: the value where it
/// takes up the whole input; an error naming the number of bytes left over
/// where it does not; the decoder's error where there is no value.
pub open spec fn decode_matches(s: Seq<u8>, r: Result<BencodeValue, Error>) -> bool {
    match spec_value(s, 0) {
        Parsed::Done(v, q) => if q == s.len() {
            r matches Ok(x) && x@ == v
        } else {
            r matches Err(e) && e.position is None && (e.kind matches ErrorKind::Custom(m) && m@
                == trailing_message((s.len() - q) as nat))
        },
        Parsed::Fail(e, _) => r == Err::<BencodeValue, Error>(e),
        Parsed::Abort => false,
    }
}

/// The message for `n` bytes left over after the value.
fn trailing_bytes_message(n: usize) -> (r: String)
    ensures
        r@ == trailing_message(n as nat),
{
    let mut msg = <String as StringExecFns>::from_str("Trailing bytes after deserialization: ");
    let digits = decimal_string(n as u64);
    msg.append(digits.as_str());
    msg
}

/// Decodes the whole of `input` as one value; `None` where a byte string's
/// length runs past the end of the input.
pub fn checked_from_bytes<'de>(input: &'de [u8]) -> (r: Option<Result<BencodeValue<'de>, Error>>)
    ensures
        r is None <==> decode_aborts(input@),
        r matches Some(x) ==> decode_matches(input@, x),
{
    let mut deserializer = BencodeDeserializer::from_bytes(input);
    match deserializer.step_value() {
        Step::Done(v) => {
            if deserializer.position < input.len() {
                let left = input.len() - deserializer.position;
                Some(Err(Error::custom(trailing_bytes_message(left))))
            } else {
                Some(Ok(v))
            }
        },
        Step::Fail(e) => Some(Err(e)),
        Step::Abort => None,
    }
}

/// Decodes the whole of `input` as one value. No byte string's length may run
/// past the end of the input.
pub fn from_bytes<'de>(input: &'de [u8]) -> (r: Result<BencodeValue<'de>, Error>)
    requires
        !decode_aborts(input@),
    ensures
        decode_matches(input@, r),
{
    match checked_from_bytes(input) {
        Some(r) => r,
        None => Err(ErrorKind::BadInputData("expected valid bytes length").into()),
    }
}

/// Decodes the whole of `input` as one value. No byte string's length may run
/// past the end of the input.
pub fn from_str<'de>(input: &'de str) -> (r: Result<BencodeValue<'de>, Error>)
    requires
        !decode_aborts(input.spec_bytes()),
    ensures
        decode_matches(input.spec_bytes(), r),
{
    from_bytes(input.as_bytes())
}

} // verus!
