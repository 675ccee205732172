use vstd::prelude::*;

use crate::dict::{dict_insert, dict_insert_entry};
use crate::error::{Error, ErrorModel};
use crate::number::{is_digit, lemma_parse_i64_unsigned, parse_i64, parse_i64_bytes};
use crate::value::{entries_model, items_model, Bencode, Value};

verus! {

/// The first position at or after `from` that holds `b`.
pub open spec fn first_index_of(s: Seq<u8>, from: int, b: u8) -> Option<int>
    decreases s.len() - from,
{
    if from < 0 || from >= s.len() {
        None
    } else if s[from] == b {
        Some(from)
    } else {
        first_index_of(s, from + 1, b)
    }
}

/// A byte string at `p`: its length in decimal up to the first `:`, then
/// that many bytes.
pub open spec fn parse_string(s: Seq<u8>, p: int) -> Result<(Bencode, int), ErrorModel> {
    match first_index_of(s, p, 58u8) {
        None => Err(ErrorModel::BencodeStringNoColon),
        Some(c) => {
            let text = s.subrange(p, c);
            match parse_i64(text) {
                None => Err(ErrorModel::NotNumber(text)),
                Some(n) => if c + n >= s.len() {
                    Err(ErrorModel::BencodeStringLengthMismatch)
                } else {
                    Ok((Bencode::Bytes(s.subrange(c + 1, c + 1 + n)), c + 1 + n))
                },
            }
        },
    }
}

/// An integer at `p`: `i`, its decimal text up to the next `e`, then `e`.
pub open spec fn parse_integer(s: Seq<u8>, p: int) -> Result<(Bencode, int), ErrorModel> {
    match first_index_of(s, p + 1, 101u8) {
        None => Err(ErrorModel::MissingTerminator),
        Some(e) => {
            let text = s.subrange(p + 1, e);
            match parse_i64(text) {
                None => Err(ErrorModel::NotNumber(text)),
                Some(n) => Ok((Bencode::Integer(n as int), e + 1)),
            }
        },
    }
}

/// The value that starts at `p` in `s`, and the position just past it.
pub open spec fn parse(s: Seq<u8>, p: int) -> Result<(Bencode, int), ErrorModel>
    decreases s.len() - p, 1nat,
{
    if p < 0 || p >= s.len() {
        Err(ErrorModel::IsEmpty)
    } else if is_digit(s[p]) {
        parse_string(s, p)
    } else if s[p] == 105u8 {
        parse_integer(s, p)
    } else if s[p] == 108u8 {
        parse_list_items(s, p + 1, seq![])
    } else if s[p] == 100u8 {
        parse_dict_items(s, p + 1, seq![])
    } else {
        Err(ErrorModel::InvalidBencodeType(s[p]))
    }
}

/// The rest of a list from `q` on, after the items `acc`.
pub open spec fn parse_list_items(s: Seq<u8>, q: int, acc: Seq<Bencode>) -> Result<
    (Bencode, int),
    ErrorModel,
>
    decreases s.len() - q, 2nat,
{
    if q < 0 || q >= s.len() {
        Err(ErrorModel::UnexpectedEOF)
    } else if s[q] == 101u8 {
        Ok((Bencode::List(acc), q + 1))
    } else {
        match parse(s, q) {
            Err(e) => Err(e),
            Ok((v, q2)) => if q2 <= q || q2 > s.len() {
                Err(ErrorModel::UnexpectedEOF)
            } else {
                parse_list_items(s, q2, acc.push(v))
            },
        }
    }
}

/// The rest of a dictionary from `q` on, after the entries `acc`.
pub open spec fn parse_dict_items(s: Seq<u8>, q: int, acc: Seq<(Seq<u8>, Bencode)>) -> Result<
    (Bencode, int),
    ErrorModel,
>
    decreases s.len() - q, 2nat,
{
    if q < 0 || q >= s.len() {
        Err(ErrorModel::UnexpectedEOF)
    } else if s[q] == 101u8 {
        Ok((Bencode::Dict(acc), q + 1))
    } else {
        match parse(s, q) {
            Err(e) => Err(e),
            Ok((k, q2)) => if q2 <= q || q2 > s.len() {
                Err(ErrorModel::UnexpectedEOF)
            } else {
                match parse(s, q2) {
                    Err(e) => Err(e),
                    Ok((v, q3)) => if q3 <= q2 || q3 > s.len() {
                        Err(ErrorModel::UnexpectedEOF)
                    } else {
                        match k {
                            Bencode::Bytes(kb) => parse_dict_items(s, q3, dict_insert(acc, kb, v)),
                            _ => Err(ErrorModel::InvalidDictKey(k)),
                        }
                    },
                }
            },
        }
    }
}

/// What `parse` gives, held against what a decoding call returned and
/// where it left the cursor.
pub open spec fn decoded_as(
    spec_result: Result<(Bencode, int), ErrorModel>,
    r: Result<Value, Error>,
    start: int,
    end: int,
    len: int,
) -> bool {
    match spec_result {
        Ok((v, e)) => r matches Ok(val) && val@ == v && end == e && start < e <= len,
        Err(f) => r matches Err(err) && err@ == f,
    }
}

/// The first position at or after `from` that holds `b`.
fn find_byte(s: &[u8], from: usize, b: u8) -> (r: Option<usize>)
    requires
        from <= s.len(),
    ensures
        r matches Some(i) ==> first_index_of(s@, from as int, b) == Some(i as int) && from <= i
            < s.len(),
        r is None ==> first_index_of(s@, from as int, b) is None,
{
    let mut i: usize = from;
    while i < s.len()
        invariant
            from <= i <= s.len(),
            first_index_of(s@, from as int, b) == first_index_of(s@, i as int, b),
        decreases s.len() - i,
    {
        if s[i] == b {
            return Some(i);
        }
        i += 1;
    }
    None
}

/// A copy of `s`.
pub fn copy_bytes(s: &[u8]) -> (r: Vec<u8>)
    ensures
        r@ == s@,
{
    let mut out: Vec<u8> = Vec::new();
    let mut i: usize = 0;
    while i < s.len()
        invariant
            0 <= i <= s.len(),
            out@ == s@.take(i as int),
        decreases s.len() - i,
    {
        out.push(s[i]);
        i += 1;
        assert(out@ == s@.take(i as int));
    }
    assert(s@.take(i as int) == s@);
    out
}

/// A cursor over a bencode buffer.
pub struct BenCodeDecoder<'a> {
    pub input: &'a [u8],
    pub index: usize,
}

impl<'a> BenCodeDecoder<'a> {
    pub fn new(input: &'a [u8]) -> (r: Self)
        ensures
            r.input@ == input@,
            r.index == 0,
    {
        Self { input, index: 0 }
    }

    /// Decodes the value at the cursor and moves the cursor just past it.
    /// After a failure the cursor's position is left unspecified.
    pub fn decode(&mut self) -> (r: Result<Value, Error>)
        requires
            old(self).index <= old(self).input.len(),
        ensures
            final(self).input@ == old(self).input@,
            final(self).index <= final(self).input.len(),
            decoded_as(
                parse(old(self).input@, old(self).index as int),
                r,
                old(self).index as int,
                final(self).index as int,
                old(self).input.len() as int,
            ),
        decreases self.input.len() - self.index, 1nat,
    {
        if self.index >= self.input.len() {
            return Err(Error::IsEmpty);
        }
        let first = self.input[self.index];
        if 48u8 <= first && first <= 57u8 {
            self.parse_bencode_string()
        } else if first == 105u8 {
            self.parse_bencode_integer()
        } else if first == 108u8 {
            self.parse_bencode_list()
        } else if first == 100u8 {
            self.parse_bencode_dict()
        } else {
            Err(Error::InvalidBencodeType(first))
        }
    }

    fn parse_bencode_string(&mut self) -> (r: Result<Value, Error>)
        requires
            old(self).index < old(self).input.len(),
            is_digit(old(self).input@[old(self).index as int]),
        ensures
            final(self).input@ == old(self).input@,
            final(self).index <= final(self).input.len(),
            decoded_as(
                parse_string(old(self).input@, old(self).index as int),
                r,
                old(self).index as int,
                final(self).index as int,
                old(self).input.len() as int,
            ),
    {
        let start = self.index;
        let colon = match find_byte(self.input, start, 58u8) {
            None => return Err(Error::BencodeStringNoColon),
            Some(c) => c,
        };
        let text = &self.input[start..colon];
        let n = match parse_i64_bytes(text) {
            None => return Err(Error::NotNumber(copy_bytes(text))),
            Some(n) => n,
        };
        proof {
            assert(text@[0] == self.input@[start as int]);
            lemma_parse_i64_unsigned(text@);
        }
        if n as u64 >= (self.input.len() - colon) as u64 {
            return Err(Error::BencodeStringLengthMismatch);
        }
        let end = colon + 1 + n as usize;
        let body = copy_bytes(&self.input[colon + 1..end]);
        self.index = end;
        Ok(Value::Bytes(body))
    }

    fn parse_bencode_integer(&mut self) -> (r: Result<Value, Error>)
        requires
            old(self).index < old(self).input.len(),
            old(self).input@[old(self).index as int] == 105u8,
        ensures
            final(self).input@ == old(self).input@,
            final(self).index <= final(self).input.len(),
            decoded_as(
                parse_integer(old(self).input@, old(self).index as int),
                r,
                old(self).index as int,
                final(self).index as int,
                old(self).input.len() as int,
            ),
    {
        let start = self.index;
        let end = match find_byte(self.input, start + 1, 101u8) {
            None => return Err(Error::MissingTerminator),
            Some(e) => e,
        };
        let text = &self.input[start + 1..end];
        match parse_i64_bytes(text) {
            None => Err(Error::NotNumber(copy_bytes(text))),
            Some(n) => {
                self.index = end + 1;
                Ok(Value::Integer(n))
            },
        }
    }

    fn parse_bencode_list(&mut self) -> (r: Result<Value, Error>)
        requires
            old(self).index < old(self).input.len(),
            old(self).input@[old(self).index as int] == 108u8,
        ensures
            final(self).input@ == old(self).input@,
            final(self).index <= final(self).input.len(),
            decoded_as(
                parse_list_items(old(self).input@, old(self).index + 1, seq![]),
                r,
                old(self).index as int,
                final(self).index as int,
                old(self).input.len() as int,
            ),
        decreases self.input.len() - self.index, 0nat,
    {
        let ghost s = self.input@;
        let ghost start = self.index as int;
        self.index += 1;
        let mut list: Vec<Value> = Vec::new();
        proof {
            assert(items_model(list@) =~= seq![]);
        }
        while self.index < self.input.len() && self.input[self.index] != 101u8
            invariant
                self.input@ == s,
                s == old(self).input@,
                start == old(self).index,
                start < self.index <= s.len(),
                parse_list_items(s, start + 1, seq![]) == parse_list_items(
                    s,
                    self.index as int,
                    items_model(list@),
                ),
            decreases self.input.len() - self.index,
        {
            match self.decode() {
                Err(e) => return Err(e),
                Ok(v) => {
                    proof {
                        assert(list@.push(v).drop_last() == list@);
                    }
                    list.push(v);
                },
            }
        }
        if self.index >= self.input.len() {
            return Err(Error::UnexpectedEOF);
        }
        self.index += 1;
        Ok(Value::List(list))
    }

    fn parse_bencode_dict(&mut self) -> (r: Result<Value, Error>)
        requires
            old(self).index < old(self).input.len(),
            old(self).input@[old(self).index as int] == 100u8,
        ensures
            final(self).input@ == old(self).input@,
            final(self).index <= final(self).input.len(),
            decoded_as(
                parse_dict_items(old(self).input@, old(self).index + 1, seq![]),
                r,
                old(self).index as int,
                final(self).index as int,
                old(self).input.len() as int,
            ),
        decreases self.input.len() - self.index, 0nat,
    {
        let ghost s = self.input@;
        let ghost start = self.index as int;
        self.index += 1;
        let mut entries: Vec<(Vec<u8>, Value)> = Vec::new();
        proof {
            assert(entries_model(entries@) =~= seq![]);
        }
        while self.index < self.input.len() && self.input[self.index] != 101u8
            invariant
                self.input@ == s,
                s == old(self).input@,
                start == old(self).index,
                start < self.index <= s.len(),
                parse_dict_items(s, start + 1, seq![]) == parse_dict_items(
                    s,
                    self.index as int,
                    entries_model(entries@),
                ),
            decreases self.input.len() - self.index,
        {
            let key = match self.decode() {
                Err(e) => return Err(e),
                Ok(k) => k,
            };
            let value = match self.decode() {
                Err(e) => return Err(e),
                Ok(v) => v,
            };
            match key {
                Value::Bytes(k) => dict_insert_entry(&mut entries, k, value),
                other => return Err(Error::InvalidDictKey(other)),
            }
        }
        if self.index >= self.input.len() {
            return Err(Error::UnexpectedEOF);
        }
        self.index += 1;
        Ok(Value::Dict(entries))
    }
}

/// Decodes the value at the start of `input`; bytes after it are ignored.
pub fn decode_bencode(input: &[u8]) -> (r: Result<Value, Error>)
    ensures
        match parse(input@, 0) {
            Ok((v, _)) => r matches Ok(val) && val@ == v,
            Err(f) => r matches Err(err) && err@ == f,
        },
{
    let mut decoder = BenCodeDecoder::new(input);
    decoder.decode()
}

} // verus!
