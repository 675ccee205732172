use sha1::Digest;
use vstd::prelude::*;
use vstd::string::StringSliceAdditionalSpecFns;
use vstd::utf8::{decode_utf8, encode_utf8, valid_utf8};

use crate::canonical::canonical;
use crate::decoder::copy_bytes;
use crate::dict::{dict_get, dict_lookup};
use crate::encoder::encode;
use crate::error::{Error, ErrorModel};
use crate::text::{hex_lower, hex_text, string_from_utf8};
use crate::value::{encoding, Bencode, Value};

verus! {

/// Name for the SHA-1 digest of a byte sequence.
pub uninterp spec fn sha1_of(data: Seq<u8>) -> Seq<u8>;

/// Relies on `sha1::Sha1::digest`: the 20-byte SHA-1 digest of `data`,
/// which depends on `data` alone.
#[verifier::external_body]
pub(crate) fn sha1_digest(data: &[u8]) -> (r: [u8; 20])
    ensures
        r@ == sha1_of(data@),
{
    sha1::Sha1::digest(data).into()
}

/// The metadata of a single-file torrent.
pub struct Torrent {
    pub announce: String,
    pub info: TorrentInfo,
}

pub struct TorrentInfo {
    /// Total file size in bytes.
    pub length: i64,
    pub name: String,
    /// Size of every piece but possibly the last.
    pub piece_length: i64,
    /// The 20-byte SHA-1 digests of the pieces, one after the other.
    pub pieces: Vec<u8>,
}

/// The model of a `Torrent`.
pub struct TorrentModel {
    pub announce: Seq<char>,
    pub length: int,
    pub name: Seq<char>,
    pub piece_length: int,
    pub pieces: Seq<u8>,
}

impl View for Torrent {
    type V = TorrentModel;

    open spec fn view(&self) -> TorrentModel {
        TorrentModel {
            announce: self.announce@,
            length: self.info.length as int,
            name: self.info.name@,
            piece_length: self.info.piece_length as int,
            pieces: self.info.pieces@,
        }
    }
}

/// `a / b` rounded up.
pub open spec fn ceil_div(a: int, b: int) -> int {
    a / b + if a % b == 0 {
        0int
    } else {
        1int
    }
}

/// Number of pieces of a file of `length` bytes cut in pieces of `piece_length`.
pub open spec fn num_pieces_of(length: int, piece_length: int) -> int {
    ceil_div(length, piece_length)
}

/// Size of piece `index`: `piece_length`, but for the last piece, which holds
/// what remains (a whole `piece_length` where the division is exact).
pub open spec fn piece_size_of(length: int, piece_length: int, index: int) -> int {
    if index == num_pieces_of(length, piece_length) - 1 && length % piece_length != 0 {
        length % piece_length
    } else {
        piece_length
    }
}

/// A non-negative length, a positive piece length, and one 20-byte digest
/// per piece.
pub open spec fn metadata_valid(length: int, piece_length: int, pieces: Seq<u8>) -> bool {
    &&& length >= 0
    &&& piece_length > 0
    &&& pieces.len() == 20 * num_pieces_of(length, piece_length)
}

pub open spec fn text_field(entries: Seq<(Seq<u8>, Bencode)>, key: Seq<u8>) -> Option<Seq<char>> {
    match dict_lookup(entries, key) {
        Some(Bencode::Bytes(b)) => if valid_utf8(b) {
            Some(decode_utf8(b))
        } else {
            None
        },
        _ => None,
    }
}

pub open spec fn int_field(entries: Seq<(Seq<u8>, Bencode)>, key: Seq<u8>) -> Option<int> {
    match dict_lookup(entries, key) {
        Some(Bencode::Integer(n)) => Some(n),
        _ => None,
    }
}

pub open spec fn bytes_field(entries: Seq<(Seq<u8>, Bencode)>, key: Seq<u8>) -> Option<Seq<u8>> {
    match dict_lookup(entries, key) {
        Some(Bencode::Bytes(b)) => Some(b),
        _ => None,
    }
}

pub open spec fn dict_field(entries: Seq<(Seq<u8>, Bencode)>, key: Seq<u8>) -> Option<
    Seq<(Seq<u8>, Bencode)>,
> {
    match dict_lookup(entries, key) {
        Some(Bencode::Dict(d)) => Some(d),
        _ => None,
    }
}

/// The torrent that a decoded metainfo document describes, or the first
/// required field, in the order `announce`, `info`, `length`, `name`,
/// `piece length`, `pieces`, that is absent or not of its type.
pub open spec fn torrent_of(v: Bencode) -> Result<TorrentModel, ErrorModel> {
    let top = match v {
        Bencode::Dict(e) => e,
        _ => seq![],
    };
    let info = dict_field(top, "info".spec_bytes());
    let length = int_field(info.unwrap(), "length".spec_bytes());
    let name = text_field(info.unwrap(), "name".spec_bytes());
    let piece_length = int_field(info.unwrap(), "piece length".spec_bytes());
    let pieces = bytes_field(info.unwrap(), "pieces".spec_bytes());
    if text_field(top, "announce".spec_bytes()) is None {
        Err(ErrorModel::MissingField("announce"@))
    } else if info is None {
        Err(ErrorModel::MissingField("info"@))
    } else if !(length matches Some(n) && 0 <= n <= i64::MAX) {
        Err(ErrorModel::MissingField("length"@))
    } else if name is None {
        Err(ErrorModel::MissingField("name"@))
    } else if !(piece_length matches Some(n) && 0 < n <= i64::MAX) {
        Err(ErrorModel::MissingField("piece length"@))
    } else if !(pieces matches Some(p) && p.len() == 20 * num_pieces_of(
        length.unwrap(),
        piece_length.unwrap(),
    )) {
        Err(ErrorModel::MissingField("pieces"@))
    } else {
        Ok(
            TorrentModel {
                announce: text_field(top, "announce".spec_bytes()).unwrap(),
                length: length.unwrap(),
                name: name.unwrap(),
                piece_length: piece_length.unwrap(),
                pieces: pieces.unwrap(),
            },
        )
    }
}

/// The `info` dictionary rebuilt from the torrent's fields.
pub open spec fn info_value(t: TorrentModel) -> Bencode {
    Bencode::Dict(
        seq![
            ("length".spec_bytes(), Bencode::Integer(t.length)),
            ("name".spec_bytes(), Bencode::Bytes(encode_utf8(t.name))),
            ("piece length".spec_bytes(), Bencode::Integer(t.piece_length)),
            ("pieces".spec_bytes(), Bencode::Bytes(t.pieces)),
        ],
    )
}

/// The info hash: SHA-1 of the canonical encoding of the `info` dictionary.
pub open spec fn info_hash_of(t: TorrentModel) -> Seq<u8> {
    sha1_of(encoding(canonical(info_value(t))))
}

/// Digest `i` of `pieces`: bytes `20 * i` up to `20 * i + 20`, or to the
/// end where fewer remain.
pub open spec fn piece_digest(pieces: Seq<u8>, i: int) -> Seq<u8> {
    pieces.subrange(20 * i, if 20 * i + 20 <= pieces.len() {
        20 * i + 20
    } else {
        pieces.len() as int
    })
}

fn missing(field: &str) -> (r: Error)
    ensures
        r@ == ErrorModel::MissingField(field@),
{
    Error::MissingField(field.to_owned())
}

fn get_text(entries: &Vec<(Vec<u8>, Value)>, key: &str) -> (r: Option<String>)
    ensures
        r matches Some(s) ==> text_field(crate::value::entries_model(entries@), key.spec_bytes())
            == Some(s@),
        r is None ==> text_field(crate::value::entries_model(entries@), key.spec_bytes()) is None,
{
    match dict_get(entries, key.as_bytes()) {
        Some(Value::Bytes(b)) => string_from_utf8(copy_bytes(b.as_slice())),
        _ => None,
    }
}

fn get_int(entries: &Vec<(Vec<u8>, Value)>, key: &str) -> (r: Option<i64>)
    ensures
        r matches Some(n) ==> int_field(crate::value::entries_model(entries@), key.spec_bytes())
            == Some(n as int),
        r is None ==> int_field(crate::value::entries_model(entries@), key.spec_bytes()) is None,
{
    match dict_get(entries, key.as_bytes()) {
        Some(Value::Integer(n)) => Some(*n),
        _ => None,
    }
}

fn get_bytes(entries: &Vec<(Vec<u8>, Value)>, key: &str) -> (r: Option<Vec<u8>>)
    ensures
        r matches Some(b) ==> bytes_field(crate::value::entries_model(entries@), key.spec_bytes())
            == Some(b@),
        r is None ==> bytes_field(crate::value::entries_model(entries@), key.spec_bytes()) is None,
{
    match dict_get(entries, key.as_bytes()) {
        Some(Value::Bytes(b)) => Some(copy_bytes(b.as_slice())),
        _ => None,
    }
}

impl Torrent {
    /// Holds for a torrent that `from_bencode` built.
    pub open spec fn valid(&self) -> bool {
        metadata_valid(self@.length, self@.piece_length, self@.pieces)
    }

    /// Reads the metadata out of a decoded metainfo document; fails on the
    /// first required field that is absent or not of its type.
    pub fn from_bencode(value: Value) -> (r: Result<Self, Error>)
        ensures
            match torrent_of(value@) {
                Ok(m) => r matches Ok(t) && t@ == m && t.valid(),
                Err(e) => r matches Err(err) && err@ == e,
            },
    {
        let empty: Vec<(Vec<u8>, Value)> = Vec::new();
        let top = match &value {
            Value::Dict(e) => e,
            _ => &empty,
        };
        proof {
            assert(crate::value::entries_model(empty@) =~= seq![]);
        }
        let announce = match get_text(top, "announce") {
            Some(a) => a,
            None => return Err(missing("announce")),
        };
        let info = match dict_get(top, "info".as_bytes()) {
            Some(Value::Dict(d)) => d,
            _ => return Err(missing("info")),
        };
        let length = match get_int(info, "length") {
            Some(n) if n >= 0 => n,
            _ => return Err(missing("length")),
        };
        let name = match get_text(info, "name") {
            Some(n) => n,
            None => return Err(missing("name")),
        };
        let piece_length = match get_int(info, "piece length") {
            Some(n) if n > 0 => n,
            _ => return Err(missing("piece length")),
        };
        let pieces = match get_bytes(info, "pieces") {
            Some(p) => p,
            None => return Err(missing("pieces")),
        };
        let count = num_pieces_for(length, piece_length);
        if pieces.len() as u64 / 20 != count || pieces.len() % 20 != 0 {
            return Err(missing("pieces"));
        }
        Ok(Torrent { announce, info: TorrentInfo { length, name, piece_length, pieces } })
    }

    /// Number of pieces: `length / piece_length`, rounded up.
    pub fn num_pieces(&self) -> (r: u64)
        requires
            self.valid(),
        ensures
            r == num_pieces_of(self@.length, self@.piece_length),
    {
        num_pieces_for(self.info.length, self.info.piece_length)
    }

    /// Size in bytes of piece `index`.
    pub fn piece_size(&self, index: u64) -> (r: u64)
        requires
            self.valid(),
            index < num_pieces_of(self@.length, self@.piece_length),
        ensures
            r == piece_size_of(self@.length, self@.piece_length, index as int),
            0 < r <= self@.piece_length,
    {
        let length = self.info.length as u64;
        let piece_length = self.info.piece_length as u64;
        if index == self.num_pieces() - 1 && length % piece_length != 0 {
            length % piece_length
        } else {
            piece_length
        }
    }

    /// SHA-1 of the canonical encoding of the `info` dictionary rebuilt from
    /// the fields; it cannot fail.
    pub fn info_hash(&self) -> (r: Result<[u8; 20], Error>)
        ensures
            r matches Ok(h) && h@ == info_hash_of(self@),
    {
        Ok(self.info_digest())
    }

    fn info_digest(&self) -> (r: [u8; 20])
        ensures
            r@ == info_hash_of(self@),
    {
        let entries = vec![
                (copy_bytes("length".as_bytes()), Value::Integer(self.info.length)),
                (copy_bytes("name".as_bytes()), Value::Bytes(copy_bytes(self.info.name.as_str().as_bytes()))),
                (copy_bytes("piece length".as_bytes()), Value::Integer(self.info.piece_length)),
                (copy_bytes("pieces".as_bytes()), Value::Bytes(copy_bytes(self.info.pieces.as_slice()))),
            ];
        proof {
            crate::value::lemma_entries_model(entries@);
            assert(crate::value::entries_model(entries@) =~= info_value(self@)->Dict_0);
        }
        let info = Value::Dict(entries);
        let bytes = encode(&info);
        sha1_digest(bytes.as_slice())
    }

    /// The info hash as lowercase hexadecimal text.
    pub fn info_hash_hex(&self) -> (r: String)
        ensures
            r@ == hex_text(info_hash_of(self@)),
    {
        hex_lower(&self.info_digest())
    }

    /// One lowercase hexadecimal digest per piece, in piece order.
    pub fn piece_hashes(&self) -> (r: Vec<String>)
        ensures
            r@.len() == ceil_div(self@.pieces.len() as int, 20),
            forall|i: int| 0 <= i < r@.len() ==> #[trigger] r@[i]@ == hex_text(piece_digest(self@.pieces, i)),
    {
        let pieces = &self.info.pieces;
        let mut out: Vec<String> = Vec::new();
        let mut start: usize = 0;
        while start < pieces.len()
            invariant
                start <= pieces.len(),
                start == 20 * out@.len() || (start == pieces.len() && 20 * out@.len() - 20
                    < start < 20 * out@.len()),
                forall|i: int| 0 <= i < out@.len() ==> #[trigger] out@[i]@ == hex_text(piece_digest(pieces@, i)),
            decreases pieces.len() - start,
        {
            let end = if pieces.len() - start >= 20 { start + 20 } else { pieces.len() };
            let h = hex_lower(&pieces.as_slice()[start..end]);
            out.push(h);
            start = end;
        }
        proof {
            assert(out@.len() == ceil_div(pieces@.len() as int, 20));
        }
        out
    }
}

/// `length / piece_length`, rounded up.
fn num_pieces_for(length: i64, piece_length: i64) -> (r: u64)
    requires
        length >= 0,
        piece_length > 0,
    ensures
        r == num_pieces_of(length as int, piece_length as int),
{
    let l = length as u64;
    let p = piece_length as u64;
    assert(l / p <= l) by (nonlinear_arith)
        requires p >= 1;
    l / p + if l % p == 0 {
        0
    } else {
        1
    }
}

} // verus!
