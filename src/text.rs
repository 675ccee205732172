use vstd::prelude::*;
use vstd::utf8::{
    decode_utf8, encode_utf8, encode_utf8_decode_utf8, encode_utf8_valid_utf8,
    is_ascii_chars, is_ascii_chars_encode_utf8, valid_utf8,
};

verus! {

/// Relies on `String::from_utf8`: `Ok` exactly when the bytes are valid
/// UTF-8, and then the string of the characters they encode.
#[verifier::external_body]
pub(crate) fn string_from_utf8(bytes: Vec<u8>) -> (r: Option<String>)
    ensures
        r is Some <==> valid_utf8(bytes@),
        r matches Some(s) ==> s@ == decode_utf8(bytes@),
{
    String::from_utf8(bytes).ok()
}

/// The characters that ASCII bytes stand for.
pub open spec fn ascii_chars(bytes: Seq<u8>) -> Seq<char> {
    bytes.map_values(|b: u8| b as char)
}

/// A string of ASCII bytes.
pub fn ascii_string(bytes: Vec<u8>) -> (r: String)
    requires
        forall|i: int| 0 <= i < bytes@.len() ==> #[trigger] bytes@[i] < 128,
    ensures
        r@ == ascii_chars(bytes@),
{
    let ghost chars = ascii_chars(bytes@);
    proof {
        assert(is_ascii_chars(chars));
        is_ascii_chars_encode_utf8(chars);
        assert(encode_utf8(chars) =~= bytes@);
        encode_utf8_valid_utf8(chars);
        encode_utf8_decode_utf8(chars);
    }
    match string_from_utf8(bytes) {
        Some(s) => s,
        None => {
            proof {
                assert(false);
            }
            String::new()
        },
    }
}

/// The lowercase hexadecimal digit of a nibble.
pub open spec fn hex_digit(n: int) -> u8 {
    if n < 10 {
        (48 + n) as u8
    } else {
        (87 + n) as u8
    }
}

/// Two lowercase hexadecimal digits per byte, high nibble first.
pub open spec fn hex_bytes(b: Seq<u8>) -> Seq<u8>
    decreases b.len(),
{
    if b.len() == 0 {
        seq![]
    } else {
        hex_bytes(b.drop_last()) + seq![hex_digit(b.last() as int / 16), hex_digit(b.last() as int % 16)]
    }
}

/// Lowercase hexadecimal text of `b`.
pub open spec fn hex_text(b: Seq<u8>) -> Seq<char> {
    ascii_chars(hex_bytes(b))
}

proof fn lemma_hex_bytes_ascii(b: Seq<u8>)
    ensures
        hex_bytes(b).len() == 2 * b.len(),
        forall|i: int| 0 <= i < hex_bytes(b).len() ==> #[trigger] hex_bytes(b)[i] < 128,
    decreases b.len(),
{
    if b.len() > 0 {
        lemma_hex_bytes_ascii(b.drop_last());
    }
}

fn nibble_digit(n: u8) -> (r: u8)
    requires
        n < 16,
    ensures
        r == hex_digit(n as int),
{
    if n < 10 {
        48u8 + n
    } else {
        87u8 + n
    }
}

/// Lowercase hexadecimal text of `b`, two digits per byte.
pub fn hex_lower(b: &[u8]) -> (r: String)
    ensures
        r@ == hex_text(b@),
{
    let mut out: Vec<u8> = Vec::new();
    let mut i: usize = 0;
    while i < b.len()
        invariant
            0 <= i <= b.len(),
            out@ == hex_bytes(b@.take(i as int)),
        decreases b.len() - i,
    {
        out.push(nibble_digit(b[i] / 16));
        out.push(nibble_digit(b[i] % 16));
        i += 1;
        assert(b@.take(i as int).drop_last() == b@.take(i - 1));
        assert(out@ =~= hex_bytes(b@.take(i as int)));
    }
    assert(b@.take(i as int) == b@);
    proof {
        lemma_hex_bytes_ascii(b@);
    }
    ascii_string(out)
}

} // verus!
