use bittorrent::decoder::{decode_bencode, BenCodeDecoder};
use bittorrent::{Error, Value};

fn bytes(s: &str) -> Value {
    Value::Bytes(s.as_bytes().to_vec())
}

#[test]
fn test_bencode_dict_decoder() {
    let input = b"d3:foo3:bar5:helloi52ee";
    let mut bencode_decoder = BenCodeDecoder::new(input);
    let decoded_value = bencode_decoder.decode();
    assert!(decoded_value.is_ok());
    assert_eq!(
        decoded_value.unwrap(),
        Value::Dict(vec![
            (b"foo".to_vec(), bytes("bar")),
            (b"hello".to_vec(), Value::Integer(52)),
        ])
    );
}

#[test]
fn test_bencode_list_decoder() {
    let input = b"l3:foo3:bari52ee";
    let mut bencode_decoder = BenCodeDecoder::new(input);
    let decoded_value = bencode_decoder.decode();
    assert!(decoded_value.is_ok());
    assert_eq!(
        decoded_value.unwrap(),
        Value::List(vec![bytes("foo"), bytes("bar"), Value::Integer(52)])
    );
}

#[test]
fn test_bencode_integer_decoder() {
    let input = b"i-52e";
    let mut bencode_decoder = BenCodeDecoder::new(input);
    let decoded_value = bencode_decoder.decode();
    assert!(decoded_value.is_ok());
    assert_eq!(decoded_value.unwrap(), Value::Integer(-52));
}

#[test]
fn test_bencode_string_decoder() {
    let input = b"5:hello";
    let mut bencode_decoder = BenCodeDecoder::new(input);
    let decoded_value = bencode_decoder.decode();
    assert!(decoded_value.is_ok());
    assert_eq!(decoded_value.unwrap(), bytes("hello"));
}

#[test]
fn test_invalid_bencode() {
    let input = b"x:invalid";
    let mut bencode_decoder = BenCodeDecoder::new(input);
    let decoded_value = bencode_decoder.decode();
    assert!(decoded_value.is_err());
    assert!(matches!(
        decoded_value.unwrap_err(),
        Error::InvalidBencodeType(b'x')
    ));
}

#[test]
fn empty_input_is_rejected() {
    assert_eq!(decode_bencode(b""), Err(Error::IsEmpty));
}

#[test]
fn declared_length_past_the_end_is_a_mismatch() {
    assert_eq!(decode_bencode(b"5:ab"), Err(Error::BencodeStringLengthMismatch));
    assert_eq!(decode_bencode(b"5:hello"), Ok(bytes("hello")));
    assert_eq!(decode_bencode(b"0:"), Ok(bytes("")));
}

#[test]
fn string_without_colon() {
    assert_eq!(decode_bencode(b"12abc"), Err(Error::BencodeStringNoColon));
}

#[test]
fn bad_numbers_are_reported_with_their_text() {
    assert_eq!(decode_bencode(b"i12x4e"), Err(Error::NotNumber(b"12x4".to_vec())));
    assert_eq!(decode_bencode(b"ie"), Err(Error::NotNumber(Vec::new())));
    assert_eq!(
        decode_bencode(b"i9223372036854775808e"),
        Err(Error::NotNumber(b"9223372036854775808".to_vec()))
    );
    assert_eq!(decode_bencode(b"1x:a"), Err(Error::NotNumber(b"1x".to_vec())));
}

#[test]
fn integer_extremes() {
    assert_eq!(
        decode_bencode(b"i9223372036854775807e"),
        Ok(Value::Integer(i64::MAX))
    );
    assert_eq!(
        decode_bencode(b"i-9223372036854775808e"),
        Ok(Value::Integer(i64::MIN))
    );
    assert_eq!(decode_bencode(b"i0e"), Ok(Value::Integer(0)));
}

#[test]
fn integer_without_terminator() {
    assert_eq!(decode_bencode(b"i42"), Err(Error::MissingTerminator));
}

#[test]
fn unterminated_list_and_dict() {
    assert_eq!(decode_bencode(b"l3:foo"), Err(Error::UnexpectedEOF));
    assert_eq!(decode_bencode(b"d3:fooi1e"), Err(Error::UnexpectedEOF));
    assert_eq!(decode_bencode(b"d"), Err(Error::UnexpectedEOF));
}

#[test]
fn non_string_key_is_rejected() {
    assert_eq!(
        decode_bencode(b"di1ei2ee"),
        Err(Error::InvalidDictKey(Value::Integer(1)))
    );
}

#[test]
fn binary_strings_stay_bytes() {
    let input = [b'3', b':', 0xff, 0x00, 0x80];
    assert_eq!(decode_bencode(&input), Ok(Value::Bytes(vec![0xff, 0x00, 0x80])));
}

#[test]
fn dictionary_keys_come_out_sorted_and_last_wins() {
    assert_eq!(
        decode_bencode(b"d1:bi1e1:ai2e1:bi3ee"),
        Ok(Value::Dict(vec![
            (b"a".to_vec(), Value::Integer(2)),
            (b"b".to_vec(), Value::Integer(3)),
        ]))
    );
}

#[test]
fn decoder_cursor_moves_past_each_value() {
    let input = b"i1e3:abc";
    let mut d = BenCodeDecoder::new(input);
    assert_eq!(d.decode(), Ok(Value::Integer(1)));
    assert_eq!(d.index, 3);
    assert_eq!(d.decode(), Ok(bytes("abc")));
    assert_eq!(d.index, 8);
    assert_eq!(d.decode(), Err(Error::IsEmpty));
}
