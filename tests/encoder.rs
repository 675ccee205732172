use bittorrent::canonical::canonicalize;
use bittorrent::decoder::decode_bencode;
use bittorrent::dict::dict_insert_entry;
use bittorrent::encoder::encode;
use bittorrent::Value;

#[test]
fn encodes_each_kind() {
    assert_eq!(encode(&Value::Bytes(b"hello".to_vec())), b"5:hello".to_vec());
    assert_eq!(encode(&Value::Integer(-52)), b"i-52e".to_vec());
    assert_eq!(encode(&Value::Integer(0)), b"i0e".to_vec());
    assert_eq!(
        encode(&Value::Integer(i64::MIN)),
        b"i-9223372036854775808e".to_vec()
    );
    assert_eq!(
        encode(&Value::List(vec![
            Value::Bytes(b"foo".to_vec()),
            Value::Integer(52)
        ])),
        b"l3:fooi52ee".to_vec()
    );
    assert_eq!(encode(&Value::Bytes(Vec::new())), b"0:".to_vec());
}

#[test]
fn dictionary_keys_are_encoded_in_order_whatever_the_insertion_order() {
    let mut first = Vec::new();
    dict_insert_entry(&mut first, b"b".to_vec(), Value::Integer(1));
    dict_insert_entry(&mut first, b"a".to_vec(), Value::Integer(2));
    let mut second = Vec::new();
    dict_insert_entry(&mut second, b"a".to_vec(), Value::Integer(2));
    dict_insert_entry(&mut second, b"b".to_vec(), Value::Integer(1));
    let one = encode(&Value::Dict(first));
    let two = encode(&Value::Dict(second));
    assert_eq!(one, b"d1:ai2e1:bi1ee".to_vec());
    assert_eq!(one, two);
}

#[test]
fn decoded_source_order_does_not_change_the_encoding() {
    let a = decode_bencode(b"d1:bi1e1:ai2ee").unwrap();
    let b = decode_bencode(b"d1:ai2e1:bi1ee").unwrap();
    assert_eq!(encode(&a), b"d1:ai2e1:bi1ee".to_vec());
    assert_eq!(encode(&a), encode(&b));
}

#[test]
fn decode_of_encode_gives_the_value_back() {
    let v = decode_bencode(b"d4:listl1:xi-3ee3:numi7e3:str0:e").unwrap();
    let bytes = encode(&v);
    assert_eq!(bytes, b"d4:listl1:xi-3ee3:numi7e3:str0:e".to_vec());
    assert_eq!(decode_bencode(&bytes), Ok(v));
}

#[test]
fn hand_built_unsorted_dictionary_is_encoded_in_key_order() {
    let unsorted = Value::Dict(vec![
        (b"b".to_vec(), Value::Integer(1)),
        (b"a".to_vec(), Value::Integer(2)),
    ]);
    assert_eq!(encode(&unsorted), b"d1:ai2e1:bi1ee".to_vec());
    let sorted = Value::Dict(vec![
        (b"a".to_vec(), Value::Integer(2)),
        (b"b".to_vec(), Value::Integer(1)),
    ]);
    assert_eq!(encode(&unsorted), encode(&sorted));
}

#[test]
fn nested_dictionaries_are_sorted_and_the_last_repeated_key_wins() {
    let inner = Value::Dict(vec![
        (b"zz".to_vec(), Value::Bytes(b"x".to_vec())),
        (b"piece length".to_vec(), Value::Integer(5)),
        (b"pieces".to_vec(), Value::Integer(6)),
    ]);
    let outer = Value::List(vec![
        inner,
        Value::Dict(vec![
            (b"k".to_vec(), Value::Integer(1)),
            (b"k".to_vec(), Value::Integer(2)),
        ]),
    ]);
    assert_eq!(
        encode(&outer),
        b"ld12:piece lengthi5e6:piecesi6e2:zz1:xed1:ki2eee".to_vec()
    );
    assert_eq!(
        canonicalize(&outer),
        Value::List(vec![
            Value::Dict(vec![
                (b"piece length".to_vec(), Value::Integer(5)),
                (b"pieces".to_vec(), Value::Integer(6)),
                (b"zz".to_vec(), Value::Bytes(b"x".to_vec())),
            ]),
            Value::Dict(vec![(b"k".to_vec(), Value::Integer(2))]),
        ])
    );
}
