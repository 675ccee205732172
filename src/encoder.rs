use vstd::prelude::*;

use crate::canonical::{
    canonical, canonicalize, lemma_canonical_of_well_formed, lemma_canonical_well_formed,
};
use crate::value::{
    encoding, entries_encoding, entries_model, int_text, items_encoding, items_model,
    lemma_entries_model, lemma_items_model, nat_text, string_encoding, well_formed, Value,
};

verus! {

/// Appends the decimal digits of `n`.
fn write_decimal(n: u64, output: &mut Vec<u8>)
    ensures
        final(output)@ == old(output)@ + nat_text(n as nat),
    decreases n,
{
    if n < 10 {
        output.push(48u8 + n as u8);
    } else {
        write_decimal(n / 10, output);
        output.push(48u8 + (n % 10) as u8);
    }
}

/// Appends `<len>:<bytes>`.
pub fn encode_string(s: &[u8], output: &mut Vec<u8>)
    ensures
        final(output)@ == old(output)@ + string_encoding(s@),
{
    write_decimal(s.len() as u64, output);
    output.push(58u8);
    let mut i: usize = 0;
    while i < s.len()
        invariant
            0 <= i <= s.len(),
            output@ == old(output)@ + nat_text(s@.len()) + seq![58u8] + s@.take(i as int),
        decreases s.len() - i,
    {
        output.push(s[i]);
        i += 1;
        assert(s@.take(i as int) == s@.take(i - 1).push(s@[i - 1]));
    }
    assert(s@.take(s.len() as int) == s@);
}

/// Appends `i<decimal>e`.
fn encode_integer(n: i64, output: &mut Vec<u8>)
    ensures
        final(output)@ == old(output)@ + seq![105u8] + int_text(n as int) + seq![101u8],
{
    output.push(105u8);
    if n < 0 {
        output.push(45u8);
        let magnitude: u64 = if n == i64::MIN {
            9223372036854775808u64
        } else {
            (-n) as u64
        };
        write_decimal(magnitude, output);
    } else {
        write_decimal(n as u64, output);
    }
    output.push(101u8);
}

/// Appends the encoding of `value`, each dictionary's entries in the order
/// they are stored.
fn encode_value(value: &Value, output: &mut Vec<u8>)
    ensures
        final(output)@ == old(output)@ + encoding(value@),
    decreases value,
{
    match value {
        Value::Bytes(b) => encode_string(b.as_slice(), output),
        Value::Integer(n) => encode_integer(*n, output),
        Value::List(items) => encode_list(items, output),
        Value::Dict(entries) => encode_dict(entries, output),
    }
}

fn encode_list(items: &Vec<Value>, output: &mut Vec<u8>)
    ensures
        final(output)@ == old(output)@ + seq![108u8] + items_encoding(items_model(items@)) + seq![101u8],
    decreases items,
{
    output.push(108u8);
    let mut i: usize = 0;
    while i < items.len()
        invariant
            0 <= i <= items.len(),
            output@ == old(output)@ + seq![108u8] + items_encoding(items_model(items@).take(i as int)),
        decreases items.len() - i,
    {
        proof {
            assert(decreases_to!(items => items@[i as int]));
        }
        encode_value(&items[i], output);
        i += 1;
        proof {
            lemma_items_model(items@);
            assert(items_model(items@).take(i as int).drop_last() == items_model(items@).take(i - 1));
        }
    }
    proof {
        lemma_items_model(items@);
        assert(items_model(items@).take(items.len() as int) == items_model(items@));
    }
    output.push(101u8);
}

fn encode_dict(entries: &Vec<(Vec<u8>, Value)>, output: &mut Vec<u8>)
    ensures
        final(output)@ == old(output)@ + seq![100u8] + entries_encoding(entries_model(entries@)) + seq![101u8],
    decreases entries,
{
    output.push(100u8);
    let mut i: usize = 0;
    while i < entries.len()
        invariant
            0 <= i <= entries.len(),
            output@ == old(output)@ + seq![100u8] + entries_encoding(entries_model(entries@).take(i as int)),
        decreases entries.len() - i,
    {
        proof {
            assert(decreases_to!(entries => entries@[i as int]));
        }
        encode_string(entries[i].0.as_slice(), output);
        encode_value(&entries[i].1, output);
        i += 1;
        proof {
            lemma_entries_model(entries@);
            assert(entries_model(entries@).take(i as int).drop_last() == entries_model(entries@).take(i - 1));
        }
    }
    proof {
        lemma_entries_model(entries@);
        assert(entries_model(entries@).take(entries.len() as int) == entries_model(entries@));
    }
    output.push(101u8);
}

/// The canonical bencode serialization of `value`: every dictionary's
/// entries come out in lexicographic key order, whatever their order in
/// `value` (where a key repeats, the last entry with it is kept).
pub fn encode(value: &Value) -> (r: Vec<u8>)
    ensures
        r@ == encoding(canonical(value@)),
        well_formed(canonical(value@)),
        well_formed(value@) ==> r@ == encoding(value@),
{
    let sorted = canonicalize(value);
    let mut output = Vec::new();
    encode_value(&sorted, &mut output);
    assert(output@ =~= encoding(sorted@));
    proof {
        lemma_canonical_well_formed(*value);
        if well_formed(value@) {
            lemma_canonical_of_well_formed(value@);
        }
    }
    output
}

} // verus!
