use vstd::prelude::*;

verus! {

/// A bencode document.
///
/// A dictionary is a list of key/value entries. The decoder builds each one
/// with keys in strictly increasing byte order and no key twice (see
/// `well_formed`); a dictionary built by hand may hold its entries in any
/// order, and `encode` writes them in key order all the same.
#[derive(Debug, PartialEq, Eq)]
pub enum Value {
    Bytes(Vec<u8>),
    Integer(i64),
    List(Vec<Value>),
    Dict(Vec<(Vec<u8>, Value)>),
}

/// The mathematical model of a bencode value.
pub enum Bencode {
    Bytes(Seq<u8>),
    Integer(int),
    List(Seq<Bencode>),
    Dict(Seq<(Seq<u8>, Bencode)>),
}

pub open spec fn value_model(v: Value) -> Bencode
    decreases v, 1nat,
{
    match v {
        Value::Bytes(b) => Bencode::Bytes(b@),
        Value::Integer(n) => Bencode::Integer(n as int),
        Value::List(items) => Bencode::List(items_model(items@)),
        Value::Dict(entries) => Bencode::Dict(entries_model(entries@)),
    }
}

pub open spec fn items_model(items: Seq<Value>) -> Seq<Bencode>
    decreases items, 0nat,
{
    if items.len() == 0 {
        seq![]
    } else {
        items_model(items.drop_last()).push(value_model(items.last()))
    }
}

pub open spec fn entries_model(entries: Seq<(Vec<u8>, Value)>) -> Seq<(Seq<u8>, Bencode)>
    decreases entries, 0nat,
{
    if entries.len() == 0 {
        seq![]
    } else {
        entries_model(entries.drop_last()).push(
            (entries.last().0@, value_model(entries.last().1)),
        )
    }
}

impl View for Value {
    type V = Bencode;

    open spec fn view(&self) -> Bencode {
        value_model(*self)
    }
}

pub proof fn lemma_items_model(items: Seq<Value>)
    ensures
        items_model(items).len() == items.len(),
        forall|i: int| 0 <= i < items.len() ==> #[trigger] items_model(items)[i] == value_model(items[i]),
    decreases items.len(),
{
    if items.len() > 0 {
        lemma_items_model(items.drop_last());
    }
}

pub proof fn lemma_entries_model(entries: Seq<(Vec<u8>, Value)>)
    ensures
        entries_model(entries).len() == entries.len(),
        forall|i: int|
            0 <= i < entries.len() ==> #[trigger] entries_model(entries)[i] == (
                entries[i].0@,
                value_model(entries[i].1),
            ),
    decreases entries.len(),
{
    if entries.len() > 0 {
        lemma_entries_model(entries.drop_last());
    }
}

/// Strict lexicographic order on byte strings.
pub open spec fn bytes_lt(a: Seq<u8>, b: Seq<u8>) -> bool
    decreases a.len(),
{
    if b.len() == 0 {
        false
    } else if a.len() == 0 {
        true
    } else if a[0] != b[0] {
        a[0] < b[0]
    } else {
        bytes_lt(a.drop_first(), b.drop_first())
    }
}

/// Keys strictly increasing.
pub open spec fn keys_sorted(entries: Seq<(Seq<u8>, Bencode)>) -> bool {
    forall|i: int, j: int|
        0 <= i < j < entries.len() ==> bytes_lt(#[trigger] entries[i].0, #[trigger] entries[j].0)
}

/// Every dictionary in the value, at any depth, has strictly sorted keys.
pub open spec fn well_formed(v: Bencode) -> bool
    decreases v,
{
    match v {
        Bencode::Bytes(_) => true,
        Bencode::Integer(n) => i64::MIN <= n <= i64::MAX,
        Bencode::List(items) => forall|i: int| 0 <= i < items.len() ==> well_formed(#[trigger] items[i]),
        Bencode::Dict(entries) => {
            &&& keys_sorted(entries)
            &&& forall|i: int| 0 <= i < entries.len() ==> well_formed(#[trigger] entries[i].1)
        },
    }
}

/// Decimal digits of a natural number, without leading zeros.
pub open spec fn nat_text(n: nat) -> Seq<u8>
    decreases n,
{
    if n < 10 {
        seq![(48 + n) as u8]
    } else {
        nat_text(n / 10).push((48 + n % 10) as u8)
    }
}

/// Decimal text of an integer, with a leading `-` when negative.
pub open spec fn int_text(n: int) -> Seq<u8> {
    if n < 0 {
        seq![45u8] + nat_text((-n) as nat)
    } else {
        nat_text(n as nat)
    }
}

/// `<len>:<bytes>`
pub open spec fn string_encoding(b: Seq<u8>) -> Seq<u8> {
    nat_text(b.len()) + seq![58u8] + b
}

/// The bencode serialization of a value, each dictionary's entries in the
/// order they are held; for a well-formed value this is the canonical form.
pub open spec fn encoding(v: Bencode) -> Seq<u8>
    decreases v, 1nat,
{
    match v {
        Bencode::Bytes(b) => string_encoding(b),
        Bencode::Integer(n) => seq![105u8] + int_text(n) + seq![101u8],
        Bencode::List(items) => seq![108u8] + items_encoding(items) + seq![101u8],
        Bencode::Dict(entries) => seq![100u8] + entries_encoding(entries) + seq![101u8],
    }
}

/// The encodings of a list's items, concatenated.
pub open spec fn items_encoding(items: Seq<Bencode>) -> Seq<u8>
    decreases items, 0nat,
{
    if items.len() == 0 {
        seq![]
    } else {
        items_encoding(items.drop_last()) + encoding(items.last())
    }
}

/// Each entry as its encoded key followed by its encoded value, concatenated.
pub open spec fn entries_encoding(entries: Seq<(Seq<u8>, Bencode)>) -> Seq<u8>
    decreases entries, 0nat,
{
    if entries.len() == 0 {
        seq![]
    } else {
        entries_encoding(entries.drop_last()) + string_encoding(entries.last().0) + encoding(
            entries.last().1,
        )
    }
}

} // verus!

verus! {

pub proof fn lemma_bytes_lt_irreflexive(a: Seq<u8>)
    ensures
        !bytes_lt(a, a),
    decreases a.len(),
{
    if a.len() > 0 {
        lemma_bytes_lt_irreflexive(a.drop_first());
    }
}

/// Any two distinct byte strings are ordered one way or the other.
pub proof fn lemma_bytes_lt_total(a: Seq<u8>, b: Seq<u8>)
    ensures
        a == b || bytes_lt(a, b) || bytes_lt(b, a),
    decreases a.len(),
{
    if a.len() > 0 && b.len() > 0 && a[0] == b[0] {
        lemma_bytes_lt_total(a.drop_first(), b.drop_first());
        if a.drop_first() == b.drop_first() {
            assert(a == seq![a[0]] + a.drop_first());
            assert(b == seq![b[0]] + b.drop_first());
        }
    } else if a.len() == 0 && b.len() == 0 {
        assert(a == b);
    }
}

pub proof fn lemma_bytes_lt_asymmetric(a: Seq<u8>, b: Seq<u8>)
    ensures
        !(bytes_lt(a, b) && bytes_lt(b, a)),
    decreases a.len(),
{
    if a.len() > 0 && b.len() > 0 && a[0] == b[0] {
        lemma_bytes_lt_asymmetric(a.drop_first(), b.drop_first());
    }
}

pub proof fn lemma_bytes_lt_transitive(a: Seq<u8>, b: Seq<u8>, c: Seq<u8>)
    requires
        bytes_lt(a, b),
        bytes_lt(b, c),
    ensures
        bytes_lt(a, c),
    decreases a.len(),
{
    if a.len() > 0 && b.len() > 0 && c.len() > 0 && a[0] == b[0] && b[0] == c[0] {
        lemma_bytes_lt_transitive(a.drop_first(), b.drop_first(), c.drop_first());
    }
}

} // verus!
