use vstd::prelude::*;

use crate::decoder::copy_bytes;
use crate::dict::{
    dict_insert, dict_insert_entry, lemma_dict_insert_after_smaller, lemma_dict_insert_sorted,
    lemma_dict_insert_values,
};
use crate::round_trip::width;
use crate::value::{
    bytes_lt, entries_model, items_model, keys_sorted, lemma_entries_model, lemma_items_model,
    well_formed, Bencode, Value,
};

verus! {

/// The value with every dictionary, at any depth, rebuilt by putting its
/// entries in key order one after the other: keys come out sorted, and
/// where a key repeats, the last entry with it wins.
pub open spec fn canonical(v: Bencode) -> Bencode
    decreases v, 1nat,
{
    match v {
        Bencode::Bytes(b) => Bencode::Bytes(b),
        Bencode::Integer(n) => Bencode::Integer(n),
        Bencode::List(items) => Bencode::List(canonical_items(items)),
        Bencode::Dict(entries) => Bencode::Dict(canonical_entries(entries)),
    }
}

/// Each item made canonical.
pub open spec fn canonical_items(items: Seq<Bencode>) -> Seq<Bencode>
    decreases items, 0nat,
{
    if items.len() == 0 {
        seq![]
    } else {
        canonical_items(items.drop_last()).push(canonical(items.last()))
    }
}

/// The entries inserted in turn, values made canonical, into an empty
/// dictionary.
pub open spec fn canonical_entries(entries: Seq<(Seq<u8>, Bencode)>) -> Seq<(Seq<u8>, Bencode)>
    decreases entries, 0nat,
{
    if entries.len() == 0 {
        seq![]
    } else {
        dict_insert(
            canonical_entries(entries.drop_last()),
            entries.last().0,
            canonical(entries.last().1),
        )
    }
}

proof fn lemma_canonical_items_index(items: Seq<Bencode>)
    ensures
        canonical_items(items).len() == items.len(),
        forall|i: int|
            0 <= i < items.len() ==> #[trigger] canonical_items(items)[i] == canonical(items[i]),
    decreases items.len(),
{
    if items.len() > 0 {
        lemma_canonical_items_index(items.drop_last());
    }
}

/// `canonical` leaves a well-formed value as it is.
pub proof fn lemma_canonical_of_well_formed(v: Bencode)
    requires
        well_formed(v),
    ensures
        canonical(v) == v,
    decreases v, width(v) + 1,
{
    match v {
        Bencode::List(items) => {
            lemma_canonical_items_prefix(v, items.len() as int);
            assert(items.take(items.len() as int) == items);
        },
        Bencode::Dict(entries) => {
            lemma_canonical_entries_prefix(v, entries.len() as int);
            assert(entries.take(entries.len() as int) == entries);
        },
        _ => {},
    }
}

proof fn lemma_canonical_items_prefix(v: Bencode, i: int)
    requires
        v is List,
        well_formed(v),
        0 <= i <= v->List_0.len(),
    ensures
        canonical_items(v->List_0.take(i)) == v->List_0.take(i),
    decreases v, i,
{
    let items = v->List_0;
    if i == 0 {
        assert(items.take(0) =~= seq![]);
    } else {
        lemma_canonical_items_prefix(v, i - 1);
        assert(items.take(i).drop_last() == items.take(i - 1));
        assert(decreases_to!(v => items[i - 1]));
        lemma_canonical_of_well_formed(items[i - 1]);
        assert(items.take(i - 1).push(items[i - 1]) == items.take(i));
    }
}

proof fn lemma_canonical_entries_prefix(v: Bencode, i: int)
    requires
        v is Dict,
        well_formed(v),
        0 <= i <= v->Dict_0.len(),
    ensures
        canonical_entries(v->Dict_0.take(i)) == v->Dict_0.take(i),
    decreases v, i,
{
    let entries = v->Dict_0;
    if i == 0 {
        assert(entries.take(0) =~= seq![]);
    } else {
        lemma_canonical_entries_prefix(v, i - 1);
        let before = entries.take(i - 1);
        assert(entries.take(i).drop_last() == before);
        let (k, x) = entries[i - 1];
        assert(decreases_to!(v => entries[i - 1].1));
        lemma_canonical_of_well_formed(x);
        assert forall|j: int| 0 <= j < i - 1 implies bytes_lt(#[trigger] before[j].0, k) by {
            assert(before[j] == entries[j]);
        }
        lemma_dict_insert_after_smaller(before, i - 1, k, x);
        assert(before.skip(i - 1) =~= seq![]);
        assert(before.take(i - 1) == before);
        assert(dict_insert(before, k, x) =~= entries.take(i));
    }
}

/// Whatever the value, its canonical form is well formed: every dictionary
/// in it has strictly sorted keys.
pub proof fn lemma_canonical_well_formed(v: Value)
    ensures
        well_formed(canonical(v@)),
    decreases v, 1nat,
{
    match v {
        Value::List(items) => {
            lemma_items_model(items@);
            lemma_canonical_items_index(items_model(items@));
            assert forall|j: int| 0 <= j < items.len() implies well_formed(
                #[trigger] canonical_items(items_model(items@))[j],
            ) by {
                assert(decreases_to!(items => items@[j]));
                lemma_canonical_well_formed(items@[j]);
            }
        },
        Value::Dict(entries) => {
            lemma_entries_model(entries@);
            lemma_canonical_entries_sorted(entries, entries.len() as int);
            assert(entries_model(entries@).take(entries.len() as int) == entries_model(entries@));
        },
        _ => {},
    }
}

proof fn lemma_canonical_entries_sorted(entries: Vec<(Vec<u8>, Value)>, i: int)
    requires
        0 <= i <= entries.len(),
    ensures
        keys_sorted(canonical_entries(entries_model(entries@).take(i))),
        forall|j: int|
            0 <= j < canonical_entries(entries_model(entries@).take(i)).len() ==> well_formed(
                #[trigger] canonical_entries(entries_model(entries@).take(i))[j].1,
            ),
    decreases entries, 0nat, i,
{
    let m = entries_model(entries@);
    lemma_entries_model(entries@);
    if i == 0 {
        assert(m.take(0) =~= seq![]);
    } else {
        lemma_canonical_entries_sorted(entries, i - 1);
        let before = m.take(i - 1);
        assert(m.take(i).drop_last() == before);
        assert(decreases_to!(entries => entries@[i - 1]));
        lemma_canonical_well_formed(entries@[i - 1].1);
        let acc = canonical_entries(before);
        lemma_dict_insert_sorted(acc, m[i - 1].0, canonical(m[i - 1].1));
        lemma_dict_insert_values(acc, m[i - 1].0, canonical(m[i - 1].1));
    }
}

/// A copy of `v` in canonical form.
pub fn canonicalize(v: &Value) -> (r: Value)
    ensures
        r@ == canonical(v@),
    decreases v,
{
    match v {
        Value::Bytes(b) => Value::Bytes(copy_bytes(b.as_slice())),
        Value::Integer(n) => Value::Integer(*n),
        Value::List(items) => Value::List(canonical_list(items)),
        Value::Dict(entries) => Value::Dict(canonical_dict(entries)),
    }
}

fn canonical_list(items: &Vec<Value>) -> (r: Vec<Value>)
    ensures
        items_model(r@) == canonical_items(items_model(items@)),
    decreases items,
{
    let ghost m = items_model(items@);
    proof {
        lemma_items_model(items@);
    }
    let mut out: Vec<Value> = Vec::new();
    let mut i: usize = 0;
    proof {
        assert(items_model(out@) =~= canonical_items(m.take(0)));
    }
    while i < items.len()
        invariant
            0 <= i <= items.len(),
            m == items_model(items@),
            m.len() == items.len(),
            forall|j: int| 0 <= j < m.len() ==> #[trigger] m[j] == items@[j]@,
            items_model(out@) == canonical_items(m.take(i as int)),
        decreases items.len() - i,
    {
        proof {
            assert(decreases_to!(items => items@[i as int]));
        }
        let x = canonicalize(&items[i]);
        proof {
            assert(out@.push(x).drop_last() == out@);
            assert(m.take(i + 1).drop_last() == m.take(i as int));
        }
        out.push(x);
        i += 1;
    }
    assert(m.take(items.len() as int) == m);
    out
}

fn canonical_dict(entries: &Vec<(Vec<u8>, Value)>) -> (r: Vec<(Vec<u8>, Value)>)
    ensures
        entries_model(r@) == canonical_entries(entries_model(entries@)),
    decreases entries,
{
    let ghost m = entries_model(entries@);
    proof {
        lemma_entries_model(entries@);
    }
    let mut sorted: Vec<(Vec<u8>, Value)> = Vec::new();
    let mut i: usize = 0;
    proof {
        assert(entries_model(sorted@) =~= canonical_entries(m.take(0)));
    }
    while i < entries.len()
        invariant
            0 <= i <= entries.len(),
            m == entries_model(entries@),
            m.len() == entries.len(),
            forall|j: int| 0 <= j < m.len() ==> #[trigger] m[j] == (entries@[j].0@, entries@[j].1@),
            entries_model(sorted@) == canonical_entries(m.take(i as int)),
        decreases entries.len() - i,
    {
        proof {
            assert(decreases_to!(entries => entries@[i as int]));
        }
        let x = canonicalize(&entries[i].1);
        let k = copy_bytes(entries[i].0.as_slice());
        dict_insert_entry(&mut sorted, k, x);
        proof {
            assert(m.take(i + 1).drop_last() == m.take(i as int));
        }
        i += 1;
    }
    assert(m.take(entries.len() as int) == m);
    sorted
}

} // verus!
