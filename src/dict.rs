use vstd::prelude::*;

use crate::value::{
    bytes_lt, entries_model, keys_sorted, lemma_bytes_lt_asymmetric, lemma_bytes_lt_irreflexive, well_formed,
    lemma_bytes_lt_total, lemma_bytes_lt_transitive, lemma_entries_model, Bencode, Value,
};

verus! {

/// The entries with `(k, v)` put in key order; an entry with key `k` that
/// was there already gives way to the new one.
pub open spec fn dict_insert(entries: Seq<(Seq<u8>, Bencode)>, k: Seq<u8>, v: Bencode) -> Seq<
    (Seq<u8>, Bencode),
>
    decreases entries.len(),
{
    if entries.len() == 0 {
        seq![(k, v)]
    } else if entries[0].0 == k {
        seq![(k, v)] + entries.drop_first()
    } else if bytes_lt(k, entries[0].0) {
        seq![(k, v)] + entries
    } else {
        seq![entries[0]] + dict_insert(entries.drop_first(), k, v)
    }
}

/// The value of the first entry with key `k`.
pub open spec fn dict_lookup(entries: Seq<(Seq<u8>, Bencode)>, k: Seq<u8>) -> Option<Bencode>
    decreases entries.len(),
{
    if entries.len() == 0 {
        None
    } else if entries[0].0 == k {
        Some(entries[0].1)
    } else {
        dict_lookup(entries.drop_first(), k)
    }
}

/// Exactly `bytes_lt`.
pub fn bytes_less(a: &[u8], b: &[u8]) -> (r: bool)
    ensures
        r == bytes_lt(a@, b@),
{
    let mut i: usize = 0;
    assert(a@.skip(0) == a@ && b@.skip(0) == b@);
    while i < a.len() && i < b.len()
        invariant
            0 <= i <= a.len(),
            i <= b.len(),
            a@.take(i as int) == b@.take(i as int),
            bytes_lt(a@, b@) == bytes_lt(a@.skip(i as int), b@.skip(i as int)),
        decreases a.len() - i,
    {
        if a[i] != b[i] {
            return a[i] < b[i];
        }
        assert(a@.skip(i as int).drop_first() == a@.skip(i + 1));
        assert(b@.skip(i as int).drop_first() == b@.skip(i + 1));
        assert(a@.take(i + 1) == a@.take(i as int).push(a@[i as int]));
        assert(b@.take(i + 1) == b@.take(i as int).push(b@[i as int]));
        i += 1;
    }
    i < b.len()
}

/// Byte-wise equality.
pub fn bytes_equal(a: &[u8], b: &[u8]) -> (r: bool)
    ensures
        r == (a@ == b@),
{
    if a.len() != b.len() {
        return false;
    }
    let mut i: usize = 0;
    while i < a.len()
        invariant
            0 <= i <= a.len(),
            a.len() == b.len(),
            a@.take(i as int) == b@.take(i as int),
        decreases a.len() - i,
    {
        if a[i] != b[i] {
            return false;
        }
        assert(a@.take(i + 1) == a@.take(i as int).push(a@[i as int]));
        assert(b@.take(i + 1) == b@.take(i as int).push(b@[i as int]));
        i += 1;
    }
    assert(a@.take(i as int) == a@);
    assert(b@.take(i as int) == b@);
    true
}

pub proof fn lemma_dict_insert_after_smaller(entries: Seq<(Seq<u8>, Bencode)>, i: int, k: Seq<u8>, v: Bencode)
    requires
        0 <= i <= entries.len(),
        forall|j: int| 0 <= j < i ==> bytes_lt(#[trigger] entries[j].0, k),
    ensures
        dict_insert(entries, k, v) == entries.take(i) + dict_insert(entries.skip(i), k, v),
    decreases i,
{
    if i == 0 {
        assert(entries.skip(0) == entries);
        assert(entries.take(0) + dict_insert(entries, k, v) == dict_insert(entries, k, v));
    } else {
        lemma_bytes_lt_irreflexive(k);
        lemma_bytes_lt_asymmetric(entries[0].0, k);
        let rest = entries.drop_first();
        assert forall|j: int| 0 <= j < i - 1 implies bytes_lt(#[trigger] rest[j].0, k) by {
            assert(rest[j] == entries[j + 1]);
        }
        lemma_dict_insert_after_smaller(rest, i - 1, k, v);
        assert(rest.skip(i - 1) == entries.skip(i));
        assert(entries.take(i) == seq![entries[0]] + rest.take(i - 1));
    }
}

/// Puts `(key, value)` in its place by key order, replacing the value of an
/// entry with the same key.
pub fn dict_insert_entry(entries: &mut Vec<(Vec<u8>, Value)>, key: Vec<u8>, value: Value)
    ensures
        entries_model(final(entries)@) == dict_insert(entries_model(old(entries)@), key@, value@),
{
    let ghost m = entries_model(entries@);
    proof {
        lemma_entries_model(entries@);
    }
    let mut i: usize = 0;
    while i < entries.len() && bytes_less(entries[i].0.as_slice(), key.as_slice())
        invariant
            0 <= i <= entries.len(),
            entries@ == old(entries)@,
            m == entries_model(entries@),
            m.len() == entries.len(),
            forall|j: int| 0 <= j < m.len() ==> #[trigger] m[j] == (entries@[j].0@, entries@[j].1@),
            forall|j: int| 0 <= j < i ==> bytes_lt(#[trigger] m[j].0, key@),
        decreases entries.len() - i,
    {
        i += 1;
    }
    proof {
        lemma_dict_insert_after_smaller(m, i as int, key@, value@);
    }
    let ghost kv = key@;
    let ghost vv = value@;
    if i < entries.len() && bytes_equal(entries[i].0.as_slice(), key.as_slice()) {
        entries[i] = (key, value);
        proof {
            lemma_entries_model(entries@);
            assert(m.skip(i as int).drop_first() == m.skip(i + 1));
            assert(entries_model(entries@) =~= m.take(i as int) + (seq![(kv, vv)] + m.skip(i + 1)));
        }
    } else {
        proof {
            if i < m.len() {
                lemma_bytes_lt_total(m[i as int].0, kv);
            }
        }
        entries.insert(i, (key, value));
        proof {
            lemma_entries_model(entries@);
            if i < m.len() {
                assert(entries_model(entries@) =~= m.take(i as int) + (seq![(kv, vv)] + m.skip(i as int)));
            } else {
                assert(entries_model(entries@) =~= m.take(i as int) + seq![(kv, vv)]);
            }
        }
    }
}

/// The value under `key`.
pub fn dict_get<'a>(entries: &'a Vec<(Vec<u8>, Value)>, key: &[u8]) -> (r: Option<&'a Value>)
    ensures
        r matches Some(v) ==> dict_lookup(entries_model(entries@), key@) == Some(v@),
        r is None ==> dict_lookup(entries_model(entries@), key@) is None,
{
    let ghost m = entries_model(entries@);
    proof {
        lemma_entries_model(entries@);
    }
    let mut i: usize = 0;
    assert(m.skip(0) == m);
    while i < entries.len()
        invariant
            0 <= i <= entries.len(),
            m == entries_model(entries@),
            m.len() == entries.len(),
            forall|j: int| 0 <= j < m.len() ==> #[trigger] m[j] == (entries@[j].0@, entries@[j].1@),
            dict_lookup(m, key@) == dict_lookup(m.skip(i as int), key@),
        decreases entries.len() - i,
    {
        if bytes_equal(entries[i].0.as_slice(), key) {
            return Some(&entries[i].1);
        }
        assert(m.skip(i as int).drop_first() == m.skip(i + 1));
        i += 1;
    }
    None
}

} // verus!

verus! {

/// Inserting two distinct keys gives the same entries in either order.
pub proof fn lemma_dict_insert_commutes(
    d: Seq<(Seq<u8>, Bencode)>,
    k1: Seq<u8>,
    v1: Bencode,
    k2: Seq<u8>,
    v2: Bencode,
)
    requires
        k1 != k2,
    ensures
        dict_insert(dict_insert(d, k1, v1), k2, v2) == dict_insert(dict_insert(d, k2, v2), k1, v1),
    decreases d.len(),
{
    lemma_bytes_lt_total(k1, k2);
    lemma_bytes_lt_asymmetric(k1, k2);
    lemma_bytes_lt_irreflexive(k1);
    lemma_bytes_lt_irreflexive(k2);
    if d.len() == 0 {
        assert(seq![(k1, v1)].drop_first() =~= Seq::<(Seq<u8>, Bencode)>::empty());
        assert(seq![(k2, v2)].drop_first() =~= Seq::<(Seq<u8>, Bencode)>::empty());
        if bytes_lt(k1, k2) {
            assert(dict_insert(seq![(k1, v1)], k2, v2) =~= seq![(k1, v1)] + dict_insert(
                Seq::empty(),
                k2,
                v2,
            ));
        } else {
            assert(dict_insert(seq![(k2, v2)], k1, v1) =~= seq![(k2, v2)] + dict_insert(
                Seq::empty(),
                k1,
                v1,
            ));
        }
    } else {
        let h = d[0];
        let t = d.drop_first();
        lemma_bytes_lt_total(h.0, k1);
        lemma_bytes_lt_total(h.0, k2);
        lemma_bytes_lt_asymmetric(h.0, k1);
        lemma_bytes_lt_asymmetric(h.0, k2);
        if bytes_lt(k1, h.0) && bytes_lt(h.0, k2) {
            lemma_bytes_lt_transitive(k1, h.0, k2);
        }
        if bytes_lt(k2, h.0) && bytes_lt(h.0, k1) {
            lemma_bytes_lt_transitive(k2, h.0, k1);
        }
        let a1 = dict_insert(d, k1, v1);
        let a2 = dict_insert(d, k2, v2);
        assert((seq![(k1, v1)] + d).drop_first() == d);
        assert((seq![(k2, v2)] + d).drop_first() == d);
        assert((seq![(k1, v1)] + t).drop_first() == t);
        assert((seq![(k2, v2)] + t).drop_first() == t);
        assert((seq![h] + dict_insert(t, k1, v1)).drop_first() == dict_insert(t, k1, v1));
        assert((seq![h] + dict_insert(t, k2, v2)).drop_first() == dict_insert(t, k2, v2));
        assert((seq![(k2, v2)] + (seq![(k1, v1)] + t)).drop_first() == seq![(k1, v1)] + t);
        assert((seq![(k1, v1)] + (seq![(k2, v2)] + t)).drop_first() == seq![(k2, v2)] + t);
        if h.0 != k1 && h.0 != k2 && bytes_lt(h.0, k1) && bytes_lt(h.0, k2) {
            lemma_dict_insert_commutes(t, k1, v1, k2, v2);
        }
    }
}

} // verus!

verus! {

/// Every key of `d` above `lo`.
pub open spec fn keys_above(d: Seq<(Seq<u8>, Bencode)>, lo: Seq<u8>) -> bool {
    forall|i: int| 0 <= i < d.len() ==> bytes_lt(lo, #[trigger] d[i].0)
}

proof fn lemma_dict_insert_keys_above(d: Seq<(Seq<u8>, Bencode)>, lo: Seq<u8>, k: Seq<u8>, v: Bencode)
    requires
        keys_above(d, lo),
        bytes_lt(lo, k),
    ensures
        keys_above(dict_insert(d, k, v), lo),
    decreases d.len(),
{
    if d.len() > 0 && d[0].0 != k && !bytes_lt(k, d[0].0) {
        let t = d.drop_first();
        assert(keys_above(t, lo)) by {
            assert forall|i: int| 0 <= i < t.len() implies bytes_lt(lo, #[trigger] t[i].0) by {
                assert(t[i] == d[i + 1]);
            }
        }
        lemma_dict_insert_keys_above(t, lo, k, v);
        let r = dict_insert(d, k, v);
        assert forall|i: int| 0 <= i < r.len() implies bytes_lt(lo, #[trigger] r[i].0) by {
            if i > 0 {
                assert(r[i] == dict_insert(t, k, v)[i - 1]);
            }
        }
    } else if d.len() > 0 {
        let r = dict_insert(d, k, v);
        assert forall|i: int| 0 <= i < r.len() implies bytes_lt(lo, #[trigger] r[i].0) by {
            if i > 0 && d[0].0 == k {
                assert(r[i] == d[i]);
            } else if i > 0 {
                assert(r[i] == d[i - 1]);
            }
        }
    }
}

/// Inserting keeps the keys strictly sorted.
pub proof fn lemma_dict_insert_sorted(d: Seq<(Seq<u8>, Bencode)>, k: Seq<u8>, v: Bencode)
    requires
        keys_sorted(d),
    ensures
        keys_sorted(dict_insert(d, k, v)),
    decreases d.len(),
{
    if d.len() > 0 {
        let h = d[0];
        let t = d.drop_first();
        let r = dict_insert(d, k, v);
        assert(keys_sorted(t)) by {
            assert forall|i: int, j: int| 0 <= i < j < t.len() implies bytes_lt(
                #[trigger] t[i].0,
                #[trigger] t[j].0,
            ) by {
                assert(t[i] == d[i + 1] && t[j] == d[j + 1]);
            }
        }
        assert(keys_above(t, h.0)) by {
            assert forall|i: int| 0 <= i < t.len() implies bytes_lt(h.0, #[trigger] t[i].0) by {
                assert(d[0].0 == h.0 && t[i] == d[i + 1]);
            }
        }
        if h.0 == k {
            assert forall|i: int, j: int| 0 <= i < j < r.len() implies bytes_lt(
                #[trigger] r[i].0,
                #[trigger] r[j].0,
            ) by {
                assert(r[j] == d[j]);
                if i > 0 {
                    assert(r[i] == d[i]);
                }
            }
        } else if bytes_lt(k, h.0) {
            assert forall|i: int, j: int| 0 <= i < j < r.len() implies bytes_lt(
                #[trigger] r[i].0,
                #[trigger] r[j].0,
            ) by {
                assert(r[j] == d[j - 1]);
                if i > 0 {
                    assert(r[i] == d[i - 1]);
                } else if j > 1 {
                    lemma_bytes_lt_transitive(k, h.0, d[j - 1].0);
                }
            }
        } else {
            lemma_bytes_lt_total(h.0, k);
            lemma_dict_insert_sorted(t, k, v);
            lemma_dict_insert_keys_above(t, h.0, k, v);
            let rt = dict_insert(t, k, v);
            assert(r == seq![h] + rt);
            assert forall|i: int, j: int| 0 <= i < j < r.len() implies bytes_lt(
                #[trigger] r[i].0,
                #[trigger] r[j].0,
            ) by {
                assert(r[j] == rt[j - 1]);
                if i > 0 {
                    assert(r[i] == rt[i - 1]);
                }
            }
        }
    }
}

/// Inserting a well-formed value keeps every value well formed.
pub proof fn lemma_dict_insert_values(d: Seq<(Seq<u8>, Bencode)>, k: Seq<u8>, v: Bencode)
    requires
        forall|i: int| 0 <= i < d.len() ==> well_formed(#[trigger] d[i].1),
        well_formed(v),
    ensures
        forall|i: int|
            0 <= i < dict_insert(d, k, v).len() ==> well_formed(#[trigger] dict_insert(d, k, v)[i].1),
    decreases d.len(),
{
    if d.len() > 0 {
        let t = d.drop_first();
        let r = dict_insert(d, k, v);
        assert forall|i: int| 0 <= i < t.len() implies well_formed(#[trigger] t[i].1) by {
            assert(t[i] == d[i + 1]);
        }
        lemma_dict_insert_values(t, k, v);
        assert forall|i: int| 0 <= i < r.len() implies well_formed(#[trigger] r[i].1) by {
            if i > 0 {
                if d[0].0 == k {
                    assert(r[i] == d[i]);
                } else if bytes_lt(k, d[0].0) {
                    assert(r[i] == d[i - 1]);
                } else {
                    assert(r[i] == dict_insert(t, k, v)[i - 1]);
                }
            }
        }
    }
}

} // verus!
