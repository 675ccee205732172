use vstd::prelude::*;

use crate::decoder::{first_index_of, parse, parse_dict_items, parse_list_items};
use crate::dict::{
    dict_insert, lemma_dict_insert_after_smaller, lemma_dict_insert_sorted, lemma_dict_insert_values,
};
use crate::number::{all_digits, digits_value, is_digit, parse_i64};
use crate::value::{
    bytes_lt, encoding, entries_encoding, int_text, items_encoding, keys_sorted, nat_text, string_encoding,
    well_formed, Bencode,
};

verus! {

/// `s` holds `t` from position `p` on.
pub open spec fn holds_at(s: Seq<u8>, p: int, t: Seq<u8>) -> bool {
    &&& 0 <= p
    &&& p + t.len() <= s.len()
    &&& forall|i: int| 0 <= i < t.len() ==> s[p + i] == #[trigger] t[i]
}

proof fn lemma_nat_text(n: nat)
    ensures
        nat_text(n).len() >= 1,
        all_digits(nat_text(n)),
        digits_value(nat_text(n)) == n,
    decreases n,
{
    if n < 10 {
        let t = nat_text(n);
        assert(t.drop_last() =~= Seq::<u8>::empty());
        assert(digits_value(t.drop_last()) == 0);
    } else {
        lemma_nat_text(n / 10);
        let t = nat_text(n);
        assert(t.drop_last() == nat_text(n / 10));
        assert(t.last() - 48 == n % 10);
        assert(digits_value(t) == (n / 10) * 10 + n % 10);
        assert forall|i: int| 0 <= i < t.len() implies is_digit(#[trigger] t[i]) by {
            if i < t.len() - 1 {
                assert(t[i] == nat_text(n / 10)[i]);
            }
        }
    }
}

proof fn lemma_first_index(s: Seq<u8>, from: int, j: int, b: u8)
    requires
        0 <= from <= j < s.len(),
        s[j] == b,
        forall|i: int| from <= i < j ==> s[i] != b,
    ensures
        first_index_of(s, from, b) == Some(j),
    decreases j - from,
{
    if from < j {
        lemma_first_index(s, from + 1, j, b);
    }
}

proof fn lemma_holds_split(s: Seq<u8>, p: int, a: Seq<u8>, b: Seq<u8>)
    requires
        holds_at(s, p, a + b),
    ensures
        holds_at(s, p, a),
        holds_at(s, p + a.len(), b),
{
    assert forall|i: int| 0 <= i < a.len() implies s[p + i] == #[trigger] a[i] by {
        assert((a + b)[i] == a[i]);
    }
    assert forall|i: int| 0 <= i < b.len() implies s[p + a.len() + i] == #[trigger] b[i] by {
        assert((a + b)[a.len() + i] == b[i]);
    }
}

proof fn lemma_holds_subrange(s: Seq<u8>, p: int, t: Seq<u8>)
    requires
        holds_at(s, p, t),
    ensures
        s.subrange(p, p + t.len()) == t,
{
    assert(s.subrange(p, p + t.len()) =~= t);
}

proof fn lemma_string_round_trip(s: Seq<u8>, p: int, b: Seq<u8>)
    requires
        holds_at(s, p, string_encoding(b)),
        s.len() <= i64::MAX,
    ensures
        parse(s, p) == Ok::<(Bencode, int), crate::error::ErrorModel>(
            (Bencode::Bytes(b), p + string_encoding(b).len()),
        ),
{
    let t = nat_text(b.len());
    lemma_nat_text(b.len());
    lemma_holds_split(s, p, t + seq![58u8], b);
    lemma_holds_split(s, p, t, seq![58u8]);
    let c = p + t.len();
    assert forall|i: int| p <= i < c implies s[i] != 58u8 by {
        assert(s[p + (i - p)] == t[i - p]);
        assert(is_digit(t[i - p]));
    }
    assert(s[c] == seq![58u8][0]);
    lemma_first_index(s, p, c, 58u8);
    lemma_holds_subrange(s, p, t);
    assert(is_digit(t[0]));
    assert(s[p] == t[0]);
    assert(parse_i64(t) == Some(b.len() as i64));
    lemma_holds_subrange(s, c + 1, b);
}

proof fn lemma_integer_round_trip(s: Seq<u8>, p: int, n: int)
    requires
        holds_at(s, p, seq![105u8] + int_text(n) + seq![101u8]),
        i64::MIN <= n <= i64::MAX,
    ensures
        parse(s, p) == Ok::<(Bencode, int), crate::error::ErrorModel>(
            (Bencode::Integer(n), p + int_text(n).len() + 2),
        ),
{
    let t = int_text(n);
    lemma_holds_split(s, p, seq![105u8] + t, seq![101u8]);
    lemma_holds_split(s, p, seq![105u8], t);
    assert(s[p] == seq![105u8][0]);
    let e = p + 1 + t.len();
    assert(s[e] == seq![101u8][0]);
    if n < 0 {
        lemma_nat_text((-n) as nat);
    } else {
        lemma_nat_text(n as nat);
    }
    assert forall|i: int| p + 1 <= i < e implies s[i] != 101u8 by {
        assert(s[p + 1 + (i - p - 1)] == t[i - p - 1]);
        if n < 0 && i > p + 1 {
            assert(t[i - p - 1] == nat_text((-n) as nat)[i - p - 2]);
        }
    }
    lemma_first_index(s, p + 1, e, 101u8);
    lemma_holds_subrange(s, p + 1, t);
    if n < 0 {
        assert(t.drop_first() == nat_text((-n) as nat));
    } else {
        assert(is_digit(t[0]));
    }
}

/// How many items a list or dictionary has, plus one; zero for the others.
pub open spec fn width(v: Bencode) -> nat {
    match v {
        Bencode::List(items) => items.len() + 1,
        Bencode::Dict(entries) => entries.len() + 1,
        _ => 0,
    }
}

proof fn lemma_encoding_first_byte(v: Bencode)
    ensures
        encoding(v).len() >= 1,
        encoding(v)[0] != 101u8,
{
    match v {
        Bencode::Bytes(b) => {
            lemma_nat_text(b.len());
            assert(encoding(v)[0] == nat_text(b.len())[0]);
        },
        _ => {},
    }
}

/// After the first `i` items of the list `v` that starts at `p`, the parse
/// stands just past their encodings, holding them.
proof fn lemma_list_prefix(s: Seq<u8>, p: int, v: Bencode, i: int)
    requires
        v is List,
        well_formed(v),
        holds_at(s, p, encoding(v)),
        s.len() <= i64::MAX,
        0 <= i <= v->List_0.len(),
    ensures
        parse_list_items(s, p + 1, seq![]) == parse_list_items(
            s,
            p + 1 + items_encoding(v->List_0.take(i)).len(),
            v->List_0.take(i),
        ),
    decreases v, i,
{
    let items = v->List_0;
    lemma_holds_split(s, p, seq![108u8] + items_encoding(items), seq![101u8]);
    lemma_holds_split(s, p, seq![108u8], items_encoding(items));
    if i == 0 {
        assert(items.take(0) =~= seq![]);
    } else {
        lemma_list_prefix(s, p, v, i - 1);
        let before = items.take(i - 1);
        assert(items.take(i).drop_last() == before);
        let q = p + 1 + items_encoding(before).len();
        lemma_items_encoding_prefix(items, i);
        lemma_holds_split(s, p + 1, items_encoding(items.take(i)), items_encoding(items.skip(i)));
        lemma_holds_split(s, p + 1, items_encoding(before), encoding(items[i - 1]));
        assert(decreases_to!(v => items[i - 1]));
        lemma_parse_encoding(s, q, items[i - 1]);
        lemma_encoding_first_byte(items[i - 1]);
        assert(s[q + 0] == encoding(items[i - 1])[0]);
        assert(before.push(items[i - 1]) == items.take(i));
    }
}

proof fn lemma_items_encoding_prefix(items: Seq<Bencode>, i: int)
    requires
        0 <= i <= items.len(),
    ensures
        items_encoding(items) == items_encoding(items.take(i)) + items_encoding(items.skip(i)),
    decreases items.len(),
{
    if i == items.len() {
        assert(items.take(i) == items);
        assert(items.skip(i) =~= seq![]);
        assert(items_encoding(items) + seq![] =~= items_encoding(items));
    } else {
        lemma_items_encoding_prefix(items.drop_last(), i);
        assert(items.drop_last().take(i) == items.take(i));
        assert(items.skip(i).drop_last() == items.drop_last().skip(i));
        assert(items.skip(i).last() == items.last());
        assert(items_encoding(items.take(i)) + items_encoding(items.skip(i)) =~= items_encoding(
            items.take(i),
        ) + items_encoding(items.drop_last().skip(i)) + encoding(items.last()));
    }
}

proof fn lemma_entries_encoding_prefix(entries: Seq<(Seq<u8>, Bencode)>, i: int)
    requires
        0 <= i <= entries.len(),
    ensures
        entries_encoding(entries) == entries_encoding(entries.take(i)) + entries_encoding(
            entries.skip(i),
        ),
    decreases entries.len(),
{
    if i == entries.len() {
        assert(entries.take(i) == entries);
        assert(entries.skip(i) =~= seq![]);
        assert(entries_encoding(entries) + seq![] =~= entries_encoding(entries));
    } else {
        lemma_entries_encoding_prefix(entries.drop_last(), i);
        assert(entries.drop_last().take(i) == entries.take(i));
        assert(entries.skip(i).drop_last() == entries.drop_last().skip(i));
        assert(entries.skip(i).last() == entries.last());
        assert(entries_encoding(entries.take(i)) + entries_encoding(entries.skip(i))
            =~= entries_encoding(entries.take(i)) + entries_encoding(entries.drop_last().skip(i))
            + string_encoding(entries.last().0) + encoding(entries.last().1));
    }
}

/// After the first `i` entries of the dictionary `v` that starts at `p`, the
/// parse stands just past their encodings, holding them.
proof fn lemma_dict_prefix(s: Seq<u8>, p: int, v: Bencode, i: int)
    requires
        v is Dict,
        well_formed(v),
        holds_at(s, p, encoding(v)),
        s.len() <= i64::MAX,
        0 <= i <= v->Dict_0.len(),
    ensures
        parse_dict_items(s, p + 1, seq![]) == parse_dict_items(
            s,
            p + 1 + entries_encoding(v->Dict_0.take(i)).len(),
            v->Dict_0.take(i),
        ),
    decreases v, i,
{
    let entries = v->Dict_0;
    lemma_holds_split(s, p, seq![100u8] + entries_encoding(entries), seq![101u8]);
    lemma_holds_split(s, p, seq![100u8], entries_encoding(entries));
    if i == 0 {
        assert(entries.take(0) =~= seq![]);
    } else {
        lemma_dict_prefix(s, p, v, i - 1);
        let before = entries.take(i - 1);
        assert(entries.take(i).drop_last() == before);
        let (k, x) = entries[i - 1];
        let q = p + 1 + entries_encoding(before).len();
        lemma_entries_encoding_prefix(entries, i);
        lemma_holds_split(
            s,
            p + 1,
            entries_encoding(entries.take(i)),
            entries_encoding(entries.skip(i)),
        );
        lemma_holds_split(s, p + 1, entries_encoding(before) + string_encoding(k), encoding(x));
        lemma_holds_split(s, p + 1, entries_encoding(before), string_encoding(k));
        lemma_string_round_trip(s, q, k);
        lemma_encoding_first_byte(Bencode::Bytes(k));
        assert(s[q + 0] == string_encoding(k)[0]);
        let q2 = q + string_encoding(k).len();
        assert(decreases_to!(v => entries[i - 1].1));
        assert(well_formed(x));
        lemma_parse_encoding(s, q2, x);
        assert forall|j: int| 0 <= j < i - 1 implies bytes_lt(#[trigger] before[j].0, k) by {
            assert(before[j] == entries[j]);
        }
        lemma_dict_insert_after_smaller(before, i - 1, k, x);
        assert(before.skip(i - 1) =~= seq![]);
        assert(before.take(i - 1) == before);
        assert(dict_insert(before, k, x) =~= entries.take(i));
    }
}

/// Where `s` holds the encoding of a well-formed value at `p`, decoding at
/// `p` gives that value back and stops just past it.
pub proof fn lemma_parse_encoding(s: Seq<u8>, p: int, v: Bencode)
    requires
        well_formed(v),
        holds_at(s, p, encoding(v)),
        s.len() <= i64::MAX,
    ensures
        parse(s, p) == Ok::<(Bencode, int), crate::error::ErrorModel>(
            (v, p + encoding(v).len()),
        ),
    decreases v, width(v) + 1,
{
    match v {
        Bencode::Bytes(b) => {
            assert(encoding(v) == string_encoding(b));
            lemma_string_round_trip(s, p, b);
        },
        Bencode::Integer(n) => {
            assert(encoding(v) == seq![105u8] + int_text(n) + seq![101u8]);
            lemma_integer_round_trip(s, p, n);
        },
        Bencode::List(items) => {
            lemma_list_prefix(s, p, v, items.len() as int);
            assert(items.take(items.len() as int) == items);
            lemma_holds_split(s, p, seq![108u8] + items_encoding(items), seq![101u8]);
            assert(s[p] == encoding(v)[0]);
            let q = p + 1 + items_encoding(items).len();
            assert(s[q + 0] == seq![101u8][0]);
        },
        Bencode::Dict(entries) => {
            lemma_dict_prefix(s, p, v, entries.len() as int);
            assert(entries.take(entries.len() as int) == entries);
            lemma_holds_split(s, p, seq![100u8] + entries_encoding(entries), seq![101u8]);
            assert(s[p] == encoding(v)[0]);
            let q = p + 1 + entries_encoding(entries).len();
            assert(s[q + 0] == seq![101u8][0]);
        },
    }
}

/// Decoding the canonical encoding of a well-formed value gives the value
/// back, having read the whole encoding (for an encoding that fits in memory).
pub proof fn lemma_round_trip(v: Bencode)
    requires
        well_formed(v),
        encoding(v).len() <= i64::MAX,
    ensures
        parse(encoding(v), 0) == Ok::<(Bencode, int), crate::error::ErrorModel>(
            (v, encoding(v).len() as int),
        ),
{
    lemma_parse_encoding(encoding(v), 0, v);
}

/// Whatever `parse` gives is well formed.
pub proof fn lemma_parse_well_formed(s: Seq<u8>, p: int)
    ensures
        parse(s, p) matches Ok((v, _)) ==> well_formed(v),
    decreases s.len() - p, 1nat,
{
    if 0 <= p < s.len() {
        if s[p] == 108u8 && !is_digit(s[p]) {
            lemma_list_items_well_formed(s, p + 1, seq![]);
        } else if s[p] == 100u8 && !is_digit(s[p]) {
            lemma_dict_items_well_formed(s, p + 1, seq![]);
        }
    }
}

proof fn lemma_list_items_well_formed(s: Seq<u8>, q: int, acc: Seq<Bencode>)
    requires
        forall|i: int| 0 <= i < acc.len() ==> well_formed(#[trigger] acc[i]),
    ensures
        parse_list_items(s, q, acc) matches Ok((v, _)) ==> well_formed(v),
    decreases s.len() - q, 2nat,
{
    if 0 <= q < s.len() && s[q] != 101u8 {
        lemma_parse_well_formed(s, q);
        if let Ok((v, q2)) = parse(s, q) {
            if q < q2 <= s.len() {
                assert forall|i: int| 0 <= i < acc.push(v).len() implies well_formed(
                    #[trigger] acc.push(v)[i],
                ) by {
                    if i < acc.len() {
                        assert(acc.push(v)[i] == acc[i]);
                    }
                }
                lemma_list_items_well_formed(s, q2, acc.push(v));
            }
        }
    }
}

proof fn lemma_dict_items_well_formed(s: Seq<u8>, q: int, acc: Seq<(Seq<u8>, Bencode)>)
    requires
        keys_sorted(acc),
        forall|i: int| 0 <= i < acc.len() ==> well_formed(#[trigger] acc[i].1),
    ensures
        parse_dict_items(s, q, acc) matches Ok((v, _)) ==> well_formed(v),
    decreases s.len() - q, 2nat,
{
    if 0 <= q < s.len() && s[q] != 101u8 {
        if let Ok((k, q2)) = parse(s, q) {
            if q < q2 <= s.len() {
                lemma_parse_well_formed(s, q2);
                if let Ok((v, q3)) = parse(s, q2) {
                    if q2 < q3 <= s.len() {
                        if let Bencode::Bytes(kb) = k {
                            lemma_dict_insert_sorted(acc, kb, v);
                            lemma_dict_insert_values(acc, kb, v);
                            lemma_dict_items_well_formed(s, q3, dict_insert(acc, kb, v));
                        }
                    }
                }
            }
        }
    }
}

/// Every value the decoder produces is well formed, and decoding its
/// canonical encoding gives it back (for an encoding that fits in memory).
pub proof fn lemma_decoded_round_trip(s: Seq<u8>, p: int)
    requires
        parse(s, p) is Ok,
        encoding(parse(s, p)->Ok_0.0).len() <= i64::MAX,
    ensures
        well_formed(parse(s, p)->Ok_0.0),
        parse(encoding(parse(s, p)->Ok_0.0), 0) == Ok::<(Bencode, int), crate::error::ErrorModel>(
            (parse(s, p)->Ok_0.0, encoding(parse(s, p)->Ok_0.0).len() as int),
        ),
{
    lemma_parse_well_formed(s, p);
    lemma_round_trip(parse(s, p)->Ok_0.0);
}

} // verus!
