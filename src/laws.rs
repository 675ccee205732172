use vstd::prelude::*;
use vstd::string::StringSliceAdditionalSpecFns;

use crate::dict::{dict_insert, dict_lookup, lemma_dict_insert_commutes};
use crate::torrent::{dict_field, info_hash_of, torrent_of, TorrentModel};
use crate::value::{encoding, Bencode};

verus! {

/// A dictionary's encoding does not depend on the order in which its keys
/// were put in: entries are kept, and so encoded, in key order.
pub proof fn lemma_encoding_ignores_insert_order(
    d: Seq<(Seq<u8>, Bencode)>,
    k1: Seq<u8>,
    v1: Bencode,
    k2: Seq<u8>,
    v2: Bencode,
)
    requires
        k1 != k2,
    ensures
        encoding(Bencode::Dict(dict_insert(dict_insert(d, k1, v1), k2, v2))) == encoding(
            Bencode::Dict(dict_insert(dict_insert(d, k2, v2), k1, v1)),
        ),
{
    lemma_dict_insert_commutes(d, k1, v1, k2, v2);
}

/// The info hash depends on the length, name, piece length and pieces
/// alone: two torrents that agree on them have the same info hash.
pub proof fn lemma_info_hash_determined_by_fields(t1: TorrentModel, t2: TorrentModel)
    requires
        t1.length == t2.length,
        t1.name == t2.name,
        t1.piece_length == t2.piece_length,
        t1.pieces == t2.pieces,
    ensures
        info_hash_of(t1) == info_hash_of(t2),
{
}

/// Two dictionaries that map every key to the same value.
pub open spec fn same_mapping(a: Seq<(Seq<u8>, Bencode)>, b: Seq<(Seq<u8>, Bencode)>) -> bool {
    forall|k: Seq<u8>| #[trigger] dict_lookup(a, k) == dict_lookup(b, k)
}

/// Two metainfo documents whose top-level and `info` dictionaries map their
/// keys alike, whatever the order of the entries, describe the same torrent,
/// and so have the same info hash.
pub proof fn lemma_torrent_ignores_field_order(v1: Bencode, v2: Bencode)
    requires
        v1 is Dict,
        v2 is Dict,
        dict_lookup(v1->Dict_0, "announce".spec_bytes()) == dict_lookup(
            v2->Dict_0,
            "announce".spec_bytes(),
        ),
        dict_field(v1->Dict_0, "info".spec_bytes()) is Some <==> dict_field(
            v2->Dict_0,
            "info".spec_bytes(),
        ) is Some,
        dict_field(v1->Dict_0, "info".spec_bytes()) is Some ==> same_mapping(
            dict_field(v1->Dict_0, "info".spec_bytes())->Some_0,
            dict_field(v2->Dict_0, "info".spec_bytes())->Some_0,
        ),
    ensures
        torrent_of(v1) == torrent_of(v2),
        torrent_of(v1) matches Ok(t) ==> info_hash_of(t) == info_hash_of(torrent_of(v2)->Ok_0),
{
    let i1 = dict_field(v1->Dict_0, "info".spec_bytes());
    let i2 = dict_field(v2->Dict_0, "info".spec_bytes());
    if i1 is Some {
        assert(dict_lookup(i1->Some_0, "length".spec_bytes()) == dict_lookup(
            i2->Some_0,
            "length".spec_bytes(),
        ));
        assert(dict_lookup(i1->Some_0, "name".spec_bytes()) == dict_lookup(
            i2->Some_0,
            "name".spec_bytes(),
        ));
        assert(dict_lookup(i1->Some_0, "piece length".spec_bytes()) == dict_lookup(
            i2->Some_0,
            "piece length".spec_bytes(),
        ));
        assert(dict_lookup(i1->Some_0, "pieces".spec_bytes()) == dict_lookup(
            i2->Some_0,
            "pieces".spec_bytes(),
        ));
    }
}

} // verus!
