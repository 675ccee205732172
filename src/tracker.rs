use vstd::prelude::*;
use vstd::string::StringSliceAdditionalSpecFns;

use crate::decoder::{decode_bencode, parse};
use crate::dict::{dict_get, dict_lookup};
use crate::error::{Error, ErrorModel};
use crate::text::{ascii_chars, ascii_string, hex_digit};
use crate::value::{Bencode, Value};

verus! {

/// `A-Z a-z 0-9 - . _ ~`: the bytes that stand for themselves in a URL.
pub open spec fn is_unreserved(b: u8) -> bool {
    (65 <= b <= 90) || (97 <= b <= 122) || (48 <= b <= 57) || b == 45 || b == 46 || b == 95
        || b == 126
}

/// Each byte as itself where unreserved, else as `%` and two lowercase
/// hexadecimal digits.
pub open spec fn percent_encoded(b: Seq<u8>) -> Seq<u8>
    decreases b.len(),
{
    if b.len() == 0 {
        seq![]
    } else {
        percent_encoded(b.drop_last()) + if is_unreserved(b.last()) {
            seq![b.last()]
        } else {
            seq![37u8, hex_digit(b.last() as int / 16), hex_digit(b.last() as int % 16)]
        }
    }
}

proof fn lemma_percent_encoded_ascii(b: Seq<u8>)
    ensures
        forall|i: int| 0 <= i < percent_encoded(b).len() ==> #[trigger] percent_encoded(b)[i] < 128,
    decreases b.len(),
{
    if b.len() > 0 {
        lemma_percent_encoded_ascii(b.drop_last());
        let head = percent_encoded(b.drop_last());
        let tail = if is_unreserved(b.last()) {
            seq![b.last()]
        } else {
            seq![37u8, hex_digit(b.last() as int / 16), hex_digit(b.last() as int % 16)]
        };
        assert(percent_encoded(b) == head + tail);
        assert forall|i: int| 0 <= i < tail.len() implies #[trigger] tail[i] < 128 by {}
        assert forall|i: int| 0 <= i < percent_encoded(b).len() implies #[trigger] percent_encoded(
            b,
        )[i] < 128 by {
            if i < head.len() {
                assert(percent_encoded(b)[i] == head[i]);
            } else {
                assert(percent_encoded(b)[i] == tail[i - head.len()]);
            }
        }
    }
}

fn is_unreserved_byte(b: u8) -> (r: bool)
    ensures
        r == is_unreserved(b),
{
    (65 <= b && b <= 90) || (97 <= b && b <= 122) || (48 <= b && b <= 57) || b == 45 || b == 46
        || b == 95 || b == 126
}

fn nibble(n: u8) -> (r: u8)
    requires
        n < 16,
    ensures
        r == hex_digit(n as int),
{
    if n < 10 {
        48u8 + n
    } else {
        87u8 + n
    }
}

/// Percent-encodes the 20 raw bytes of an info hash for a tracker query.
pub fn url_encode(input: &[u8; 20]) -> (r: String)
    ensures
        r@ == ascii_chars(percent_encoded(input@)),
{
    let mut out: Vec<u8> = Vec::new();
    let mut i: usize = 0;
    while i < 20
        invariant
            0 <= i <= 20,
            input@.len() == 20,
            out@ == percent_encoded(input@.take(i as int)),
        decreases 20 - i,
    {
        let b = input[i];
        if is_unreserved_byte(b) {
            out.push(b);
        } else {
            out.push(37u8);
            out.push(nibble(b / 16));
            out.push(nibble(b % 16));
        }
        i += 1;
        assert(input@.take(i as int).drop_last() == input@.take(i - 1));
        assert(out@ =~= percent_encoded(input@.take(i as int)));
    }
    assert(input@.take(20) == input@);
    proof {
        lemma_percent_encoded_ascii(input@);
    }
    ascii_string(out)
}

/// The fixed parameters of an announce, besides the info hash.
pub struct Tracker {
    pub peer_id: String,
    pub port: u16,
    pub uploaded: u64,
    pub downloaded: u64,
    pub left: u64,
    pub compact: u8,
}

impl Tracker {
    /// Our peer id, port 6881, nothing up- or downloaded, `left` bytes to
    /// go, compact peer list asked for.
    pub fn new(left: u64) -> (r: Self)
        ensures
            r.peer_id@ == "00112233445566778899"@,
            r.port == 6881,
            r.uploaded == 0,
            r.downloaded == 0,
            r.left == left,
            r.compact == 1,
    {
        Self {
            peer_id: "00112233445566778899".to_owned(),
            port: 6881,
            uploaded: 0,
            downloaded: 0,
            left,
            compact: 1,
        }
    }
}

/// An IPv4 peer address.
#[derive(Debug, Clone, Copy, PartialEq, Eq)]
pub struct PeerAddr {
    pub ip: [u8; 4],
    pub port: u16,
}

/// Peer `i` of a compact list: four address bytes, then the port in two
/// big-endian bytes.
pub open spec fn compact_peer(list: Seq<u8>, i: int) -> (Seq<u8>, int) {
    (list.subrange(6 * i, 6 * i + 4), list[6 * i + 4] * 256 + list[6 * i + 5])
}

/// The peers that a tracker's response body names, in its order; a
/// response that is no dictionary, or whose `peers` is no byte string of a
/// multiple of six bytes, names none.
pub open spec fn peers_of(body: Seq<u8>) -> Result<Seq<(Seq<u8>, int)>, ErrorModel> {
    match parse(body, 0) {
        Err(e) => Err(e),
        Ok((v, _)) => match v {
            Bencode::Dict(entries) => match dict_lookup(entries, "peers".spec_bytes()) {
                Some(Bencode::Bytes(list)) => if list.len() % 6 == 0 {
                    Ok(Seq::new((list.len() / 6) as nat, |i: int| compact_peer(list, i)))
                } else {
                    Err(ErrorModel::NoPeers)
                },
                _ => Err(ErrorModel::NoPeers),
            },
            _ => Err(ErrorModel::NoPeers),
        },
    }
}

/// Decodes a tracker's response body into its compact peer list.
pub fn peers_from_response(body: &[u8]) -> (r: Result<Vec<PeerAddr>, Error>)
    ensures
        match peers_of(body@) {
            Ok(peers) => r matches Ok(addrs) && addrs@.len() == peers.len() && forall|i: int|
                0 <= i < peers.len() ==> (#[trigger] addrs@[i]).ip@ == peers[i].0
                    && addrs@[i].port == peers[i].1,
            Err(e) => r matches Err(err) && err@ == e,
        },
{
    let value = match decode_bencode(body) {
        Ok(v) => v,
        Err(e) => return Err(e),
    };
    let entries = match &value {
        Value::Dict(e) => e,
        _ => return Err(Error::NoPeers),
    };
    let list = match dict_get(entries, "peers".as_bytes()) {
        Some(Value::Bytes(l)) => l,
        _ => return Err(Error::NoPeers),
    };
    if list.len() % 6 != 0 {
        return Err(Error::NoPeers);
    }
    let ghost peers = Seq::new((list@.len() / 6) as nat, |i: int| compact_peer(list@, i));
    let mut out: Vec<PeerAddr> = Vec::new();
    let mut i: usize = 0;
    while i < list.len() / 6
        invariant
            list@.len() % 6 == 0,
            0 <= i <= list@.len() / 6,
            peers == Seq::new((list@.len() / 6) as nat, |i: int| compact_peer(list@, i)),
            out@.len() == i,
            forall|j: int|
                0 <= j < i ==> (#[trigger] out@[j]).ip@ == peers[j].0 && out@[j].port == peers[j].1,
        decreases list.len() / 6 - i,
    {
        let at = 6 * i;
        let ip = [list[at], list[at + 1], list[at + 2], list[at + 3]];
        let port = list[at + 4] as u16 * 256 + list[at + 5] as u16;
        assert(ip@ =~= list@.subrange(6 * i, 6 * i + 4));
        out.push(PeerAddr { ip, port });
        i += 1;
    }
    Ok(out)
}

} // verus!
