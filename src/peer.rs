use vstd::prelude::*;
use vstd::string::StringSliceAdditionalSpecFns;

use crate::decoder::copy_bytes;
use crate::error::{Error, ErrorModel};

verus! {

/// The peer messages this client sends or accepts.
#[derive(Debug, Clone, Copy, PartialEq, Eq, Structural)]
pub enum PeerMessageType {
    Unchoke,
    Interested,
    Bitfield,
    Request,
    Piece,
}

/// The wire code of a message type.
pub open spec fn type_code(t: PeerMessageType) -> u8 {
    match t {
        PeerMessageType::Unchoke => 1,
        PeerMessageType::Interested => 2,
        PeerMessageType::Bitfield => 5,
        PeerMessageType::Request => 6,
        PeerMessageType::Piece => 7,
    }
}

/// The message type of a wire code, if it is one of ours.
pub open spec fn type_of_code(b: u8) -> Option<PeerMessageType> {
    if b == 1 {
        Some(PeerMessageType::Unchoke)
    } else if b == 2 {
        Some(PeerMessageType::Interested)
    } else if b == 5 {
        Some(PeerMessageType::Bitfield)
    } else if b == 6 {
        Some(PeerMessageType::Request)
    } else if b == 7 {
        Some(PeerMessageType::Piece)
    } else {
        None
    }
}

impl PeerMessageType {
    pub fn code(self) -> (r: u8)
        ensures
            r == type_code(self),
    {
        match self {
            PeerMessageType::Unchoke => 1,
            PeerMessageType::Interested => 2,
            PeerMessageType::Bitfield => 5,
            PeerMessageType::Request => 6,
            PeerMessageType::Piece => 7,
        }
    }

    pub fn from_code(b: u8) -> (r: Option<Self>)
        ensures
            r == type_of_code(b),
    {
        if b == 1 {
            Some(PeerMessageType::Unchoke)
        } else if b == 2 {
            Some(PeerMessageType::Interested)
        } else if b == 5 {
            Some(PeerMessageType::Bitfield)
        } else if b == 6 {
            Some(PeerMessageType::Request)
        } else if b == 7 {
            Some(PeerMessageType::Piece)
        } else {
            None
        }
    }
}

/// A framed message after the handshake.
#[derive(Debug, PartialEq, Eq)]
pub struct PeerMessage {
    /// Declared length: the type byte plus the payload.
    pub length: u32,
    pub id: PeerMessageType,
    pub payload: Vec<u8>,
}

/// The four big-endian bytes of `n`.
pub open spec fn be_bytes(n: int) -> Seq<u8> {
    seq![
        (n / 0x100_0000 % 0x100) as u8,
        (n / 0x1_0000 % 0x100) as u8,
        (n / 0x100 % 0x100) as u8,
        (n % 0x100) as u8,
    ]
}

/// The number that four big-endian bytes spell.
pub open spec fn be_value(b: Seq<u8>) -> int {
    b[0] * 0x100_0000 + b[1] * 0x1_0000 + b[2] * 0x100 + b[3]
}

/// Appends the four big-endian bytes of `n`.
pub fn push_be_u32(out: &mut Vec<u8>, n: u32)
    ensures
        final(out)@ == old(out)@ + be_bytes(n as int),
{
    out.push((n / 0x100_0000) as u8);
    out.push((n / 0x1_0000 % 0x100) as u8);
    out.push((n / 0x100 % 0x100) as u8);
    out.push((n % 0x100) as u8);
    assert(final(out)@ =~= old(out)@ + be_bytes(n as int));
}

/// Reads a big-endian `u32` at `at`.
pub fn read_be_u32(b: &[u8], at: usize) -> (r: u32)
    requires
        at + 4 <= b.len(),
    ensures
        r == be_value(b@.subrange(at as int, at + 4)),
{
    let v: u32 = b[at] as u32 * 0x100_0000 + b[at + 1] as u32 * 0x1_0000 + b[at + 2] as u32 * 0x100
        + b[at + 3] as u32;
    v
}

/// Appends `bytes`.
fn push_all(out: &mut Vec<u8>, bytes: &[u8])
    ensures
        final(out)@ == old(out)@ + bytes@,
{
    let mut i: usize = 0;
    while i < bytes.len()
        invariant
            0 <= i <= bytes.len(),
            out@ == old(out)@ + bytes@.take(i as int),
        decreases bytes.len() - i,
    {
        out.push(bytes[i]);
        i += 1;
        assert(bytes@.take(i as int) == bytes@.take(i - 1).push(bytes@[i - 1]));
    }
    assert(bytes@.take(i as int) == bytes@);
}

/// The wire bytes of a message: its length (type byte plus payload) in
/// four big-endian bytes, the type byte, then the payload.
pub open spec fn framed(t: PeerMessageType, payload: Seq<u8>) -> Seq<u8> {
    be_bytes(payload.len() + 1int) + seq![type_code(t)] + payload
}

/// The bytes to write for a message of type `message_type` carrying `payload`.
pub fn frame_message(message_type: PeerMessageType, payload: &[u8]) -> (r: Vec<u8>)
    requires
        payload.len() < u32::MAX,
    ensures
        r@ == framed(message_type, payload@),
{
    let mut out: Vec<u8> = Vec::new();
    push_be_u32(&mut out, payload.len() as u32 + 1);
    out.push(message_type.code());
    push_all(&mut out, payload);
    assert(out@ =~= framed(message_type, payload@));
    out
}

/// The declared length in a 4-byte length prefix.
pub fn message_length(prefix: &[u8]) -> (r: u32)
    requires
        prefix.len() == 4,
    ensures
        r == be_value(prefix@),
{
    assert(prefix@.subrange(0, 4) == prefix@);
    read_be_u32(prefix, 0)
}

/// What a message body of declared length `length` reads as: the type
/// byte, known, then the payload.
pub open spec fn message_of(length: u32, body: Seq<u8>) -> Result<(PeerMessageType, Seq<u8>), ErrorModel> {
    if body.len() == 0 {
        Err(ErrorModel::TruncatedMessage)
    } else {
        match type_of_code(body[0]) {
            None => Err(ErrorModel::InvalidMessageType(body[0])),
            Some(t) => Ok((t, body.drop_first())),
        }
    }
}

/// Reads the message whose `length` bytes after the prefix are `body`.
pub fn parse_message(length: u32, body: &[u8]) -> (r: Result<PeerMessage, Error>)
    requires
        body.len() == length,
    ensures
        match message_of(length, body@) {
            Ok((t, p)) => r matches Ok(m) && m.length == length && m.id == t && m.payload@ == p,
            Err(e) => r matches Err(err) && err@ == e,
        },
{
    if body.len() == 0 {
        return Err(Error::TruncatedMessage);
    }
    match PeerMessageType::from_code(body[0]) {
        None => Err(Error::InvalidMessageType(body[0])),
        Some(t) => {
            let payload = copy_bytes(&body[1..body.len()]);
            assert(payload@ == body@.drop_first());
            Ok(PeerMessage { length, id: t, payload })
        },
    }
}

/// The message, if it is of the expected type; otherwise the protocol
/// violation, naming both type codes.
pub fn check_expected(message: PeerMessage, expected: PeerMessageType) -> (r: Result<PeerMessage, Error>)
    ensures
        message.id == expected ==> r == Ok::<PeerMessage, Error>(message),
        message.id != expected ==> (r matches Err(e) && e@ == ErrorModel::UnexpectedPeerMessage(
            type_code(expected),
            type_code(message.id),
        )),
{
    if message.id != expected {
        return Err(Error::UnexpectedPeerMessage(expected.code(), message.id.code()));
    }
    Ok(message)
}

/// The three fields of a `request` message.
#[derive(Debug, Clone, Copy, PartialEq, Eq, Structural)]
pub struct RequestPayload {
    pub index: u32,
    pub begin: u32,
    pub length: u32,
}

impl RequestPayload {
    pub fn new(index: u32, begin: u32, length: u32) -> (r: Self)
        ensures
            r == (RequestPayload { index, begin, length }),
    {
        Self { index, begin, length }
    }

    /// Index, offset and length, each in four big-endian bytes.
    pub fn as_bytes(&self) -> (r: Vec<u8>)
        ensures
            r@ == be_bytes(self.index as int) + be_bytes(self.begin as int) + be_bytes(
                self.length as int,
            ),
    {
        let mut buffer: Vec<u8> = Vec::new();
        push_be_u32(&mut buffer, self.index);
        push_be_u32(&mut buffer, self.begin);
        push_be_u32(&mut buffer, self.length);
        assert(buffer@ =~= be_bytes(self.index as int) + be_bytes(self.begin as int) + be_bytes(
            self.length as int,
        ));
        buffer
    }
}

/// The fields of a `piece` message: piece index, offset, then the block.
#[derive(Debug, PartialEq, Eq)]
pub struct PiecePayload {
    pub index: u32,
    pub begin: u32,
    pub block: Vec<u8>,
}

impl PiecePayload {
    /// Reads a `piece` payload; one shorter than its 8 header bytes is
    /// truncated.
    pub fn from_bytes(bytes: &[u8]) -> (r: Result<Self, Error>)
        ensures
            bytes.len() < 8 ==> (r matches Err(e) && e@ == ErrorModel::TruncatedMessage),
            bytes.len() >= 8 ==> (r matches Ok(p) && p.index == be_value(bytes@.subrange(0, 4))
                && p.begin == be_value(bytes@.subrange(4, 8)) && p.block@ == bytes@.subrange(
                8,
                bytes.len() as int,
            )),
    {
        if bytes.len() < 8 {
            return Err(Error::TruncatedMessage);
        }
        let index = read_be_u32(bytes, 0);
        let begin = read_be_u32(bytes, 4);
        let block = copy_bytes(&bytes[8..bytes.len()]);
        Ok(Self { index, begin, block })
    }
}

/// The protocol name sent in the handshake.
pub open spec fn protocol_name() -> Seq<u8> {
    "BitTorrent protocol".spec_bytes()
}

/// The 68 handshake bytes: 19, the protocol name, eight zero bytes, the
/// info hash, then our peer id.
pub open spec fn handshake_of(info_hash: Seq<u8>, peer_id: Seq<u8>) -> Seq<u8> {
    seq![19u8] + protocol_name() + seq![0u8, 0, 0, 0, 0, 0, 0, 0] + info_hash + peer_id
}

pub fn handshake_bytes(info_hash: &[u8; 20], peer_id: &[u8; 20]) -> (r: Vec<u8>)
    ensures
        r@ == handshake_of(info_hash@, peer_id@),
        r@.len() == 68,
{
    let mut out: Vec<u8> = Vec::new();
    out.push(19u8);
    let name = "BitTorrent protocol".as_bytes();
    proof {
        reveal_strlit("BitTorrent protocol");
        vstd::string::is_ascii_spec_bytes("BitTorrent protocol");
    }
    push_all(&mut out, name);
    let mut i: usize = 0;
    while i < 8
        invariant
            0 <= i <= 8,
            out@ == seq![19u8] + protocol_name() + Seq::new(i as nat, |k: int| 0u8),
        decreases 8 - i,
    {
        out.push(0u8);
        i += 1;
        assert(out@ =~= seq![19u8] + protocol_name() + Seq::new(i as nat, |k: int| 0u8));
    }
    assert(Seq::new(8, |k: int| 0u8) =~= seq![0u8, 0, 0, 0, 0, 0, 0, 0]);
    push_all(&mut out, info_hash);
    push_all(&mut out, peer_id);
    out
}

/// The remote peer id: the last 20 of the 68 bytes the peer answered.
pub fn remote_peer_id(response: &[u8]) -> (r: Vec<u8>)
    requires
        response.len() == 68,
    ensures
        r@ == response@.subrange(48, 68),
{
    copy_bytes(&response[48..68])
}

} // verus!
