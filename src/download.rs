use vstd::prelude::*;

use crate::decoder::copy_bytes;
use crate::dict::bytes_equal;
use crate::error::{Error, ErrorModel};
use crate::peer::{type_code, PeerMessage, PeerMessageType, PiecePayload, RequestPayload};
use crate::torrent::{num_pieces_of, piece_digest, piece_size_of, sha1_digest, sha1_of, Torrent};

verus! {

/// Blocks are requested 16 KiB at a time.
pub const BLOCK_SIZE: u32 = 16384;

/// Where a connection stands after the handshake.
#[derive(Debug, Clone, Copy, PartialEq, Eq, Structural)]
pub enum SessionState {
    /// Waiting for the peer's `bitfield`.
    AwaitingBitfield,
    /// `interested` sent; waiting for `unchoke`.
    AwaitingUnchoke,
    /// Blocks may be requested; `piece` messages answer them.
    Unchoked,
}

/// The message type due in each state.
pub open spec fn expected_in(s: SessionState) -> PeerMessageType {
    match s {
        SessionState::AwaitingBitfield => PeerMessageType::Bitfield,
        SessionState::AwaitingUnchoke => PeerMessageType::Unchoke,
        SessionState::Unchoked => PeerMessageType::Piece,
    }
}

/// The state after the due message, and the message to send in answer.
pub open spec fn after(s: SessionState) -> (SessionState, Option<PeerMessageType>) {
    match s {
        SessionState::AwaitingBitfield => (
            SessionState::AwaitingUnchoke,
            Some(PeerMessageType::Interested),
        ),
        SessionState::AwaitingUnchoke => (SessionState::Unchoked, None),
        SessionState::Unchoked => (SessionState::Unchoked, None),
    }
}

impl SessionState {
    /// The message type the peer must send next.
    pub fn expected(self) -> (r: PeerMessageType)
        ensures
            r == expected_in(self),
    {
        match self {
            SessionState::AwaitingBitfield => PeerMessageType::Bitfield,
            SessionState::AwaitingUnchoke => PeerMessageType::Unchoke,
            SessionState::Unchoked => PeerMessageType::Piece,
        }
    }

    /// Moves on by a received message type: the next state and what to send
    /// back, or the protocol violation where another type was due.
    pub fn on_message(self, got: PeerMessageType) -> (r: Result<
        (SessionState, Option<PeerMessageType>),
        Error,
    >)
        ensures
            got == expected_in(self) ==> r == Ok::<_, Error>(after(self)),
            got != expected_in(self) ==> (r matches Err(e) && e@
                == ErrorModel::UnexpectedPeerMessage(
                type_code(expected_in(self)),
                type_code(got),
            )),
    {
        let want = self.expected();
        if got != want {
            return Err(Error::UnexpectedPeerMessage(want.code(), got.code()));
        }
        match self {
            SessionState::AwaitingBitfield => Ok(
                (SessionState::AwaitingUnchoke, Some(PeerMessageType::Interested)),
            ),
            SessionState::AwaitingUnchoke => Ok((SessionState::Unchoked, None)),
            SessionState::Unchoked => Ok((SessionState::Unchoked, None)),
        }
    }
}

/// Length of the block that starts at `offset` in a piece of `size` bytes.
pub open spec fn block_length(size: int, offset: int) -> int {
    if size - offset < BLOCK_SIZE {
        size - offset
    } else {
        BLOCK_SIZE as int
    }
}

/// Collects one piece block by block, in offset order, and checks it
/// against the torrent's digest.
pub struct PieceAssembler {
    pub index: u32,
    pub size: u32,
    /// The blocks received so far, one after the other.
    pub buffer: Vec<u8>,
    /// The piece's SHA-1 digest, from the torrent.
    pub expected: Vec<u8>,
}

impl PieceAssembler {
    pub open spec fn valid(&self) -> bool {
        self.buffer@.len() <= self.size
    }

    /// Starts on piece `index`: no blocks yet, the piece's size and digest
    /// taken from the torrent.
    pub fn new(torrent: &Torrent, index: u32) -> (r: Result<Self, Error>)
        requires
            torrent.valid(),
        ensures
            index >= num_pieces_of(torrent@.length, torrent@.piece_length) ==> (r matches Err(e)
                && e@ == ErrorModel::NoSuchPiece),
            index < num_pieces_of(torrent@.length, torrent@.piece_length) && piece_size_of(
                torrent@.length,
                torrent@.piece_length,
                index as int,
            ) > u32::MAX ==> (r matches Err(e) && e@ == ErrorModel::PieceTooLarge),
            index < num_pieces_of(torrent@.length, torrent@.piece_length) && piece_size_of(
                torrent@.length,
                torrent@.piece_length,
                index as int,
            ) <= u32::MAX ==> (r matches Ok(a) && a.valid() && a.index == index && a.size
                == piece_size_of(torrent@.length, torrent@.piece_length, index as int)
                && a.buffer@.len() == 0 && a.expected@ == piece_digest(torrent@.pieces, index as int)),
    {
        if index as u64 >= torrent.num_pieces() {
            return Err(Error::NoSuchPiece);
        }
        let size = torrent.piece_size(index as u64);
        if size > u32::MAX as u64 {
            return Err(Error::PieceTooLarge);
        }
        assert(torrent@.pieces.len() == 20 * num_pieces_of(torrent@.length, torrent@.piece_length));
        let count = torrent.info.pieces.len();
        assert(20 * (index as int) + 20 <= count);
        let start = 20 * index as usize;
        let expected = copy_bytes(&torrent.info.pieces.as_slice()[start..start + 20]);
        Ok(PieceAssembler { index, size: size as u32, buffer: Vec::new(), expected })
    }

    /// A `piece` payload (8 header bytes, then the block) that answers the
    /// request for the next block: this piece, the next offset, the
    /// requested length, while blocks are still missing.
    pub open spec fn answers_next_request(&self, payload: Seq<u8>) -> bool {
        &&& self.buffer@.len() < self.size
        &&& crate::peer::be_value(payload.subrange(0, 4)) == self.index
        &&& crate::peer::be_value(payload.subrange(4, 8)) == self.buffer@.len()
        &&& payload.len() - 8 == block_length(self.size as int, self.buffer@.len() as int)
    }

    /// Whether every block is in.
    pub fn is_complete(&self) -> (r: bool)
        ensures
            r == (self.buffer@.len() == self.size),
    {
        self.buffer.len() == self.size as usize
    }

    /// The request for the next missing block, or `None` once all are in.
    pub fn next_request(&self) -> (r: Option<RequestPayload>)
        requires
            self.valid(),
        ensures
            self.buffer@.len() == self.size ==> r is None,
            self.buffer@.len() < self.size ==> r == Some(
                RequestPayload {
                    index: self.index,
                    begin: self.buffer@.len() as u32,
                    length: block_length(self.size as int, self.buffer@.len() as int) as u32,
                },
            ),
    {
        let offset = self.buffer.len() as u32;
        if offset == self.size {
            return None;
        }
        let length = if self.size - offset < BLOCK_SIZE {
            self.size - offset
        } else {
            BLOCK_SIZE
        };
        Some(RequestPayload::new(self.index, offset, length))
    }

    /// Takes the peer's answer to `next_request`: a `piece` message for this
    /// piece, at the next offset, of the requested length.
    pub fn accept_block(&mut self, message: PeerMessage) -> (r: Result<(), Error>)
        requires
            old(self).valid(),
        ensures
            final(self).valid(),
            final(self).index == old(self).index,
            final(self).size == old(self).size,
            final(self).expected == old(self).expected,
            message.id != PeerMessageType::Piece ==> (r matches Err(e) && e@
                == ErrorModel::UnexpectedPeerMessage(7, type_code(message.id))),
            message.id == PeerMessageType::Piece && message.payload@.len() < 8 ==> (r matches Err(
                e,
            ) && e@ == ErrorModel::TruncatedMessage),
            message.id == PeerMessageType::Piece && message.payload@.len() >= 8 && !old(
                self,
            ).answers_next_request(message.payload@) ==> (r matches Err(e) && e@
                == ErrorModel::UnrequestedBlock),
            r is Ok <==> message.id == PeerMessageType::Piece && message.payload@.len() >= 8 && old(
                self,
            ).answers_next_request(message.payload@),
            r is Ok ==> final(self).buffer@ == old(self).buffer@ + message.payload@.subrange(
                8,
                message.payload@.len() as int,
            ),
            r is Err ==> final(self).buffer@ == old(self).buffer@,
    {
        if message.id != PeerMessageType::Piece {
            return Err(Error::UnexpectedPeerMessage(7, message.id.code()));
        }
        let piece = match PiecePayload::from_bytes(message.payload.as_slice()) {
            Ok(p) => p,
            Err(e) => return Err(e),
        };
        let offset = self.buffer.len();
        if offset >= self.size as usize || piece.index != self.index || piece.begin as usize
            != offset {
            return Err(Error::UnrequestedBlock);
        }
        let want = if self.size as usize - offset < BLOCK_SIZE as usize {
            self.size as usize - offset
        } else {
            BLOCK_SIZE as usize
        };
        if piece.block.len() != want {
            return Err(Error::UnrequestedBlock);
        }
        let mut i: usize = 0;
        while i < piece.block.len()
            invariant
                0 <= i <= piece.block@.len(),
                self.index == old(self).index,
                self.size == old(self).size,
                self.expected == old(self).expected,
                self.buffer@ == old(self).buffer@ + piece.block@.take(i as int),
            decreases piece.block.len() - i,
        {
            self.buffer.push(piece.block[i]);
            i += 1;
            assert(piece.block@.take(i as int) == piece.block@.take(i - 1).push(
                piece.block@[i - 1],
            ));
        }
        assert(piece.block@.take(i as int) == piece.block@);
        Ok(())
    }

    /// The assembled piece, if `digest` (its SHA-1) is the torrent's; a
    /// piece that fails the check is not handed out.
    pub fn check_digest(self, digest: &[u8]) -> (r: Result<Vec<u8>, Error>)
        ensures
            digest@ == self.expected@ ==> r == Ok::<Vec<u8>, Error>(self.buffer),
            digest@ != self.expected@ ==> (r matches Err(e) && e@ == ErrorModel::PieceHashMismatch),
    {
        if bytes_equal(digest, self.expected.as_slice()) {
            Ok(self.buffer)
        } else {
            Err(Error::PieceHashMismatch)
        }
    }

    /// The assembled piece, if its SHA-1 digest is the torrent's.
    pub fn finish(self) -> (r: Result<Vec<u8>, Error>)
        requires
            self.buffer@.len() == self.size,
        ensures
            sha1_of(self.buffer@) == self.expected@ ==> r == Ok::<Vec<u8>, Error>(self.buffer),
            sha1_of(self.buffer@) != self.expected@ ==> (r matches Err(e) && e@
                == ErrorModel::PieceHashMismatch),
    {
        let digest = sha1_digest(self.buffer.as_slice());
        self.check_digest(&digest)
    }
}

} // verus!
