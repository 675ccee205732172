use vstd::prelude::*;

use crate::value::{Bencode, Value};

verus! {

/// Every failure the library reports, with the offending value where there is one.
#[derive(Debug, PartialEq, Eq)]
pub enum Error {
    /// A byte string's length is not followed by `:`.
    BencodeStringNoColon,
    /// A byte string's declared length runs past the end of the input.
    BencodeStringLengthMismatch,
    /// The text of a length or an integer is not a 64-bit integer.
    NotNumber(Vec<u8>),
    /// A dictionary key that is not a byte string.
    InvalidDictKey(Value),
    /// A value starts with a byte that starts no bencode value.
    InvalidBencodeType(u8),
    /// No input where a value was due.
    IsEmpty,
    /// An integer without its closing `e`.
    MissingTerminator,
    /// A list or dictionary without its closing `e`.
    UnexpectedEOF,
    /// The tracker's response holds no usable compact peer list.
    NoPeers,
    /// A torrent field that is absent or of the wrong type.
    MissingField(String),
    /// A peer message whose type byte is unknown.
    InvalidMessageType(u8),
    /// A peer message of another type than the one expected: (expected, got).
    UnexpectedPeerMessage(u8, u8),
    /// A peer message too short for what it must hold.
    TruncatedMessage,
    /// A `piece` message that does not answer the outstanding request.
    UnrequestedBlock,
    /// An assembled piece whose SHA-1 differs from the torrent's.
    PieceHashMismatch,
    /// A piece index past the torrent's last piece.
    NoSuchPiece,
    /// A piece too large for the 32-bit offsets of the wire protocol.
    PieceTooLarge,
}

/// The model of an `Error`.
pub enum ErrorModel {
    BencodeStringNoColon,
    BencodeStringLengthMismatch,
    NotNumber(Seq<u8>),
    InvalidDictKey(Bencode),
    InvalidBencodeType(u8),
    IsEmpty,
    MissingTerminator,
    UnexpectedEOF,
    NoPeers,
    MissingField(Seq<char>),
    InvalidMessageType(u8),
    UnexpectedPeerMessage(u8, u8),
    TruncatedMessage,
    UnrequestedBlock,
    PieceHashMismatch,
    NoSuchPiece,
    PieceTooLarge,
}

impl View for Error {
    type V = ErrorModel;

    open spec fn view(&self) -> ErrorModel {
        match self {
            Error::BencodeStringNoColon => ErrorModel::BencodeStringNoColon,
            Error::BencodeStringLengthMismatch => ErrorModel::BencodeStringLengthMismatch,
            Error::NotNumber(t) => ErrorModel::NotNumber(t@),
            Error::InvalidDictKey(k) => ErrorModel::InvalidDictKey(k@),
            Error::InvalidBencodeType(b) => ErrorModel::InvalidBencodeType(*b),
            Error::IsEmpty => ErrorModel::IsEmpty,
            Error::MissingTerminator => ErrorModel::MissingTerminator,
            Error::UnexpectedEOF => ErrorModel::UnexpectedEOF,
            Error::NoPeers => ErrorModel::NoPeers,
            Error::MissingField(f) => ErrorModel::MissingField(f@),
            Error::InvalidMessageType(b) => ErrorModel::InvalidMessageType(*b),
            Error::UnexpectedPeerMessage(e, g) => ErrorModel::UnexpectedPeerMessage(*e, *g),
            Error::TruncatedMessage => ErrorModel::TruncatedMessage,
            Error::UnrequestedBlock => ErrorModel::UnrequestedBlock,
            Error::PieceHashMismatch => ErrorModel::PieceHashMismatch,
            Error::NoSuchPiece => ErrorModel::NoSuchPiece,
            Error::PieceTooLarge => ErrorModel::PieceTooLarge,
        }
    }
}

} // verus!
