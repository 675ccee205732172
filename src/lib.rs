//! A minimal BitTorrent client core: the bencode codec, torrent metadata and
//! its info hash, the tracker's compact peer list and the peer wire protocol.

pub mod canonical;
pub mod decoder;
pub mod dict;
pub mod download;
pub mod encoder;
pub mod error;
pub mod laws;
pub mod number;
pub mod peer;
pub mod round_trip;
pub mod text;
pub mod torrent;
pub mod tracker;
pub mod value;

pub use error::{Error, ErrorModel};
pub use value::{Bencode, Value};
