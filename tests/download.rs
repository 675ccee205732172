use bittorrent::decoder::decode_bencode;
use bittorrent::download::{PieceAssembler, BLOCK_SIZE};
use bittorrent::peer::{frame_message, message_length, parse_message, PeerMessage, PeerMessageType};
use bittorrent::torrent::Torrent;
use bittorrent::Error;
use sha1::Digest;

const PIECE_LENGTH: usize = 2 * BLOCK_SIZE as usize;

fn content() -> Vec<u8> {
    (0..PIECE_LENGTH + 1000).map(|i| (i % 251) as u8).collect()
}

fn synthetic_torrent(data: &[u8]) -> Torrent {
    let mut pieces = Vec::new();
    for chunk in data.chunks(PIECE_LENGTH) {
        let digest: [u8; 20] = sha1::Sha1::digest(chunk).into();
        pieces.extend_from_slice(&digest);
    }
    let mut doc = format!(
        "d8:announce9:http://t/4:infod6:lengthi{}e4:name1:f12:piece lengthi{}e6:pieces{}:",
        data.len(),
        PIECE_LENGTH,
        pieces.len()
    )
    .into_bytes();
    doc.extend_from_slice(&pieces);
    doc.extend_from_slice(b"ee");
    Torrent::from_bencode(decode_bencode(&doc).unwrap()).unwrap()
}

/// Answers each request the way a peer holding `data` would, through the wire framing.
fn serve(data: &[u8], index: u32, begin: u32, length: u32, corrupt: bool) -> PeerMessage {
    let start = index as usize * PIECE_LENGTH + begin as usize;
    let mut payload = Vec::new();
    payload.extend_from_slice(&index.to_be_bytes());
    payload.extend_from_slice(&begin.to_be_bytes());
    payload.extend_from_slice(&data[start..start + length as usize]);
    if corrupt {
        let last = payload.len() - 1;
        payload[last] ^= 1;
    }
    let wire = frame_message(PeerMessageType::Piece, &payload);
    parse_message(message_length(&wire[..4]), &wire[4..]).unwrap()
}

fn download(torrent: &Torrent, data: &[u8], index: u32, corrupt: bool) -> Result<Vec<u8>, Error> {
    let mut assembler = PieceAssembler::new(torrent, index)?;
    let mut requests = 0;
    while let Some(request) = assembler.next_request() {
        requests += 1;
        let answer = serve(data, request.index, request.begin, request.length, corrupt);
        assembler.accept_block(answer)?;
    }
    assert_eq!(requests, if index == 0 { 2 } else { 1 });
    assembler.finish()
}

#[test]
fn downloads_each_piece_of_a_synthetic_torrent() {
    let data = content();
    let torrent = synthetic_torrent(&data);
    assert_eq!(torrent.num_pieces(), 2);
    let hashes = torrent.piece_hashes();
    for index in 0..2u32 {
        let piece = download(&torrent, &data, index, false).unwrap();
        let digest: [u8; 20] = sha1::Sha1::digest(&piece).into();
        assert_eq!(hex::encode(digest), hashes[index as usize]);
    }
    let last = download(&torrent, &data, 1, false).unwrap();
    assert_eq!(last.len(), 1000);
    assert_eq!(last, data[PIECE_LENGTH..].to_vec());
}

#[test]
fn corrupted_block_fails_the_integrity_check() {
    let data = content();
    let torrent = synthetic_torrent(&data);
    assert_eq!(download(&torrent, &data, 0, true), Err(Error::PieceHashMismatch));
    assert_eq!(download(&torrent, &data, 1, true), Err(Error::PieceHashMismatch));
}

#[test]
fn out_of_range_piece_and_stray_blocks_are_refused() {
    let data = content();
    let torrent = synthetic_torrent(&data);
    assert!(matches!(PieceAssembler::new(&torrent, 2), Err(Error::NoSuchPiece)));
    let mut assembler = PieceAssembler::new(&torrent, 0).unwrap();
    let wrong_offset = serve(&data, 0, BLOCK_SIZE, BLOCK_SIZE, false);
    assert_eq!(assembler.accept_block(wrong_offset), Err(Error::UnrequestedBlock));
    let not_a_piece = PeerMessage {
        length: 1,
        id: PeerMessageType::Unchoke,
        payload: Vec::new(),
    };
    assert_eq!(
        assembler.accept_block(not_a_piece),
        Err(Error::UnexpectedPeerMessage(7, 1))
    );
    assert!(assembler.buffer.is_empty());
}

#[test]
fn digest_check_alone() {
    let data = content();
    let torrent = synthetic_torrent(&data);
    let expected = torrent.info.pieces[20..40].to_vec();
    let assembler = PieceAssembler::new(&torrent, 1).unwrap();
    assert_eq!(assembler.check_digest(&expected), Ok(Vec::new()));
    let assembler = PieceAssembler::new(&torrent, 1).unwrap();
    assert_eq!(assembler.check_digest(&[0u8; 20]), Err(Error::PieceHashMismatch));
}
