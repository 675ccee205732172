use bittorrent::download::SessionState;
use bittorrent::peer::{
    check_expected, frame_message, handshake_bytes, message_length, parse_message,
    remote_peer_id, PeerMessage, PeerMessageType, PiecePayload, RequestPayload,
};
use bittorrent::Error;

#[test]
fn interested_is_five_wire_bytes() {
    assert_eq!(
        frame_message(PeerMessageType::Interested, &[]),
        vec![0, 0, 0, 1, 2]
    );
}

#[test]
fn framing_carries_the_payload() {
    let framed = frame_message(PeerMessageType::Request, &[9, 8, 7]);
    assert_eq!(framed, vec![0, 0, 0, 4, 6, 9, 8, 7]);
    let length = message_length(&framed[..4]);
    assert_eq!(length, 4);
    assert_eq!(
        parse_message(length, &framed[4..]),
        Ok(PeerMessage {
            length: 4,
            id: PeerMessageType::Request,
            payload: vec![9, 8, 7],
        })
    );
}

#[test]
fn reads_a_bitfield_message() {
    let wire = [0u8, 0, 0, 5, 5, 0, 0, 0, 5];
    let length = message_length(&wire[..4]);
    assert_eq!(length, 5);
    assert_eq!(
        parse_message(length, &wire[4..]),
        Ok(PeerMessage {
            length: 5,
            id: PeerMessageType::Bitfield,
            payload: vec![0, 0, 0, 5],
        })
    );
}

#[test]
fn unknown_and_empty_messages_are_errors() {
    assert_eq!(parse_message(1, &[9]), Err(Error::InvalidMessageType(9)));
    assert_eq!(parse_message(0, &[]), Err(Error::TruncatedMessage));
}

#[test]
fn unexpected_message_names_both_types() {
    let unchoke = PeerMessage {
        length: 1,
        id: PeerMessageType::Unchoke,
        payload: Vec::new(),
    };
    assert_eq!(
        check_expected(unchoke, PeerMessageType::Bitfield),
        Err(Error::UnexpectedPeerMessage(5, 1))
    );
    let bitfield = PeerMessage {
        length: 2,
        id: PeerMessageType::Bitfield,
        payload: vec![0xff],
    };
    assert_eq!(
        check_expected(
            PeerMessage {
                length: 2,
                id: PeerMessageType::Bitfield,
                payload: vec![0xff],
            },
            PeerMessageType::Bitfield
        ),
        Ok(bitfield)
    );
}

#[test]
fn session_follows_bitfield_interested_unchoke() {
    let s = SessionState::AwaitingBitfield;
    assert_eq!(
        s.on_message(PeerMessageType::Unchoke),
        Err(Error::UnexpectedPeerMessage(5, 1))
    );
    let (s, send) = s.on_message(PeerMessageType::Bitfield).unwrap();
    assert_eq!(s, SessionState::AwaitingUnchoke);
    assert_eq!(send, Some(PeerMessageType::Interested));
    let (s, send) = s.on_message(PeerMessageType::Unchoke).unwrap();
    assert_eq!(s, SessionState::Unchoked);
    assert_eq!(send, None);
}

#[test]
fn request_payload_is_big_endian() {
    let r = RequestPayload::new(1, 16384, 0x0102_0304);
    assert_eq!(r.index, 1);
    assert_eq!(
        r.as_bytes(),
        vec![0, 0, 0, 1, 0, 0, 0x40, 0, 1, 2, 3, 4]
    );
}

#[test]
fn piece_payload_reads_its_header() {
    assert_eq!(
        PiecePayload::from_bytes(&[0, 0, 0, 2, 0, 0, 1, 0, 7, 7]),
        Ok(PiecePayload {
            index: 2,
            begin: 256,
            block: vec![7, 7],
        })
    );
    assert_eq!(
        PiecePayload::from_bytes(&[0, 0, 0]),
        Err(Error::TruncatedMessage)
    );
}

#[test]
fn handshake_layout() {
    let hash = [0xabu8; 20];
    let id = *b"00112233445566778899";
    let h = handshake_bytes(&hash, &id);
    assert_eq!(h.len(), 68);
    assert_eq!(h[0], 19);
    assert_eq!(&h[1..20], b"BitTorrent protocol");
    assert_eq!(&h[20..28], &[0u8; 8]);
    assert_eq!(&h[28..48], &hash);
    assert_eq!(&h[48..68], &id);
    assert_eq!(remote_peer_id(&h), id.to_vec());
}
