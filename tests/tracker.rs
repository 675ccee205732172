use bittorrent::tracker::{peers_from_response, url_encode, PeerAddr, Tracker};
use bittorrent::Error;

#[test]
fn url_encode_keeps_unreserved_bytes_only() {
    let mut hash = [0u8; 20];
    hash[0] = b'A';
    hash[1] = b'%';
    hash[2] = b'~';
    hash[3] = 0xd6;
    hash[4] = b' ';
    let encoded = url_encode(&hash);
    assert!(encoded.starts_with("A%25~%d6%20%00"));
    assert_eq!(encoded.len(), 1 + 3 + 1 + 3 + 3 + 15 * 3);
}

#[test]
fn tracker_parameters() {
    let t = Tracker::new(1000);
    assert_eq!(t.peer_id, "00112233445566778899");
    assert_eq!(t.port, 6881);
    assert_eq!(t.uploaded, 0);
    assert_eq!(t.downloaded, 0);
    assert_eq!(t.left, 1000);
    assert_eq!(t.compact, 1);
}

#[test]
fn compact_peers_in_response_order() {
    let mut body = b"d8:intervali60e5:peers12:".to_vec();
    body.extend_from_slice(&[192, 168, 0, 1, 0x1a, 0xe1, 10, 0, 0, 2, 0, 80]);
    body.push(b'e');
    assert_eq!(
        peers_from_response(&body),
        Ok(vec![
            PeerAddr {
                ip: [192, 168, 0, 1],
                port: 6881
            },
            PeerAddr {
                ip: [10, 0, 0, 2],
                port: 80
            },
        ])
    );
}

#[test]
fn unusable_responses_have_no_peers() {
    assert_eq!(peers_from_response(b"d5:peers5:abcdee"), Err(Error::NoPeers));
    assert_eq!(peers_from_response(b"d8:intervali60ee"), Err(Error::NoPeers));
    assert_eq!(peers_from_response(b"li1ee"), Err(Error::NoPeers));
    assert_eq!(peers_from_response(b"d5:peersi3ee"), Err(Error::NoPeers));
    assert_eq!(peers_from_response(b"x"), Err(Error::InvalidBencodeType(b'x')));
}
