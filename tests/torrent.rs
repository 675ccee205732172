use bittorrent::decoder::decode_bencode;
use bittorrent::torrent::{Torrent, TorrentInfo};
use bittorrent::Error;
use sha1::Digest;

fn document(length: i64, piece_length: i64, pieces: &[u8], info_first: bool) -> Vec<u8> {
    let announce = b"8:announce21:http://tracker.test/a".to_vec();
    let mut info = format!(
        "4:infod6:lengthi{}e4:name8:file.bin12:piece lengthi{}e6:pieces{}:",
        length,
        piece_length,
        pieces.len()
    )
    .into_bytes();
    info.extend_from_slice(pieces);
    info.push(b'e');
    let mut doc = vec![b'd'];
    if info_first {
        doc.extend_from_slice(&info);
        doc.extend_from_slice(&announce);
    } else {
        doc.extend_from_slice(&announce);
        doc.extend_from_slice(&info);
    }
    doc.push(b'e');
    doc
}

fn sample_pieces(n: usize) -> Vec<u8> {
    (0..20 * n).map(|i| (i * 7 % 256) as u8).collect()
}

fn load(doc: &[u8]) -> Result<Torrent, Error> {
    Torrent::from_bencode(decode_bencode(doc).unwrap())
}

#[test]
fn reads_all_fields() {
    let pieces = sample_pieces(2);
    let t = load(&document(1000, 512, &pieces, false)).unwrap();
    assert_eq!(t.announce, "http://tracker.test/a");
    assert_eq!(t.info.length, 1000);
    assert_eq!(t.info.name, "file.bin");
    assert_eq!(t.info.piece_length, 512);
    assert_eq!(t.info.pieces, pieces);
}

#[test]
fn missing_or_mistyped_fields_are_named() {
    let missing = |doc: &[u8]| match load(doc) {
        Err(Error::MissingField(f)) => f,
        _ => panic!("expected a missing field"),
    };
    assert_eq!(missing(b"de"), "announce");
    assert_eq!(missing(b"i3e"), "announce");
    assert_eq!(missing(b"d8:announce1:ae"), "info");
    assert_eq!(missing(b"d8:announce1:a4:infoi1ee"), "info");
    assert_eq!(missing(b"d8:announce1:a4:infod4:name1:xee"), "length");
    assert_eq!(missing(b"d8:announce1:a4:infod6:lengthi-1eee"), "length");
    assert_eq!(missing(b"d8:announce1:a4:infod6:lengthi1eee"), "name");
    assert_eq!(
        missing(b"d8:announce1:a4:infod6:lengthi1e4:name1:x12:piece lengthi0eee"),
        "piece length"
    );
    assert_eq!(
        missing(b"d8:announce1:a4:infod6:lengthi1e4:name1:x12:piece lengthi1e6:pieces3:abcee"),
        "pieces"
    );
    let bad_text = [
        b"d8:announce1:".as_slice(),
        &[0xff],
        b"4:infod6:lengthi1eee",
    ]
    .concat();
    assert_eq!(missing(&bad_text), "announce");
}

#[test]
fn last_piece_sizing() {
    let exact = Torrent {
        announce: String::new(),
        info: TorrentInfo {
            length: 1024,
            name: String::new(),
            piece_length: 512,
            pieces: sample_pieces(2),
        },
    };
    assert_eq!(exact.num_pieces(), 2);
    assert_eq!(exact.piece_size(0), 512);
    assert_eq!(exact.piece_size(1), 512);
    let short = Torrent {
        announce: String::new(),
        info: TorrentInfo {
            length: 1000,
            name: String::new(),
            piece_length: 512,
            pieces: sample_pieces(2),
        },
    };
    assert_eq!(short.num_pieces(), 2);
    assert_eq!(short.piece_size(0), 512);
    assert_eq!(short.piece_size(1), 488);
}

#[test]
fn info_hash_is_sha1_of_the_canonical_info_dictionary() {
    let pieces = sample_pieces(2);
    let t = load(&document(1000, 512, &pieces, false)).unwrap();
    let mut canonical =
        b"d6:lengthi1000e4:name8:file.bin12:piece lengthi512e6:pieces40:".to_vec();
    canonical.extend_from_slice(&pieces);
    canonical.push(b'e');
    let expected: [u8; 20] = sha1::Sha1::digest(&canonical).into();
    assert_eq!(t.info_hash(), Ok(expected));
    assert_eq!(t.info_hash_hex(), hex::encode(expected));
}

#[test]
fn info_hash_is_deterministic_and_ignores_field_order() {
    let pieces = sample_pieces(2);
    let a = load(&document(1000, 512, &pieces, false)).unwrap();
    let b = load(&document(1000, 512, &pieces, true)).unwrap();
    assert_eq!(a.info_hash(), a.info_hash());
    assert_eq!(a.info_hash(), b.info_hash());
    let reordered = load(
        &[
            b"d4:infod6:pieces20:".as_slice(),
            &pieces[..20],
            b"12:piece lengthi512e4:name1:x6:lengthi10ee8:announce1:ae",
        ]
        .concat(),
    )
    .unwrap();
    let sorted = load(
        &[
            b"d8:announce1:a4:infod6:lengthi10e4:name1:x12:piece lengthi512e6:pieces20:"
                .as_slice(),
            &pieces[..20],
            b"ee",
        ]
        .concat(),
    )
    .unwrap();
    assert_eq!(reordered.info_hash(), sorted.info_hash());
}

#[test]
fn piece_hashes_are_lowercase_hex_in_order() {
    let pieces = sample_pieces(2);
    let t = load(&document(1000, 512, &pieces, false)).unwrap();
    let hashes = t.piece_hashes();
    assert_eq!(hashes.len(), 2);
    assert_eq!(hashes[0], hex::encode(&pieces[..20]));
    assert_eq!(hashes[1], hex::encode(&pieces[20..]));
    assert_eq!(hashes[0], "00070e151c232a31383f464d545b626970777e85");
}
