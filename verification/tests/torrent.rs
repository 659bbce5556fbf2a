use aura_core::bencode::BValue;
use aura_core::hash::verify_piece;
use aura_core::torrent::{File, Info, Torrent};

fn dict(entries: Vec<(&[u8], BValue)>) -> BValue {
    BValue::Dict(entries.into_iter().map(|(k, v)| (k.to_vec(), v)).collect())
}

fn torrent_with(info: Info) -> Torrent {
    Torrent {
        announce: "http://tracker.com/announce".to_string(),
        info,
        announce_list: None,
        comment: None,
        created_by: None,
        creation_date: None,
        piece_layers: None,
    }
}

fn v2_tree() -> BValue {
    let file1 = dict(vec![(b"", dict(vec![(b"length", BValue::Int(100)), (b"pieces root", BValue::Bytes(vec![1; 32]))]))]);
    let file2 = dict(vec![(b"", dict(vec![(b"length", BValue::Int(200)), (b"pieces root", BValue::Bytes(vec![2; 32]))]))]);
    let dir2 = dict(vec![(b"file2.txt", file2)]);
    let dir1 = dict(vec![(b"file1.txt", file1), (b"dir2", dir2)]);
    dict(vec![(b"dir1", dir1)])
}

#[test]
fn test_flatten_v2_files() {
    let info = Info {
        name: "test".to_string(),
        piece_length: 1024,
        pieces: None,
        length: None,
        files: None,
        meta_version: Some(2),
        file_tree: Some(v2_tree()),
    };
    let torrent = torrent_with(info);

    assert_eq!(torrent.total_length(), 300);

    let v2_files = torrent.flatten_v2_files().unwrap();
    assert_eq!(v2_files.len(), 2);

    let f1 = v2_files.iter().find(|f| f.path.last().unwrap() == "file1.txt").unwrap();
    assert_eq!(f1.path, vec!["dir1".to_string(), "file1.txt".to_string()]);
    assert_eq!(f1.length, 100);
    assert_eq!(f1.pieces_root.as_ref().unwrap(), &vec![1; 32]);

    let f2 = v2_files.iter().find(|f| f.path.last().unwrap() == "file2.txt").unwrap();
    assert_eq!(f2.path, vec!["dir1".to_string(), "dir2".to_string(), "file2.txt".to_string()]);
    assert_eq!(f2.length, 200);
    assert_eq!(f2.pieces_root.as_ref().unwrap(), &vec![2; 32]);
}

#[test]
fn v2_piece_count_and_hashes() {
    let info = Info {
        name: "test".to_string(),
        piece_length: 64,
        pieces: None,
        length: None,
        files: None,
        meta_version: Some(2),
        file_tree: Some(v2_tree()),
    };
    let mut torrent = torrent_with(info);
    // file1: 100 bytes -> 2 pieces, file2: 200 bytes -> 4 pieces
    assert_eq!(torrent.pieces_count(), 6);
    let mut layer1 = vec![0u8; 64];
    layer1[32..].copy_from_slice(&[9u8; 32]);
    torrent.piece_layers = Some(BValue::Dict(vec![(vec![1; 32], BValue::Bytes(layer1))]));
    assert_eq!(torrent.piece_hash_v2(1).unwrap(), [9u8; 32]);
    match torrent.piece_hash_v2(2) {
        Err(aura_core::Error::Protocol(m)) => assert_eq!(m, "Missing piece layer for file"),
        _ => panic!("expected a missing layer"),
    }
    match torrent.piece_hash_v2(6) {
        Err(aura_core::Error::Protocol(m)) => assert_eq!(m, "Piece index out of range for v2"),
        _ => panic!("expected an out of range index"),
    }
}

#[test]
fn single_piece_v2_file_hash_is_its_root() {
    let info = Info {
        name: "one".to_string(),
        piece_length: 1024,
        pieces: None,
        length: None,
        files: None,
        meta_version: Some(2),
        file_tree: Some(v2_tree()),
    };
    let torrent = torrent_with(info);
    assert_eq!(torrent.pieces_count(), 2);
    assert_eq!(torrent.piece_hash_v2(0).unwrap(), [1u8; 32]);
    assert_eq!(torrent.piece_hash_v2(1).unwrap(), [2u8; 32]);
}

#[test]
fn v1_lengths_pieces_and_hashes() {
    let mut pieces = vec![0u8; 40];
    pieces[20..].copy_from_slice(&[5u8; 20]);
    let info = Info {
        name: "multi".to_string(),
        piece_length: 16,
        pieces: Some(pieces),
        length: None,
        files: Some(vec![File { length: 10, path: vec!["a".to_string()] }, File { length: 20, path: vec!["b".to_string()] }]),
        meta_version: None,
        file_tree: None,
    };
    let torrent = torrent_with(info);
    assert_eq!(torrent.total_length(), 30);
    assert_eq!(torrent.pieces_count(), 2);
    assert_eq!(torrent.piece_hash_v1(1).unwrap(), [5u8; 20]);
    match torrent.piece_hash_v1(2) {
        Err(aura_core::Error::Protocol(m)) => assert_eq!(m, "Piece index out of range"),
        _ => panic!("expected an out of range index"),
    }
    match torrent.piece_hash_v1(usize::MAX) {
        Err(aura_core::Error::Protocol(m)) => assert_eq!(m, "Piece index out of range"),
        _ => panic!("expected an out of range index"),
    }
    match torrent.piece_hash_v2(0) {
        Err(aura_core::Error::Protocol(m)) => assert_eq!(m, "Not a v2 torrent"),
        _ => panic!("expected a v1 torrent"),
    }
}

#[test]
fn info_hashes_digest_the_info_bytes() {
    let info = Info {
        name: "x".to_string(),
        piece_length: 16,
        pieces: Some(vec![0u8; 20]),
        length: Some(16),
        files: None,
        meta_version: None,
        file_tree: None,
    };
    let torrent = torrent_with(info);
    let h = torrent.info_hash_v1(b"abc").unwrap();
    assert_eq!(
        h,
        [0xa9, 0x99, 0x3e, 0x36, 0x47, 0x06, 0x81, 0x6a, 0xba, 0x3e, 0x25, 0x71, 0x78, 0x50, 0xc2, 0x6c, 0x9c, 0xd0, 0xd8, 0x9d]
    );
    assert!(torrent.info_hash_v2(b"abc").is_none());
    assert!(verify_piece(b"abc", &h));
    assert!(!verify_piece(b"abd", &h));
}

#[test]
fn v2_info_hash_is_sha256() {
    let info = Info {
        name: "x".to_string(),
        piece_length: 16,
        pieces: None,
        length: None,
        files: None,
        meta_version: Some(2),
        file_tree: None,
    };
    let torrent = torrent_with(info);
    assert!(torrent.info_hash_v1(b"abc").is_none());
    let h = torrent.info_hash_v2(b"abc").unwrap();
    assert_eq!(&h[..4], &[0xba, 0x78, 0x16, 0xbf]);
    assert_eq!(torrent.flatten_v2_files().is_none(), true);
    match torrent.piece_hash_v2(0) {
        Err(aura_core::Error::Protocol(m)) => assert_eq!(m, "No v2 files found"),
        _ => panic!("expected no files"),
    }
}
