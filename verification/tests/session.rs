use aura_core::bitfield::Bitfield;
use aura_core::peer_session::{Announce, PeerSession, SessionAction};
use aura_core::piece_picker::PiecePicker;
use aura_core::protocol::PeerMessage;
use aura_core::torrent::{Info, Torrent};
use sha1::{Digest, Sha1};

fn one_piece_torrent(data: &[u8]) -> Torrent {
    let mut h = Sha1::new();
    h.update(data);
    let digest = h.finalize().to_vec();
    Torrent {
        announce: "http://tracker.com/announce".to_string(),
        info: Info {
            name: "one.bin".to_string(),
            piece_length: data.len() as u64,
            pieces: Some(digest),
            length: Some(data.len() as u64),
            files: None,
            meta_version: None,
            file_tree: None,
        },
        announce_list: None,
        comment: None,
        created_by: None,
        creation_date: None,
        piece_layers: None,
    }
}

fn requests(actions: &[SessionAction]) -> Vec<(u32, u32, u32)> {
    actions
        .iter()
        .filter_map(|a| match a {
            SessionAction::Request { index, begin, length } => Some((*index, *begin, *length)),
            _ => None,
        })
        .collect()
}

#[test]
fn session_fetches_verifies_and_stores_a_piece() {
    let data: Vec<u8> = (0..20000u32).map(|i| (i % 251) as u8).collect();
    let torrent = one_piece_torrent(&data);
    let mut mine = Bitfield::new(1);
    let mut picker = PiecePicker::new(1);
    let mut theirs = Bitfield::new(1);
    theirs.set(0, true);
    picker.add_peer_bitfield("p".to_string(), theirs);

    let mut s = PeerSession::new(5);
    let first = s.trigger_request(&torrent, 1, 20000, 20000, &mut mine, &mut picker, "p").unwrap();
    assert_eq!(requests(&first), vec![(0, 0, 16384), (0, 16384, 3616)]);
    assert_eq!(s.current_piece, Some(0));
    assert_eq!(s.piece_buffer.len(), 20000);

    assert_eq!(s.on_block(0, 0, &data[..16384]), Some(16384));
    assert_eq!(s.on_block(7, 0, &data[..10]), None);
    assert_eq!(s.on_block(0, 16384, &data[16384..]), Some(3616));

    let done = s.trigger_request(&torrent, 1, 20000, 20000, &mut mine, &mut picker, "p").unwrap();
    assert_eq!(done.len(), 2);
    match &done[0] {
        SessionAction::Store { offset, length, data: stored } => {
            assert_eq!(*offset, 0);
            assert_eq!(*length, 20000);
            assert_eq!(stored, &data);
        }
        _ => panic!("expected a store"),
    }
    assert!(matches!(done[1], SessionAction::Verified(0)));
    assert!(mine.get(0));
    assert_eq!(s.current_piece, None);
}

#[test]
fn session_releases_a_corrupt_piece() {
    let data = vec![1u8; 100];
    let torrent = one_piece_torrent(&data);
    let mut mine = Bitfield::new(1);
    let mut picker = PiecePicker::new(1);
    let mut theirs = Bitfield::new(1);
    theirs.set(0, true);
    picker.add_peer_bitfield("p".to_string(), theirs);

    let mut s = PeerSession::new(2);
    let first = s.trigger_request(&torrent, 1, 100, 100, &mut mine, &mut picker, "p").unwrap();
    assert_eq!(requests(&first), vec![(0, 0, 100)]);
    s.on_block(0, 0, &vec![2u8; 100]);
    let again = s.trigger_request(&torrent, 1, 100, 100, &mut mine, &mut picker, "p").unwrap();
    // Nothing stored; the piece is picked again and asked for anew.
    assert_eq!(requests(&again), vec![(0, 0, 100)]);
    assert!(!mine.get(0));
    assert_eq!(s.current_piece, Some(0));
    assert_eq!(s.bytes_received, 0);
}

#[test]
fn session_cancel_force_and_close() {
    let mut s = PeerSession::new(4);
    assert!(s.force_piece(3));
    assert!(!s.force_piece(4));
    assert_eq!(s.current_piece, Some(3));
    assert!(!s.cancel_piece(2));
    assert!(s.cancel_piece(3));
    assert_eq!(s.current_piece, None);

    let mut picker = PiecePicker::new(4);
    let mut b = Bitfield::new(4);
    b.set(1, true);
    picker.add_peer_bitfield("q".to_string(), b);
    s.close(&mut picker, 16384, "q");
    let mine = Bitfield::new(4);
    assert_eq!(picker.pick_next(&mine, "q"), None);
}

#[test]
fn peer_messages_drive_the_session() {
    let mut picker = PiecePicker::new(10);
    let mut s = PeerSession::new(5);
    let mut choking = true;

    let r = s.handle_message(PeerMessage::Bitfield(vec![0b1010_0000]), &mut choking, false, 10, 100, &mut picker, "p");
    assert!(!r.advance);
    // A bitfield is reported, read for the ten pieces, and marks the peer handshaked.
    assert!(r.handshaked);
    match r.announced {
        Some(Announce::Bitfield(bf)) => {
            assert_eq!(bf.len(), 10);
            assert_eq!(bf.as_bytes(), vec![0b1010_0000, 0]);
        }
        _ => panic!("expected the bitfield to be reported"),
    }
    let mine = Bitfield::new(10);
    let first = picker.pick_next(&mine, "p").unwrap();
    assert!(first == 0 || first == 2);

    let r = s.handle_message(PeerMessage::Unchoke, &mut choking, false, 10, 100, &mut picker, "p");
    assert!(r.advance);
    assert!(!choking);
    assert!(r.announced.is_none() && !r.handshaked);

    // A have adds one piece to what the peer was known to hold.
    let r = s.handle_message(PeerMessage::Have(7), &mut choking, false, 10, 100, &mut picker, "p");
    assert!(r.advance);
    assert!(!r.handshaked);
    assert!(matches!(r.announced, Some(Announce::Have(7))));
    assert_eq!(picker.rarest_pieces(&mine, "p"), Some(vec![0, 2, 7]));
    let held = picker.peer_bitfield("p").unwrap();
    assert!(held.get(0) && held.get(2) && held.get(7));
    assert_eq!(held.count_set(), 3);
    // A have from a peer not yet known records that piece alone.
    s.handle_message(PeerMessage::Have(4), &mut choking, false, 10, 100, &mut picker, "q");
    assert_eq!(picker.rarest_pieces(&mine, "q"), Some(vec![4]));
    // A have past the last piece changes nothing.
    s.handle_message(PeerMessage::Have(99), &mut choking, false, 10, 100, &mut picker, "q");
    assert_eq!(picker.peer_bitfield("q").unwrap().count_set(), 1);

    let r = s.handle_message(PeerMessage::Request { index: 3, begin: 16, length: 8 }, &mut choking, false, 10, 100, &mut picker, "p");
    assert_eq!(r.serve, Some((3, 16, 316, 8)));
    let r = s.handle_message(PeerMessage::Request { index: 3, begin: 16, length: 8 }, &mut choking, true, 10, 100, &mut picker, "p");
    assert_eq!(r.serve, None);

    // A block of a piece that is not under way is ignored.
    let r = s.handle_message(PeerMessage::Piece { index: 1, begin: 0, block: vec![1, 2] }, &mut choking, false, 10, 100, &mut picker, "p");
    assert_eq!(r.downloaded, None);
    assert!(!r.advance);

    s.force_piece(1);
    s.piece_buffer = vec![0; 4];
    let r = s.handle_message(PeerMessage::Piece { index: 1, begin: 2, block: vec![9, 9] }, &mut choking, false, 10, 100, &mut picker, "p");
    assert_eq!(r.downloaded, Some(2));
    assert_eq!(s.piece_buffer, vec![0, 0, 9, 9]);

    let r = s.handle_message(PeerMessage::Choke, &mut choking, false, 10, 100, &mut picker, "p");
    assert!(choking);
    assert!(!r.advance);
}
