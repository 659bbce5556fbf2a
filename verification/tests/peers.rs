use aura_core::bitfield::Bitfield;
use aura_core::bt_task::{peer_address, peer_id_or_zero, BtTaskState, MAX_ACTIVE_PEERS};
use aura_core::peer_registry::{ConnectionState, PeerRegistry};
use aura_core::piece_picker::PiecePicker;
use aura_core::torrent::{Info, Torrent};
use aura_core::tracker::Peer;

fn three_piece_torrent() -> Torrent {
    Torrent {
        announce: "http://tracker.com/announce".to_string(),
        info: Info {
            name: "three.bin".to_string(),
            piece_length: 16384,
            pieces: Some(vec![0u8; 60]),
            length: Some(40000),
            files: None,
            meta_version: None,
            file_tree: None,
        },
        announce_list: None,
        comment: None,
        created_by: None,
        creation_date: None,
        piece_layers: None,
    }
}

fn peer(ip: &str, port: u16) -> Peer {
    Peer { id: None, ip: ip.to_string(), port }
}

#[test]
fn test_peer_registry_basics() {
    let mut registry = PeerRegistry::new();
    let p1 = peer("1.1.1.1", 80);
    let p2 = peer("2.2.2.2", 80);

    registry.add_peers(vec![p1, p2]);
    assert_eq!(registry.peer_count(), 2);

    let to_connect = registry.get_peer_to_connect().unwrap();
    assert!(to_connect.ip == "1.1.1.1" || to_connect.ip == "2.2.2.2");

    registry.update_state("1.1.1.1:80", ConnectionState::Connecting);
    let to_connect2 = registry.get_peer_to_connect().unwrap();
    assert_eq!(to_connect2.ip, "2.2.2.2");
}

#[test]
fn registry_skips_known_addresses() {
    let mut registry = PeerRegistry::new();
    let added = registry.add_peers(vec![peer("1.1.1.1", 80), peer("1.1.1.1", 80), peer("1.1.1.1", 81)]);
    assert_eq!(added, 2);
    assert_eq!(registry.peer_count(), 2);
    let again = registry.add_peers(vec![peer("1.1.1.1", 81)]);
    assert_eq!(again, 0);
    assert_eq!(registry.peer_count(), 2);
}

#[test]
fn registry_has_nobody_to_connect_once_all_are_busy() {
    let mut registry = PeerRegistry::new();
    assert!(registry.get_peer_to_connect().is_none());
    registry.add_peers(vec![peer("10.0.0.1", 6881)]);
    registry.update_state("10.0.0.1:6881", ConnectionState::Connected);
    assert!(registry.get_peer_to_connect().is_none());
    registry.update_state("10.0.0.1:6881", ConnectionState::Disconnected);
    assert_eq!(registry.get_peer_to_connect().unwrap().port, 6881);
    // An unknown address changes nothing.
    registry.update_state("9.9.9.9:1", ConnectionState::Connecting);
    assert_eq!(registry.peer_count(), 1);
}

#[test]
fn test_rarest_first_selection() {
    let mut picker = PiecePicker::new(5);
    let my_bf = Bitfield::new(5);

    let mut bf_a = Bitfield::new(5);
    bf_a.set(0, true);
    bf_a.set(1, true);
    bf_a.set(2, true);
    picker.add_peer_bitfield("1.1.1.1:80".to_string(), bf_a);

    let mut bf_b = Bitfield::new(5);
    bf_b.set(0, true);
    bf_b.set(3, true);
    picker.add_peer_bitfield("2.2.2.2:80".to_string(), bf_b);

    let picked = picker.pick_next(&my_bf, "1.1.1.1:80").expect("Should pick a piece");
    assert!(picked == 1 || picked == 2);

    let mut my_bf_updated = my_bf.clone();
    my_bf_updated.set(1, true);
    let picked2 = picker
        .pick_next(&my_bf_updated, "1.1.1.1:80")
        .expect("Should pick another piece");
    assert_eq!(picked2, 2);
}

#[test]
fn rarest_pieces_lists_all_the_rarest() {
    let mut picker = PiecePicker::new(4);
    let mut a = Bitfield::new(4);
    a.set(0, true);
    a.set(1, true);
    a.set(2, true);
    picker.add_peer_bitfield("a".to_string(), a);
    let mut b = Bitfield::new(4);
    b.set(0, true);
    picker.add_peer_bitfield("b".to_string(), b);
    let mine = Bitfield::new(4);
    assert_eq!(picker.rarest_pieces(&mine, "a"), Some(vec![1, 2]));
    // Pieces under way are not offered.
    picker.mark_in_progress(1);
    assert_eq!(picker.rarest_pieces(&mine, "a"), Some(vec![2]));
    picker.release_piece(1);
    assert_eq!(picker.rarest_pieces(&mine, "a"), Some(vec![1, 2]));
    // A peer that is not known has nothing to offer.
    assert_eq!(picker.rarest_pieces(&mine, "c"), None);
    assert_eq!(picker.pick_next(&mine, "c"), None);
    // Once the peer is gone, its pieces no longer count.
    picker.remove_peer("a");
    assert_eq!(picker.pick_next(&mine, "a"), None);
    assert_eq!(picker.pick_next(&mine, "b"), Some(0));
}

#[test]
fn pieces_under_way_are_skipped_until_released() {
    let mut picker = PiecePicker::new(2);
    let mut a = Bitfield::new(2);
    a.set(0, true);
    a.set(1, true);
    picker.add_peer_bitfield("a".to_string(), a);
    let mine = Bitfield::new(2);
    picker.mark_in_progress(0);
    assert_eq!(picker.pick_next(&mine, "a"), Some(1));
    // Marking a piece completed only ends its time under way; the pieces
    // we hold are those of our own bitfield.
    picker.mark_completed(0);
    let mut holding_one = Bitfield::new(2);
    holding_one.set(1, true);
    assert_eq!(picker.pick_next(&holding_one, "a"), Some(0));
    let mut holding_both = Bitfield::new(2);
    holding_both.set(0, true);
    holding_both.set(1, true);
    assert_eq!(picker.pick_next(&holding_both, "a"), None);
    assert!(picker.pick_next(&mine, "a").is_some());
}

#[test]
fn swarm_addresses_and_ids() {
    assert_eq!(peer_address(&peer("127.0.0.1", 6881)), "127.0.0.1:6881");
    assert_eq!(peer_id_or_zero(&None), [0u8; 20]);
    assert_eq!(peer_id_or_zero(&Some(vec![7u8; 20])), [7u8; 20]);
    assert_eq!(peer_id_or_zero(&Some(vec![7u8; 3])), [0u8; 20]);
    assert_eq!(MAX_ACTIVE_PEERS, 50);
}

#[test]
fn swarm_restore_and_pick_work() {
    let mut swarm = BtTaskState::new(three_piece_torrent());
    assert_eq!(swarm.bitfield.len(), 3);
    assert!(swarm.pick_work().is_none());
    let mut saved = Bitfield::new(3);
    saved.set(0, true);
    swarm.restore(saved);
    assert!(swarm.bitfield.get(0));
    assert!(!swarm.bitfield.get(1));
    swarm.registry.add_peers(vec![peer("1.2.3.4", 80)]);
    let mut theirs = Bitfield::new(3);
    theirs.set(0, true);
    theirs.set(1, true);
    swarm.picker.add_peer_bitfield("1.2.3.4:80".to_string(), theirs);
    let (piece, p) = swarm.pick_work().unwrap();
    assert_eq!(p.ip, "1.2.3.4");
    assert_eq!(piece, Some(1));
}

#[test]
fn picker_tracks_the_pieces_it_was_made_for() {
    let picker = PiecePicker::new(12);
    assert_eq!(picker.num_pieces, 12);
    assert_eq!(picker.piece_count(), 12);
}
