use aura_core::bencode::BValue;
use aura_core::dht::{krpc_action, peers_from_values, KrpcAction, Node, RoutingTable};

#[test]
fn dht_test_node_id_distance() {
    let id1 = [0u8; 20];
    let id2 = [1u8; 20];
    let rt = RoutingTable::new(id1);
    assert!(rt.distance(&id2) > [0u8; 20]);
}

#[test]
fn dht_test_bucket_index() {
    let id1 = [0u8; 20];
    let mut id2 = [0u8; 20];
    let rt = RoutingTable::new(id1);

    id2[0] = 0b1000_0000;
    assert_eq!(rt.bucket_index(&id2), 0);

    id2[0] = 0b0100_0000;
    assert_eq!(rt.bucket_index(&id2), 1);

    id2[0] = 0;
    id2[1] = 0b1000_0000;
    assert_eq!(rt.bucket_index(&id2), 8);
}

#[test]
fn dht_test_get_closest_nodes() {
    let my_id = [0u8; 20];
    let mut rt = RoutingTable::new(my_id);
    for i in 1..10 {
        let mut id = [0u8; 20];
        id[19] = i as u8;
        rt.insert(Node { id, addr: "127.0.0.1:80".to_string() });
    }
    let target = [0u8; 20];
    let closest = rt.get_closest_nodes(&target, 5);
    assert_eq!(closest.len(), 5);
}

#[test]
fn routing_test_node_id_distance() {
    let id1 = [0u8; 20];
    let mut id2 = [0u8; 20];
    id2[19] = 1;
    let rt = RoutingTable::new(id1);
    let mut one = [0u8; 20];
    one[19] = 1;
    assert_eq!(rt.distance(&id2), one);
    let mut id3 = [0u8; 20];
    id3[18] = 1;
    assert!(rt.distance(&id3) > rt.distance(&id2));
}

#[test]
fn routing_test_bucket_index() {
    let id1 = [0u8; 20];
    let mut id2 = [0u8; 20];
    id2[0] = 0x80;
    let rt = RoutingTable::new(id1);
    assert_eq!(rt.bucket_index(&id2), 0);
    let mut id3 = [0u8; 20];
    id3[19] = 1;
    assert_eq!(rt.bucket_index(&id3), 159);
}

#[test]
fn routing_test_get_closest_nodes() {
    let my_id = [0u8; 20];
    let mut rt = RoutingTable::new(my_id);
    for i in 1..10 {
        let mut id = [0u8; 20];
        id[19] = i as u8;
        rt.insert(Node { id, addr: "127.0.0.1:80".to_string() });
    }
    let target = [0u8; 20];
    let closest = rt.get_closest_nodes(&target, 5);
    assert_eq!(closest.len(), 5);
}

#[test]
fn closest_nodes_come_nearest_first() {
    let mut rt = RoutingTable::new([0u8; 20]);
    for i in [9u8, 3, 7, 1, 5] {
        let mut id = [0u8; 20];
        id[19] = i;
        rt.insert(Node { id, addr: format!("10.0.0.{}:6881", i) });
    }
    let closest = rt.get_closest_nodes(&[0u8; 20], 3);
    let last: Vec<u8> = closest.iter().map(|n| n.id[19]).collect();
    assert_eq!(last, vec![1, 3, 5]);
    let all = rt.get_closest_nodes(&[0u8; 20], 50);
    assert_eq!(all.len(), 5);
}

#[test]
fn distance_covers_all_160_bits_and_is_symmetric() {
    let mut a = [0u8; 20];
    a[0] = 0xff;
    let rt = RoutingTable::new([0u8; 20]);
    assert_eq!(rt.distance(&a), a);
    assert!(rt.distance(&a) > [0u8; 20]);
    let mut b = [0u8; 20];
    b[19] = 0xff;
    // A difference in the leading byte outweighs any in the later ones.
    assert!(rt.distance(&a) > rt.distance(&b));
    let rt_b = RoutingTable::new(b);
    assert_eq!(rt_b.distance(&[0u8; 20]), rt.distance(&b));
    assert_eq!(rt.distance(&[0u8; 20]), [0u8; 20]);
}

#[test]
fn closest_nodes_order_by_the_leading_bytes_first() {
    let mut rt = RoutingTable::new([0xffu8; 20]);
    let mut far = [0u8; 20];
    far[0] = 0x01;
    let mut near = [0u8; 20];
    near[19] = 0x01;
    rt.insert(Node { id: far, addr: "10.0.0.1:1".to_string() });
    rt.insert(Node { id: near, addr: "10.0.0.2:1".to_string() });
    let closest = rt.get_closest_nodes(&[0u8; 20], 2);
    assert_eq!(closest[0].id, near);
    assert_eq!(closest[1].id, far);
}

#[test]
fn bucket_keeps_at_most_eight_nodes() {
    let mut rt = RoutingTable::new([0u8; 20]);
    for i in 0..20u8 {
        let mut id = [0u8; 20];
        id[0] = 0x80;
        id[19] = i;
        rt.insert(Node { id, addr: "127.0.0.1:1".to_string() });
    }
    assert_eq!(rt.buckets[0].nodes.len(), 8);
    assert_eq!(rt.buckets[0].nodes[0].id[19], 0);
}

#[test]
fn krpc_actions() {
    assert_eq!(krpc_action("q", Some("ping"), None), KrpcAction::Pong);
    assert_eq!(krpc_action("q", Some("find_node"), None), KrpcAction::Ignore);
    let id = [3u8; 20];
    assert_eq!(krpc_action("r", None, Some(&id)), KrpcAction::Deliver(Some(id)));
    assert_eq!(krpc_action("e", None, Some(&[1u8, 2])), KrpcAction::Deliver(None));
    assert_eq!(krpc_action("x", None, Some(&id)), KrpcAction::Ignore);
}

#[test]
fn get_peers_values_are_read_as_compact_addresses() {
    let values = vec![
        BValue::Bytes(vec![10, 0, 0, 1, 0x1a, 0xe1]),
        BValue::Bytes(vec![1, 2, 3]),
        BValue::Int(5),
        BValue::Bytes(vec![192, 168, 1, 2, 0, 80]),
    ];
    let peers = peers_from_values(&values);
    assert_eq!(peers.len(), 2);
    assert_eq!(peers[0].ip, "10.0.0.1");
    assert_eq!(peers[0].port, 6881);
    assert_eq!(peers[1].ip, "192.168.1.2");
    assert_eq!(peers[1].port, 80);
}
