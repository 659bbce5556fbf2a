use aura_core::tracker::udp_tracker_endpoint;
use aura_core::tracker::{udp_announce_step, udp_connect_step, udp_timeout_secs, UdpNext, UdpTry};
use aura_core::Error;
use aura_core::bencode::BValue;
use aura_core::tracker::{
    announce_order, announce_url, build_announce_request, build_connect_request, is_udp_tracker, merge_announces,
    parse_announce_body, parse_announce_response, parse_compact_peers_raw, parse_connect_response, parse_peers,
    parse_tracker_response, percent_encode, tracker_urls, Peer,
};

#[test]
fn test_parse_compact_peers() {
    let bytes = vec![127, 0, 0, 1, 0x1a, 0xe1];
    let peers = parse_compact_peers_raw(&bytes).unwrap();
    assert_eq!(peers.len(), 1);
    assert_eq!(peers[0].ip, "127.0.0.1");
    assert_eq!(peers[0].port, 6881);
}

#[test]
fn test_parse_non_compact_peers() {
    let peer_dict = vec![
        (b"ip".to_vec(), BValue::Bytes(b"127.0.0.1".to_vec())),
        (b"port".to_vec(), BValue::Int(6881)),
    ];
    let peers_val = BValue::List(vec![BValue::Dict(peer_dict)]);
    let peers = parse_peers(&peers_val).unwrap();
    assert_eq!(peers.len(), 1);
    assert_eq!(peers[0].ip, "127.0.0.1");
    assert_eq!(peers[0].port, 6881);
}

#[test]
fn tracker_failure_and_missing_peers() {
    let failing = BValue::Dict(vec![(b"failure reason".to_vec(), BValue::Bytes(b"banned".to_vec()))]);
    match parse_tracker_response(&failing) {
        Err(aura_core::Error::Protocol(m)) => assert_eq!(m, "Tracker reported failure: banned"),
        _ => panic!("expected a failure"),
    }
    let empty = BValue::Dict(vec![]);
    assert!(parse_tracker_response(&empty).is_err());
    let body = b"d5:peers6:\x7f\x00\x00\x01\x1a\xe1e";
    let peers = parse_announce_body(body).unwrap();
    assert_eq!(peers.len(), 1);
    assert_eq!(peers[0].port, 6881);
}

#[test]
fn udp_connect_round_trip() {
    let req = build_connect_request(7);
    assert_eq!(req, vec![0, 0, 4, 0x17, 0x27, 0x10, 0x19, 0x80, 0, 0, 0, 0, 0, 0, 0, 7]);
    let mut reply = vec![0, 0, 0, 0, 0, 0, 0, 7];
    reply.extend_from_slice(&[1, 2, 3, 4, 5, 6, 7, 8]);
    assert_eq!(parse_connect_response(&reply, 7).unwrap(), Some(0x0102030405060708));
    assert_eq!(parse_connect_response(&reply, 8).unwrap(), None);
    assert!(parse_connect_response(&reply[..10], 7).is_err());
}

#[test]
fn udp_announce_round_trip() {
    let req = build_announce_request(0x11, 9, &[1; 20], &[2; 20], 1000, 0xdeadbeef, 6881);
    assert_eq!(req.len(), 98);
    assert_eq!(&req[8..12], &[0, 0, 0, 1]);
    assert_eq!(&req[96..98], &[0x1a, 0xe1]);
    let mut reply = vec![0, 0, 0, 1, 0, 0, 0, 9, 0, 0, 0, 60, 0, 0, 0, 1, 0, 0, 0, 2];
    reply.extend_from_slice(&[10, 0, 0, 2, 0, 80]);
    let peers = parse_announce_response(&reply, 9).unwrap().unwrap();
    assert_eq!(peers.len(), 1);
    assert_eq!(peers[0].ip, "10.0.0.2");
    let mut err = vec![0, 0, 0, 3, 0, 0, 0, 9, 0, 0, 0, 0, 0, 0, 0, 0];
    err.extend_from_slice(b"bad!");
    match parse_announce_response(&err, 9) {
        Err(aura_core::Error::Protocol(m)) => assert_eq!(m, "UDP tracker error: \u{0}\u{0}\u{0}\u{0}\u{0}\u{0}\u{0}\u{0}bad!"),
        _ => panic!("expected a tracker error"),
    }
}

#[test]
fn tracker_list_keeps_first_occurrences() {
    let list = Some(vec![
        vec!["udp://a:1".to_string(), "http://main/announce".to_string()],
        vec!["udp://a:1".to_string(), "http://b/announce".to_string()],
    ]);
    let urls = tracker_urls(&"http://main/announce".to_string(), &list);
    assert_eq!(urls, vec!["http://main/announce", "udp://a:1", "http://b/announce"]);
    let mut shuffled = announce_order(&"http://main/announce".to_string(), &list);
    shuffled.sort();
    let mut sorted = urls.clone();
    sorted.sort();
    assert_eq!(shuffled, sorted);
    assert!(is_udp_tracker("udp://tracker:80"));
    assert!(!is_udp_tracker("http://udp://"));
    assert!(!is_udp_tracker("udp:"));
}

#[test]
fn http_announce_url() {
    assert_eq!(percent_encode(&[0x00, 0xab, 0x7f]), "%00%ab%7f");
    let url = announce_url("http://t.example/announce?key=1", 6881, 300, &[0xff; 20], &[0x41; 20]).unwrap();
    assert!(url.starts_with("http://t.example/announce?key=1&port=6881&uploaded=0&downloaded=0&left=300&compact=1&event=started&info_hash=%ff%ff"));
    assert!(url.ends_with("&peer_id=%41%41%41%41%41%41%41%41%41%41%41%41%41%41%41%41%41%41%41%41"));
    match announce_url("not a url", 1, 0, &[0; 20], &[0; 20]) {
        Err(aura_core::Error::Protocol(m)) => assert!(m.starts_with("Invalid tracker URL: ")),
        _ => panic!("expected an invalid URL"),
    }
}

#[test]
fn merged_announces() {
    let p = |ip: &str| Peer { id: None, ip: ip.to_string(), port: 1 };
    let results = vec![Ok(vec![p("1.1.1.1")]), Err(aura_core::Error::Protocol("x".to_string())), Ok(vec![p("2.2.2.2"), p("3.3.3.3")])];
    let all = merge_announces(results).unwrap();
    let ips: Vec<String> = all.iter().map(|x| x.ip.clone()).collect();
    assert_eq!(ips, vec!["1.1.1.1", "2.2.2.2", "3.3.3.3"]);
    match merge_announces(vec![Err(aura_core::Error::Protocol("x".to_string()))]) {
        Err(aura_core::Error::Protocol(m)) => assert_eq!(m, "All tracker announces failed"),
        _ => panic!("expected failure"),
    }
}

#[test]
fn udp_tracker_endpoints() {
    assert_eq!(udp_tracker_endpoint("udp://tracker.example.org:1337/announce").unwrap(), ("tracker.example.org".to_string(), 1337));
    match udp_tracker_endpoint("udp://tracker.example.org/announce") {
        Err(Error::Protocol(m)) => assert_eq!(m, "Missing port in UDP tracker URL"),
        _ => panic!("expected a missing port error"),
    }
    match udp_tracker_endpoint("udp:relative") {
        Err(Error::Protocol(m)) => assert_eq!(m, "Missing host in UDP tracker URL"),
        _ => panic!("expected a missing host error"),
    }
    match udp_tracker_endpoint("::") {
        Err(Error::Protocol(m)) => assert!(m.starts_with("Invalid UDP tracker URL: ")),
        _ => panic!("expected an invalid URL error"),
    }
}

#[test]
fn announce_replies_read_the_same_in_any_key_order() {
    let sorted = b"d8:intervali1800e5:peers6:\x7f\x00\x00\x01\x1a\xe1e";
    let unsorted = b"d5:peers6:\x7f\x00\x00\x01\x1a\xe18:intervali1800ee";
    let a = parse_announce_body(sorted).unwrap();
    let b = parse_announce_body(unsorted).unwrap();
    assert_eq!(a.len(), 1);
    assert_eq!(b.len(), 1);
    assert_eq!((a[0].ip.as_str(), a[0].port), ("127.0.0.1", 6881));
    assert_eq!((b[0].ip.as_str(), b[0].port), ("127.0.0.1", 6881));
    match parse_announce_body(b"not bencode") {
        Err(Error::Protocol(m)) => assert!(m.starts_with("Failed to bdecode tracker response: ")),
        _ => panic!("expected a decoding error"),
    }
}

#[test]
fn udp_tries_wait_five_ten_twenty_seconds() {
    assert_eq!(udp_timeout_secs(0), 5);
    assert_eq!(udp_timeout_secs(1), 10);
    assert_eq!(udp_timeout_secs(2), 20);
}

#[test]
fn udp_connect_steps() {
    let t = UdpTry { attempt: 0, transaction_id: 7 };
    // The matching reply gives the connection id.
    let mut ok = vec![0, 0, 0, 0, 0, 0, 0, 7];
    ok.extend_from_slice(&0x0102030405060708u64.to_be_bytes());
    match udp_connect_step(&t, Some(&ok), 9) {
        Ok(UdpNext::Done(cid)) => assert_eq!(cid, 0x0102030405060708),
        _ => panic!("expected the connection id"),
    }
    // A reply to another request: the same request again.
    let mut other = ok.clone();
    other[7] = 8;
    match udp_connect_step(&t, Some(&other), 9) {
        Ok(UdpNext::Retry(n)) => assert_eq!(n, UdpTry { attempt: 1, transaction_id: 7 }),
        _ => panic!("expected a retry"),
    }
    // No reply: a fresh transaction id.
    match udp_connect_step(&t, None, 9) {
        Ok(UdpNext::Retry(n)) => assert_eq!(n, UdpTry { attempt: 1, transaction_id: 9 }),
        _ => panic!("expected a retry"),
    }
    // The last try spent.
    let last = UdpTry { attempt: 2, transaction_id: 7 };
    match udp_connect_step(&last, None, 9) {
        Err(Error::Protocol(m)) => assert_eq!(m, "UDP connect failed after retries"),
        _ => panic!("expected the exchange to fail"),
    }
    // A short reply is an error.
    match udp_connect_step(&t, Some(&[0u8; 4]), 9) {
        Err(Error::Protocol(m)) => assert_eq!(m, "UDP connect response too short"),
        _ => panic!("expected an error"),
    }
}

#[test]
fn udp_announce_steps() {
    let t = UdpTry { attempt: 1, transaction_id: 5 };
    let mut ok = vec![0, 0, 0, 1, 0, 0, 0, 5, 0, 0, 0, 60, 0, 0, 0, 0, 0, 0, 0, 1];
    ok.extend_from_slice(&[10, 0, 0, 1, 0x1a, 0xe1]);
    match udp_announce_step(&t, Some(&ok)) {
        Ok(UdpNext::Done(peers)) => {
            assert_eq!(peers.len(), 1);
            assert_eq!(peers[0].ip, "10.0.0.1");
            assert_eq!(peers[0].port, 6881);
        }
        _ => panic!("expected peers"),
    }
    match udp_announce_step(&t, None) {
        Ok(UdpNext::Retry(n)) => assert_eq!(n, UdpTry { attempt: 2, transaction_id: 5 }),
        _ => panic!("expected a retry"),
    }
    let mut err = vec![0, 0, 0, 3, 0, 0, 0, 5];
    err.extend_from_slice(b"denied, and more text");
    match udp_announce_step(&t, Some(&err)) {
        Err(Error::Protocol(m)) => assert_eq!(m, "UDP tracker error: denied, and more text"),
        _ => panic!("expected the tracker's error"),
    }
    match udp_announce_step(&UdpTry { attempt: 2, transaction_id: 5 }, None) {
        Err(Error::Protocol(m)) => assert_eq!(m, "UDP announce failed after retries"),
        _ => panic!("expected the exchange to fail"),
    }
}
