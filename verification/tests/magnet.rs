use aura_core::magnet::Magnet;

#[test]
fn test_parse_magnet() {
    let uri = "magnet:?xt=urn:btih:d2474436908143d52cdeee8d4c96510d3301cdc4&dn=Ubuntu&tr=http://tracker.com/announce";
    let magnet = Magnet::parse(uri).unwrap();

    assert_eq!(magnet.name, Some("Ubuntu".to_string()));
    assert_eq!(magnet.trackers.len(), 1);
    assert_eq!(magnet.trackers[0], "http://tracker.com/announce");
    assert_eq!(magnet.info_hash[0], 0xd2);
}

#[test]
fn magnet_errors() {
    match Magnet::parse("http://example.com/?xt=urn:btih:00") {
        Err(aura_core::Error::Protocol(m)) => assert_eq!(m, "Not a magnet URI"),
        _ => panic!("expected a scheme error"),
    }
    match Magnet::parse("magnet:?dn=x") {
        Err(aura_core::Error::Protocol(m)) => assert_eq!(m, "Missing xt (info_hash) in magnet URI"),
        _ => panic!("expected a missing hash"),
    }
    match Magnet::parse("magnet:?xt=urn:btih:zz474436908143d52cdeee8d4c96510d3301cdc4") {
        Err(aura_core::Error::Protocol(m)) => assert_eq!(m, "Invalid hex in info_hash"),
        _ => panic!("expected bad hex"),
    }
    match Magnet::parse("no scheme here") {
        Err(aura_core::Error::Protocol(m)) => assert!(m.starts_with("Invalid Magnet URI: ")),
        _ => panic!("expected a parse error"),
    }
}

#[test]
fn magnet_short_hash_is_skipped_and_trackers_accumulate() {
    let uri = "magnet:?xt=urn:btih:abcd&xt=urn:btih:0102030405060708090a0b0c0d0e0f1011121314&tr=a&tr=b&dn=one&dn=two";
    let m = Magnet::parse(uri).unwrap();
    assert_eq!(m.info_hash[0], 1);
    assert_eq!(m.info_hash[19], 0x14);
    assert_eq!(m.trackers, vec!["a".to_string(), "b".to_string()]);
    assert_eq!(m.name, Some("two".to_string()));
    let upper = Magnet::parse("magnet:?xt=urn:btih:D2474436908143D52CDEEE8D4C96510D3301CDC4").unwrap();
    assert_eq!(upper.info_hash[0], 0xd2);
    assert!(upper.name.is_none());
}

#[test]
fn magnet_from_parts_matches_parse() {
    let pairs = vec![
        ("xt".to_string(), "urn:btih:ffffffffffffffffffffffffffffffffffffffff".to_string()),
        ("tr".to_string(), "udp://t:1".to_string()),
    ];
    let m = Magnet::from_parts("magnet", &pairs).unwrap();
    assert_eq!(m.info_hash, [0xff; 20]);
    assert_eq!(m.trackers, vec!["udp://t:1".to_string()]);
}

#[test]
fn magnet_hash_round_trips_through_hex() {
    let hash: Vec<u8> = (0u8..20).map(|i| i.wrapping_mul(37).wrapping_add(5)).collect();
    let hex: String = hash.iter().map(|b| format!("{:02x}", b)).collect();
    let m = Magnet::parse(&format!("magnet:?xt=urn:btih:{}", hex)).unwrap();
    assert_eq!(m.info_hash.to_vec(), hash);
    let upper = Magnet::parse(&format!("magnet:?xt=urn:btih:{}", hex.to_uppercase())).unwrap();
    assert_eq!(upper.info_hash.to_vec(), hash);
}
