use aura_core::protocol::{Handshake, PeerCodec, PeerMessage, HANDSHAKE_LEN};

#[test]
fn test_handshake_serialization() {
    let h1 = Handshake::new([1; 20], [2; 20]);
    let serialized = h1.serialize();
    let h2 = Handshake::deserialize(&serialized).unwrap();
    assert_eq!(h1, h2);
}

#[test]
fn test_message_serialization() {
    let msg = PeerMessage::Have(123);
    let serialized = msg.serialize();
    let msg2 = PeerMessage::deserialize(&serialized[4..]).unwrap();
    assert_eq!(msg, msg2);
}

#[test]
fn test_piece_message_serialization() {
    let block = vec![1u8, 2, 3, 4];
    let msg = PeerMessage::Piece { index: 10, begin: 20, block: block.clone() };
    let serialized = msg.serialize();
    let msg2 = PeerMessage::deserialize(&serialized[4..]).unwrap();
    if let PeerMessage::Piece { index, begin, block: block2 } = msg2 {
        assert_eq!(index, 10);
        assert_eq!(begin, 20);
        assert_eq!(block, block2);
    } else {
        panic!("Wrong message type");
    }
}

#[test]
fn handshake_wire_layout() {
    let h = Handshake::new([7; 20], [9; 20]);
    let bytes = h.serialize();
    assert_eq!(bytes.len(), HANDSHAKE_LEN);
    assert_eq!(bytes[0], 19);
    assert_eq!(&bytes[1..20], b"BitTorrent protocol");
    assert_eq!(&bytes[20..28], &[0u8; 8]);
    assert_eq!(&bytes[28..48], &[7u8; 20]);
    assert_eq!(&bytes[48..68], &[9u8; 20]);
}

#[test]
fn handshake_errors() {
    match Handshake::deserialize(&[19u8; 10]) {
        Err(aura_core::Error::Protocol(m)) => assert_eq!(m, "Handshake too short"),
        _ => panic!("expected a short handshake error"),
    }
    let mut bytes = Handshake::new([1; 20], [2; 20]).serialize();
    bytes[3] = b'X';
    match Handshake::deserialize(&bytes) {
        Err(aura_core::Error::Protocol(m)) => assert_eq!(m, "Invalid protocol string"),
        _ => panic!("expected a protocol string error"),
    }
}

#[test]
fn message_encodings() {
    assert_eq!(PeerMessage::KeepAlive.serialize(), vec![0, 0, 0, 0]);
    assert_eq!(PeerMessage::Choke.serialize(), vec![0, 0, 0, 1, 0]);
    assert_eq!(PeerMessage::Unchoke.serialize(), vec![0, 0, 0, 1, 1]);
    assert_eq!(PeerMessage::Have(258).serialize(), vec![0, 0, 0, 5, 4, 0, 0, 1, 2]);
    let req = PeerMessage::Request { index: 1, begin: 16384, length: 16384 };
    assert_eq!(req.serialize(), vec![0, 0, 0, 13, 6, 0, 0, 0, 1, 0, 0, 64, 0, 0, 0, 64, 0]);
    assert_eq!(PeerMessage::deserialize(&req.serialize()[4..]).unwrap(), req);
}

#[test]
fn codec_decodes_frames_one_at_a_time() {
    let mut codec = PeerCodec;
    let mut buf = Vec::new();
    codec.encode(PeerMessage::Interested, &mut buf).unwrap();
    codec.encode(PeerMessage::Have(5), &mut buf).unwrap();
    let mut partial: Vec<u8> = buf[..3].to_vec();
    assert_eq!(codec.decode(&mut partial).unwrap(), None);
    assert_eq!(partial.len(), 3);
    assert_eq!(codec.decode(&mut buf).unwrap(), Some(PeerMessage::Interested));
    assert_eq!(codec.decode(&mut buf).unwrap(), Some(PeerMessage::Have(5)));
    assert!(buf.is_empty());
    assert_eq!(codec.decode(&mut buf).unwrap(), None);
}
