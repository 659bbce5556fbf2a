use aura_core::bitfield::Bitfield;

#[test]
fn test_bitfield_creation() {
    let bf = Bitfield::new(10);
    assert_eq!(bf.len(), 10);
    assert_eq!(bf.count_set(), 0);
    assert!(!bf.get(0));
}

#[test]
fn test_bitfield_set_get() {
    let mut bf = Bitfield::new(10);
    bf.set(5, true);
    assert!(bf.get(5));
    assert_eq!(bf.count_set(), 1);
    bf.set(5, false);
    assert!(!bf.get(5));
    assert_eq!(bf.count_set(), 0);
}

#[test]
fn test_bitfield_is_complete() {
    let mut bf = Bitfield::new(3);
    assert!(!bf.is_complete());
    bf.set(0, true);
    bf.set(1, true);
    bf.set(2, true);
    assert!(bf.is_complete());
}

#[test]
fn test_bitfield_serialization() {
    let mut bf = Bitfield::new(10);
    bf.set(0, true);
    bf.set(7, true);
    bf.set(8, true);

    let bytes = bf.as_bytes();
    assert_eq!(bytes.len(), 2);
    assert_eq!(bytes[0], 0b10000001);
    assert_eq!(bytes[1], 0b10000000);

    let bf2 = Bitfield::from_bytes(&bytes, 10);
    assert!(bf2.get(0));
    assert!(bf2.get(7));
    assert!(bf2.get(8));
    assert!(!bf2.get(1));
}

#[test]
fn bitfield_ignores_indices_past_the_end() {
    let mut bf = Bitfield::new(4);
    bf.set(4, true);
    bf.set(100, true);
    assert_eq!(bf.count_set(), 0);
    assert!(!bf.get(4));
    assert!(bf.is_empty() == false);
}

#[test]
fn bitfield_from_short_and_long_bytes() {
    let short = Bitfield::from_bytes(&[0xff], 12);
    assert_eq!(short.len(), 12);
    assert_eq!(short.count_set(), 8);
    assert!(!short.get(8));
    let long = Bitfield::from_bytes(&[0x00, 0xff, 0xff, 0xff], 12);
    assert_eq!(long.as_bytes(), vec![0x00, 0xff]);
    // Only pieces 8 to 11 of the second byte are tracked.
    assert_eq!(long.count_set(), 4);
}

#[test]
fn bitfield_set_then_get_law() {
    for n in 1..20usize {
        for i in 0..n {
            let mut bf = Bitfield::new(n);
            bf.set(i, true);
            assert!(bf.get(i));
            let round = Bitfield::from_bytes(&bf.as_bytes(), n);
            assert_eq!(round.as_bytes(), bf.as_bytes());
            assert!(round.get(i));
        }
    }
}

#[test]
fn set_then_clear_gives_a_fresh_bitfield() {
    let mut bf = Bitfield::new(10);
    bf.set(5, true);
    assert!(bf.get(5));
    assert_eq!(bf.count_set(), 1);
    bf.set(5, false);
    assert!(!bf.get(5));
    assert_eq!(bf.count_set(), 0);
    assert_eq!(bf, Bitfield::new(10));
}

#[test]
fn set_past_the_end_changes_nothing() {
    let mut bf = Bitfield::new(10);
    bf.set(3, true);
    let before = bf.as_bytes();
    bf.set(12, true);
    bf.set(100, true);
    assert_eq!(bf.as_bytes(), before);
    assert_eq!(bf.len(), 10);
}

#[test]
fn bits_go_on_the_wire_most_significant_first() {
    let mut bf = Bitfield::new(10);
    bf.set(0, true);
    bf.set(7, true);
    bf.set(8, true);
    assert_eq!(bf.as_bytes(), vec![0b1000_0001u8, 0b1000_0000u8]);
}
