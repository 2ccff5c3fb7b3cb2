use ssr_engine::input::{decode_packet, DecodeError, InputSnapshot, KEY_SPEED};

fn ne(lo: u8, hi: u8) -> u16 {
    u16::from_ne_bytes([lo, hi])
}

#[test]
fn odd_packet_is_refused() {
    assert_eq!(decode_packet(&[1, 2, 3]), Err(DecodeError::OddLength));
    assert_eq!(decode_packet(&[1]), Err(DecodeError::OddLength));
}

#[test]
fn even_packet_decodes_pair_by_pair() {
    assert_eq!(decode_packet(&[]), Ok(vec![]));
    let values = decode_packet(&[1, 2, 3, 4]).unwrap();
    assert_eq!(values, vec![ne(1, 2), ne(3, 4)]);
    assert!(values[0] == 0x0201 || values[0] == 0x0102);
    assert_ne!(values, vec![1, 2, 3, 4]);
}

#[test]
fn odd_packet_leaves_snapshot_unchanged() {
    let mut s = InputSnapshot::new();
    s.apply_values(&vec![3, 4, 1, 2, 3, 4], (800, 600));
    let before = s;
    assert_eq!(s.apply_packet(&[9, 9, 9], (800, 600)), Err(DecodeError::OddLength));
    assert_eq!(s, before);
}

#[test]
fn four_byte_packet_moves_only_the_pointer() {
    let mut s = InputSnapshot::new();
    s.apply_values(&vec![0, 0, 1, 2, 3, 4], (800, 600));
    let keys = s.keys;
    let packet = [10u8, 0, 20, 0];
    assert_eq!(s.apply_packet(&packet, (800, 600)), Ok(()));
    assert_eq!(s.pointer_x, ne(10, 0) as usize);
    assert_eq!(s.pointer_y, ne(20, 0) as usize);
    assert_eq!(s.keys, keys);
}

#[test]
fn full_packet_sets_scaled_magnitudes() {
    let mut s = InputSnapshot::new();
    s.apply_values(&vec![5, 6, 1, 2, 3, 4], (800, 600));
    assert_eq!(s.pointer_x, 5);
    assert_eq!(s.pointer_y, 6);
    assert_eq!(s.keys, [KEY_SPEED, 2 * KEY_SPEED, 3 * KEY_SPEED, 4 * KEY_SPEED]);
    assert_eq!(KEY_SPEED, 4);
}

#[test]
fn short_packet_updates_only_what_it_reaches() {
    let mut s = InputSnapshot::new();
    s.apply_values(&vec![5, 6, 1, 2, 3, 4], (800, 600));
    s.apply_values(&vec![7, 8, 9], (800, 600));
    assert_eq!(s.pointer_x, 7);
    assert_eq!(s.pointer_y, 8);
    assert_eq!(s.keys, [36, 8, 12, 16]);
    let before = s;
    s.apply_values(&vec![], (800, 600));
    assert_eq!(s, before);
    s.apply_values(&vec![1], (800, 600));
    assert_eq!(s.pointer_x, 1);
    assert_eq!(s.pointer_y, 8);
}

#[test]
fn pointer_is_clamped_to_the_frame() {
    let mut s = InputSnapshot::new();
    s.apply_values(&vec![900, 600], (800, 600));
    assert_eq!(s.pointer_x, 799);
    assert_eq!(s.pointer_y, 599);
    s.apply_values(&vec![799, 598], (800, 600));
    assert_eq!(s.pointer_x, 799);
    assert_eq!(s.pointer_y, 598);
}

#[test]
fn last_value_wins_across_packets() {
    let mut s = InputSnapshot::new();
    s.apply_all(&vec![vec![1, 2, 3, 3, 3, 3], vec![4, 5], vec![6]], (800, 600));
    assert_eq!(s.pointer_x, 6);
    assert_eq!(s.pointer_y, 5);
    assert_eq!(s.keys, [12, 12, 12, 12]);
}

#[test]
fn new_snapshot_is_idle() {
    let s = InputSnapshot::new();
    assert_eq!(s.pointer_x, 0);
    assert_eq!(s.pointer_y, 0);
    assert_eq!(s.keys, [0, 0, 0, 0]);
}
