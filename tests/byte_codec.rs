use poseidon::codec::{decode_elem_at, elem_width, encode_elem, felts_from_u8s, u8s_from_felts};
use poseidon::field::Field;

#[test]
fn width_follows_modulus_bit_length() {
    assert_eq!(elem_width(97), 1);
    assert_eq!(elem_width(255), 1);
    assert_eq!(elem_width(256), 2);
    assert_eq!(elem_width(2147483647), 4);
    assert_eq!(elem_width(18446744073709551557), 8);
}

#[test]
fn encode_is_little_endian() {
    assert_eq!(encode_elem(0x0102, 2), vec![2, 1]);
    assert_eq!(encode_elem(0x0a0b0c0d, 4), vec![0x0d, 0x0c, 0x0b, 0x0a]);
}

#[test]
fn decode_reduces_modulo_p() {
    let f = Field::new(97);
    assert_eq!(decode_elem_at(&f, &[200], 0, 1), 6);
    assert_eq!(decode_elem_at(&f, &[50], 0, 1), 50);
}

#[test]
fn decode_then_encode_is_not_identity_for_large_bytes() {
    let f = Field::new(97);
    let d = felts_from_u8s(&f, &[200]);
    assert_eq!(d, vec![6]);
    let e = u8s_from_felts(&f, &d);
    assert_eq!(e, vec![6]);
    assert_ne!(e, vec![200]);
    // one reduction makes the round trip stable
    assert_eq!(felts_from_u8s(&f, &e), d);
}

#[test]
fn decode_encode_round_trip_canonical() {
    let f = Field::new(2147483647);
    let xs = vec![0u64, 1, 2147483646, 123456];
    let b = u8s_from_felts(&f, &xs);
    assert_eq!(b.len(), 16);
    assert_eq!(felts_from_u8s(&f, &b), xs);
}

#[test]
fn trailing_partial_group_is_dropped() {
    let f = Field::new(2147483647);
    let b = vec![1u8, 0, 0, 0, 2, 0, 0, 0, 9, 9];
    assert_eq!(felts_from_u8s(&f, &b), vec![1, 2]);
    assert_eq!(felts_from_u8s(&f, &[1, 2, 3]), Vec::<u64>::new());
}
