use lsb_stego::bits::{bits_to_bytes, bytes_to_bits};
use lsb_stego::codec::{find_marker, terminator};

#[test]
fn bits_of_single_byte_msb_first() {
    let bits = bytes_to_bits(&[0b1011_0001u8]);
    assert_eq!(bits, vec![1, 0, 1, 1, 0, 0, 0, 1]);
}

#[test]
fn bits_of_bytes_keeps_byte_order() {
    let bits = bytes_to_bits(&[0xFF, 0x00]);
    let mut expected = vec![1u8; 8];
    expected.extend(vec![0u8; 8]);
    assert_eq!(bits, expected);
}

#[test]
fn bytes_from_bits_exact_value() {
    // 0b0100_0101 == 69
    let bytes = bits_to_bytes(&vec![0, 1, 0, 0, 0, 1, 0, 1]);
    assert_eq!(bytes, vec![69]);
}

#[test]
fn bytes_from_bits_drop_trailing_bits() {
    let bytes = bits_to_bytes(&vec![1, 1, 1, 1, 1, 1, 1, 1, 1, 0]);
    assert_eq!(bytes, vec![0xFF]);
}

#[test]
fn bytes_from_bits_use_low_bit_only() {
    let bytes = bits_to_bytes(&vec![2, 2, 2, 2, 2, 2, 2, 3]);
    assert_eq!(bytes, vec![1]);
}

#[test]
fn expand_then_regroup_is_identity() {
    let original: Vec<u8> = (0u16..=255).map(|b| b as u8).collect();
    let bits = bytes_to_bits(&original);
    assert_eq!(bits.len(), original.len() * 8);
    assert_eq!(bits_to_bytes(&bits), original);
}

#[test]
fn terminator_is_eof_bytes() {
    assert_eq!(terminator(), b"EOF".to_vec());
}

#[test]
fn find_marker_first_occurrence() {
    assert_eq!(find_marker(b"xxEOFyyEOF"), Some(2));
    assert_eq!(find_marker(b"EOFrest"), Some(0));
}

#[test]
fn find_marker_absent() {
    assert_eq!(find_marker(b""), None);
    assert_eq!(find_marker(b"EO"), None);
    assert_eq!(find_marker(b"EoF quite close"), None);
}
