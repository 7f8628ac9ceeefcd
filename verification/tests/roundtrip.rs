use lsb_stego::codec::{decode_bytes, encode_bytes, DecodeError, EncodeError};
use lsb_stego::grid::PixelGrid;
use lsb_stego::text::{decode_text, encode_text};

fn patterned(len: usize) -> Vec<u8> {
    (0..len).map(|i| ((i * 37 + 11) % 256) as u8).collect()
}

#[test]
fn hi_in_ten_by_ten() {
    // 10x10 pixels give 300 bit slots; "Hi" plus the "EOF" terminator is
    // 5 bytes = 40 bits, so encoding succeeds and decodes back exactly.
    let mut grid = PixelGrid::new(10, 10, patterned(300)).unwrap();
    assert_eq!(encode_text(&mut grid, "Hi"), Ok(()));
    assert_eq!(decode_text(&grid), Ok("Hi".to_string()));
}

#[test]
fn empty_message_round_trip() {
    let mut grid = PixelGrid::new(10, 10, patterned(300)).unwrap();
    assert_eq!(encode_text(&mut grid, ""), Ok(()));
    assert_eq!(decode_text(&grid), Ok(String::new()));
}

#[test]
fn non_ascii_round_trip() {
    let mut grid = PixelGrid::new(10, 10, patterned(300)).unwrap();
    let message = "h\u{e9}llo \u{2602}";
    assert_eq!(encode_text(&mut grid, message), Ok(()));
    assert_eq!(decode_text(&grid), Ok(message.to_string()));
}

#[test]
fn any_message_fails_on_one_pixel() {
    // One pixel offers 3 bit slots; even an empty payload needs 24.
    let source = vec![9u8, 8, 7];
    let mut grid = PixelGrid::new(1, 1, source.clone()).unwrap();
    assert_eq!(encode_text(&mut grid, "x"), Err(EncodeError::CapacityExceeded));
    assert_eq!(grid.data, source, "no partial write on failure");
    assert_eq!(encode_text(&mut grid, ""), Err(EncodeError::CapacityExceeded));
    assert_eq!(grid.data, source);
}

#[test]
fn capacity_boundary_is_exact() {
    // 300 slots: a 34-byte message needs (34 + 3) * 8 = 296 bits and fits;
    // a 35-byte message needs 304 bits and must be rejected untouched.
    let fits = vec![b'a'; 34];
    let mut grid = PixelGrid::new(10, 10, patterned(300)).unwrap();
    assert_eq!(encode_bytes(&mut grid, &fits), Ok(()));
    assert_eq!(decode_bytes(&grid), Ok(fits));

    let too_long = vec![b'a'; 35];
    let source = patterned(300);
    let mut grid = PixelGrid::new(10, 10, source.clone()).unwrap();
    assert_eq!(encode_bytes(&mut grid, &too_long), Err(EncodeError::CapacityExceeded));
    assert_eq!(grid.data, source);
}

#[test]
fn channels_beyond_consumed_bits_untouched() {
    // "Hi" + "EOF" consumes 40 bit slots; every later channel must be
    // bit-identical, and the first 40 may differ in their low bit only.
    let source = patterned(300);
    let mut grid = PixelGrid::new(10, 10, source.clone()).unwrap();
    assert_eq!(encode_bytes(&mut grid, b"Hi"), Ok(()));
    for i in 0..300 {
        if i < 40 {
            assert_eq!(grid.data[i] & 0xFE, source[i] & 0xFE);
        } else {
            assert_eq!(grid.data[i], source[i]);
        }
    }
}

#[test]
fn transposed_scan_order_garbles_message() {
    // Decoding must walk the pixels in the same row-major order encoding
    // used: reading a column-major rearrangement of the same pixels does
    // not give the message back.
    let mut grid = PixelGrid::new(10, 10, vec![0u8; 300]).unwrap();
    assert_eq!(encode_text(&mut grid, "Hi"), Ok(()));

    let mut swapped = vec![0u8; 300];
    for row in 0..10 {
        for col in 0..10 {
            for ch in 0..3 {
                swapped[(col * 10 + row) * 3 + ch] = grid.data[(row * 10 + col) * 3 + ch];
            }
        }
    }
    let transposed = PixelGrid::new(10, 10, swapped).unwrap();
    assert_ne!(decode_text(&transposed), Ok("Hi".to_string()));
}

#[test]
fn decode_of_plain_images_finds_no_marker() {
    let blank = PixelGrid::new(10, 10, vec![0u8; 300]).unwrap();
    assert_eq!(decode_text(&blank), Err(DecodeError::MarkerNotFound));

    // All low bits set: every recovered byte is 0xFF, never the marker.
    let bright = PixelGrid::new(10, 10, vec![0xABu8; 300]).unwrap();
    assert_eq!(decode_bytes(&bright), Err(DecodeError::MarkerNotFound));
}

#[test]
fn message_containing_marker_is_cut_short() {
    // The scheme does not escape the terminator: a message that contains
    // it is truncated at its first occurrence.
    let mut grid = PixelGrid::new(10, 10, patterned(300)).unwrap();
    assert_eq!(encode_bytes(&mut grid, b"abEOFcd"), Ok(()));
    assert_eq!(decode_bytes(&grid), Ok(b"ab".to_vec()));
}

#[test]
fn decode_handcrafted_pixels() {
    // A grid built by hand, not by the encoder: 24 channels whose low
    // bits spell the bits of "EOF" decode to the empty message.
    let marker_bits: Vec<u8> = [69u8, 79, 70]
        .iter()
        .flat_map(|b| (0..8).rev().map(move |s| (b >> s) & 1))
        .collect();
    let grid = PixelGrid::new(4, 2, marker_bits).unwrap();
    assert_eq!(decode_bytes(&grid), Ok(Vec::new()));
    assert_eq!(decode_text(&grid), Ok(String::new()));
}

#[test]
fn invalid_utf8_before_marker_reads_leniently() {
    // 0xFF is never valid UTF-8: the decoded text substitutes the
    // replacement character for it instead of failing.
    let mut grid = PixelGrid::new(10, 10, patterned(300)).unwrap();
    assert_eq!(encode_bytes(&mut grid, &[0xFF, 0x41]), Ok(()));
    assert_eq!(decode_text(&grid), Ok("\u{FFFD}A".to_string()));
}
