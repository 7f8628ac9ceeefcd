use lsb_stego::grid::{embed_bits, extract_bits, PixelGrid};

#[test]
fn new_accepts_matching_buffer() {
    let grid = PixelGrid::new(2, 2, vec![7u8; 12]).unwrap();
    assert_eq!(grid.width, 2);
    assert_eq!(grid.height, 2);
    assert_eq!(grid.data.len(), 12);
    assert_eq!(grid.bit_capacity(), 12);
}

#[test]
fn new_rejects_mismatched_buffer() {
    assert!(PixelGrid::new(2, 2, vec![7u8; 11]).is_none());
    assert!(PixelGrid::new(2, 2, vec![7u8; 13]).is_none());
    assert!(PixelGrid::new(0, 5, vec![7u8; 3]).is_none());
}

#[test]
fn bit_capacity_counts_three_per_pixel() {
    let grid = PixelGrid::new(10, 10, vec![0u8; 300]).unwrap();
    assert_eq!(grid.bit_capacity(), 300);
}

#[test]
fn embed_rewrites_low_bits_only() {
    let mut grid = PixelGrid::new(1, 2, vec![0, 1, 2, 3, 250, 251]).unwrap();
    embed_bits(&mut grid, &vec![1, 0, 1]);
    // (0 & 254) | 1, (1 & 254) | 0, (2 & 254) | 1, then untouched.
    assert_eq!(grid.data, vec![1, 0, 3, 3, 250, 251]);
}

#[test]
fn extract_reads_every_low_bit() {
    let grid = PixelGrid::new(1, 2, vec![1, 0, 3, 3, 250, 251]).unwrap();
    assert_eq!(extract_bits(&grid), vec![1, 0, 1, 1, 0, 1]);
}
