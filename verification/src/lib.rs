//! LSB steganography: hide a short text message in the least-significant
//! bits of an image's RGB channels, and recover it again.
//!
//! The library works on a [`grid::PixelGrid`], the raw row-major RGB byte
//! buffer of an image; reading and writing image files is left to callers.
//! [`bits`] holds the bitstream convention shared by both directions,
//! [`codec`] the byte-level encoder and decoder with their round-trip law,
//! and [`text`] the text layer over them.

pub mod bits;
pub mod codec;
pub mod grid;
pub mod text;
