//! The bitstream convention shared by the encoder and the decoder: each
//! payload byte is expanded into eight single-bit values, most-significant
//! bit first, and bit sequences are regrouped into bytes the same way,
//! dropping any trailing bits that do not complete a full byte.

use vstd::prelude::*;

verus! {

/// Bit `j` (0 = most significant, 7 = least significant) of byte `b`.
pub open spec fn bit_at(b: u8, j: int) -> u8 {
    (b >> ((7 - j) as u8)) & 1
}

/// The expansion of `bytes` into single-bit values, most-significant bit
/// of each byte first, in byte order.
pub open spec fn bits_of_bytes(bytes: Seq<u8>) -> Seq<u8> {
    Seq::new(bytes.len() * 8, |i: int| bit_at(bytes[i / 8], i % 8))
}

/// The byte assembled from the eight bits starting at position `8 * p`,
/// most-significant bit first. Only the lowest bit of each element counts.
pub open spec fn byte_at(bits: Seq<u8>, p: int) -> u8 {
    (((bits[8 * p] & 1) * 128 + (bits[8 * p + 1] & 1) * 64 + (bits[8 * p + 2] & 1) * 32
        + (bits[8 * p + 3] & 1) * 16 + (bits[8 * p + 4] & 1) * 8 + (bits[8 * p + 5] & 1) * 4
        + (bits[8 * p + 6] & 1) * 2 + (bits[8 * p + 7] & 1)) as u8)
}

/// The regrouping of a bit sequence into bytes, eight bits per byte,
/// most-significant bit first; trailing bits short of a byte are dropped.
pub open spec fn bytes_of_bits(bits: Seq<u8>) -> Seq<u8> {
    Seq::new(bits.len() / 8, |p: int| byte_at(bits, p))
}

/// Every value produced by the byte-to-bit expansion is 0 or 1.
pub proof fn lemma_bits_are_bits(bytes: Seq<u8>)
    ensures
        forall|i: int|
            0 <= i < bits_of_bytes(bytes).len() ==> #[trigger] bits_of_bytes(bytes)[i] <= 1,
{
    assert forall|i: int|
        0 <= i < bits_of_bytes(bytes).len() implies #[trigger] bits_of_bytes(bytes)[i] <= 1 by {
        let b = bytes[i / 8];
        let s = ((7 - i % 8) as u8);
        assert((b >> s) & 1 <= 1) by (bit_vector);
    }
}

/// Two bit sequences that agree on the eight positions of block `p`
/// assemble the same byte there.
pub proof fn lemma_byte_at_agree(a: Seq<u8>, b: Seq<u8>, p: int)
    requires
        forall|k: int| 8 * p <= k < 8 * p + 8 ==> a[k] == b[k],
    ensures
        byte_at(a, p) == byte_at(b, p),
{
    assert(a[8 * p] == b[8 * p]);
    assert(a[8 * p + 1] == b[8 * p + 1]);
    assert(a[8 * p + 2] == b[8 * p + 2]);
    assert(a[8 * p + 3] == b[8 * p + 3]);
    assert(a[8 * p + 4] == b[8 * p + 4]);
    assert(a[8 * p + 5] == b[8 * p + 5]);
    assert(a[8 * p + 6] == b[8 * p + 6]);
    assert(a[8 * p + 7] == b[8 * p + 7]);
}

/// Regrouping the expansion of `bytes` gives each original byte back:
/// the bit order written by the encoder is the one the decoder assumes.
pub proof fn lemma_byte_at_bits_of_bytes(bytes: Seq<u8>, p: int)
    requires
        0 <= p < bytes.len(),
    ensures
        byte_at(bits_of_bytes(bytes), p) == bytes[p],
{
    let bits = bits_of_bytes(bytes);
    let b = bytes[p];
    assert(bits[8 * p] == bit_at(b, 0));
    assert(bits[8 * p + 1] == bit_at(b, 1));
    assert(bits[8 * p + 2] == bit_at(b, 2));
    assert(bits[8 * p + 3] == bit_at(b, 3));
    assert(bits[8 * p + 4] == bit_at(b, 4));
    assert(bits[8 * p + 5] == bit_at(b, 5));
    assert(bits[8 * p + 6] == bit_at(b, 6));
    assert(bits[8 * p + 7] == bit_at(b, 7));
    assert((((b >> 7u8) & 1) & 1) * 128 + (((b >> 6u8) & 1) & 1) * 64 + (((b >> 5u8) & 1) & 1) * 32
        + (((b >> 4u8) & 1) & 1) * 16 + (((b >> 3u8) & 1) & 1) * 8 + (((b >> 2u8) & 1) & 1) * 4
        + (((b >> 1u8) & 1) & 1) * 2 + (((b >> 0u8) & 1) & 1) == b) by (bit_vector);
}

/// Expands `bytes` into its bit sequence, most-significant bit first.
pub fn bytes_to_bits(bytes: &[u8]) -> (bits: Vec<u8>)
    requires
        bytes@.len() * 8 <= usize::MAX,
    ensures
        bits@ == bits_of_bytes(bytes@),
{
    let mut bits: Vec<u8> = Vec::new();
    let n = bytes.len();
    let mut i: usize = 0;
    while i < n
        invariant
            n == bytes@.len(),
            i <= n,
            n * 8 <= usize::MAX,
            bits@.len() == i * 8,
            forall|k: int| 0 <= k < i * 8 ==> #[trigger] bits@[k] == bit_at(bytes@[k / 8], k % 8),
        decreases n - i,
    {
        let b = bytes[i];
        bits.push((b >> 7u8) & 1);
        bits.push((b >> 6u8) & 1);
        bits.push((b >> 5u8) & 1);
        bits.push((b >> 4u8) & 1);
        bits.push((b >> 3u8) & 1);
        bits.push((b >> 2u8) & 1);
        bits.push((b >> 1u8) & 1);
        bits.push(b & 1);
        proof {
            assert forall|k: int| 0 <= k < (i + 1) * 8 implies #[trigger] bits@[k] == bit_at(
                bytes@[k / 8],
                k % 8,
            ) by {
                if i * 8 <= k {
                    assert(k / 8 == i && k % 8 == k - i * 8);
                    assert(b & 1 == (b >> 0u8) & 1) by (bit_vector);
                }
            }
        }
        i = i + 1;
    }
    proof {
        assert(bits@ =~= bits_of_bytes(bytes@));
    }
    bits
}

/// Regroups a bit sequence into bytes, eight at a time, most-significant
/// bit first, dropping trailing bits that do not fill a byte.
pub fn bits_to_bytes(bits: &Vec<u8>) -> (bytes: Vec<u8>)
    ensures
        bytes@ == bytes_of_bits(bits@),
{
    let mut bytes: Vec<u8> = Vec::new();
    let n = bits.len();
    let m = n / 8;
    let mut p: usize = 0;
    while p < m
        invariant
            n == bits@.len(),
            m == n / 8,
            8 * m <= n,
            p <= m,
            bytes@.len() == p,
            forall|q: int| 0 <= q < p ==> #[trigger] bytes@[q] == byte_at(bits@, q),
        decreases m - p,
    {
        let base = 8 * p;
        let b0 = bits[base] & 1;
        let b1 = bits[base + 1] & 1;
        let b2 = bits[base + 2] & 1;
        let b3 = bits[base + 3] & 1;
        let b4 = bits[base + 4] & 1;
        let b5 = bits[base + 5] & 1;
        let b6 = bits[base + 6] & 1;
        let b7 = bits[base + 7] & 1;
        proof {
            let x0 = bits@[8 * p];
            assert(x0 & 1 <= 1) by (bit_vector);
            let x1 = bits@[8 * p + 1];
            assert(x1 & 1 <= 1) by (bit_vector);
            let x2 = bits@[8 * p + 2];
            assert(x2 & 1 <= 1) by (bit_vector);
            let x3 = bits@[8 * p + 3];
            assert(x3 & 1 <= 1) by (bit_vector);
            let x4 = bits@[8 * p + 4];
            assert(x4 & 1 <= 1) by (bit_vector);
            let x5 = bits@[8 * p + 5];
            assert(x5 & 1 <= 1) by (bit_vector);
            let x6 = bits@[8 * p + 6];
            assert(x6 & 1 <= 1) by (bit_vector);
            let x7 = bits@[8 * p + 7];
            assert(x7 & 1 <= 1) by (bit_vector);
        }
        let v: u8 = b0 * 128 + b1 * 64 + b2 * 32 + b3 * 16 + b4 * 8 + b5 * 4 + b6 * 2 + b7;
        bytes.push(v);
        p = p + 1;
    }
    proof {
        assert(bytes@ =~= bytes_of_bits(bits@));
    }
    bytes
}

} // verus!
