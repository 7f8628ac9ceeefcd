//! Encoding and decoding of a byte message in a pixel grid. The payload is
//! the message followed by a fixed three-byte terminator marker; its bits
//! are embedded most-significant bit first into the channel scan order, and
//! decoding scans the whole image, regroups the bits into bytes and cuts at
//! the first occurrence of the marker.

use crate::bits::{
    bits_of_bytes, bits_to_bytes, byte_at, bytes_of_bits, bytes_to_bits, lemma_bits_are_bits,
    lemma_byte_at_agree, lemma_byte_at_bits_of_bytes,
};
use crate::grid::{embed_bits, embedded, extract_bits, lemma_embed_touches_lsbs_only, lsbs,
    PixelGrid};
use vstd::prelude::*;

verus! {

/// The terminator marker appended to every payload: the bytes of `"EOF"`.
pub open spec fn spec_terminator() -> Seq<u8> {
    seq![69u8, 79u8, 70u8]
}

/// The terminator marker as a byte vector.
pub fn terminator() -> (t: Vec<u8>)
    ensures
        t@ == spec_terminator(),
{
    let mut t: Vec<u8> = Vec::new();
    t.push(69);
    t.push(79);
    t.push(70);
    proof {
        assert(t@ =~= spec_terminator());
    }
    t
}

/// Why an encode call failed.
#[derive(Debug, PartialEq, Eq)]
pub enum EncodeError {
    /// The image collaborator could not read or parse the source image.
    ImageLoad(String),
    /// The message plus terminator needs more bit slots than the image has.
    CapacityExceeded,
    /// The image collaborator could not write the destination image.
    ImageSave(String),
}

/// Why a decode call failed.
#[derive(Debug, PartialEq, Eq)]
pub enum DecodeError {
    /// The image collaborator could not read or parse the image.
    ImageLoad(String),
    /// A full scan of the image never found the terminator marker: no
    /// message is present, or it was corrupted or truncated.
    MarkerNotFound,
}

/// The terminator marker occurs in `bytes` at position `p`.
pub open spec fn marker_at(bytes: Seq<u8>, p: int) -> bool {
    &&& 0 <= p
    &&& p + 3 <= bytes.len()
    &&& bytes[p] == 69
    &&& bytes[p + 1] == 79
    &&& bytes[p + 2] == 70
}

/// The terminator marker occurs somewhere in `bytes`.
pub open spec fn has_marker(bytes: Seq<u8>) -> bool {
    exists|p: int| marker_at(bytes, p)
}

/// `msg` is what decoding recovers from `bytes`: everything before the
/// first occurrence of the terminator marker.
pub open spec fn is_recovered_message(bytes: Seq<u8>, msg: Seq<u8>) -> bool {
    &&& marker_at(bytes, msg.len() as int)
    &&& forall|q: int| 0 <= q < msg.len() ==> !marker_at(bytes, q)
    &&& msg == bytes.subrange(0, msg.len() as int)
}

/// The byte sequence a full scan of the channel buffer `data` yields:
/// every least-significant bit, regrouped into bytes.
pub open spec fn recovered_bytes(data: Seq<u8>) -> Seq<u8> {
    bytes_of_bits(lsbs(data))
}

/// At most one byte sequence is the recovered message of a scan.
pub proof fn lemma_recovered_message_unique(bytes: Seq<u8>, m1: Seq<u8>, m2: Seq<u8>)
    requires
        is_recovered_message(bytes, m1),
        is_recovered_message(bytes, m2),
    ensures
        m1 == m2,
{
    assert(m1.len() == m2.len());
    assert(m1 =~= m2);
}

/// Finds the first occurrence of the terminator marker in `bytes`.
pub fn find_marker(bytes: &[u8]) -> (r: Option<usize>)
    ensures
        (r is Some) <==> has_marker(bytes@),
        r matches Some(p) ==> marker_at(bytes@, p as int) && forall|q: int|
            0 <= q < p ==> !marker_at(bytes@, q),
{
    let n = bytes.len();
    let mut p: usize = 0;
    while n >= 3 && p < n - 2
        invariant
            n == bytes@.len(),
            p <= n,
            forall|q: int| 0 <= q < p ==> !marker_at(bytes@, q),
        decreases n - p,
    {
        if bytes[p] == 69 && bytes[p + 1] == 79 && bytes[p + 2] == 70 {
            proof {
                assert(marker_at(bytes@, p as int));
            }
            return Some(p);
        }
        p = p + 1;
    }
    proof {
        assert forall|q: int| !marker_at(bytes@, q) by {
            if 0 <= q < p {
            } else {
                assert(q < 0 || q + 3 > n);
            }
        }
    }
    None
}

/// The message followed by the terminator marker.
pub fn build_payload(message: &[u8]) -> (payload: Vec<u8>)
    requires
        message@.len() + 3 <= usize::MAX,
    ensures
        payload@ == message@ + spec_terminator(),
{
    let n = message.len();
    let mut payload: Vec<u8> = Vec::new();
    let mut i: usize = 0;
    while i < n
        invariant
            n == message@.len(),
            i <= n,
            payload@ =~= message@.subrange(0, i as int),
        decreases n - i,
    {
        payload.push(message[i]);
        i = i + 1;
    }
    payload.push(69);
    payload.push(79);
    payload.push(70);
    proof {
        assert(payload@ =~= message@ + spec_terminator());
    }
    payload
}

/// Embeds `message` (with the terminator marker appended) into the
/// least-significant bits of the grid's channels, in scan order. Fails,
/// leaving the grid untouched, exactly when the payload needs more bit
/// slots than the image has; no partial write happens.
pub fn encode_bytes(grid: &mut PixelGrid, message: &[u8]) -> (r: Result<(), EncodeError>)
    ensures
        final(grid).width == old(grid).width,
        final(grid).height == old(grid).height,
        (r is Ok) <==> 8 * (message@.len() + 3) <= old(grid).data@.len(),
        r is Ok ==> final(grid).data@ == embedded(
            old(grid).data@,
            bits_of_bytes(message@ + spec_terminator()),
        ),
        r matches Err(e) ==> e == EncodeError::CapacityExceeded && final(grid).data@ == old(
            grid,
        ).data@,
{
    let cap = grid.data.len();
    let q = cap / 8;
    let n = message.len();
    if q < 3 || n > q - 3 {
        proof {
            assert(8 * (cap / 8) <= cap < 8 * (cap / 8 + 1));
        }
        return Err(EncodeError::CapacityExceeded);
    }
    proof {
        assert(8 * (cap / 8) <= cap);
    }
    let payload = build_payload(message);
    let bits = bytes_to_bits(payload.as_slice());
    proof {
        lemma_bits_are_bits(payload@);
    }
    embed_bits(grid, &bits);
    Ok(())
}

/// Scans the whole image, regroups the extracted bits into bytes and
/// returns everything before the first occurrence of the terminator
/// marker. Fails exactly when the marker occurs nowhere in the scan.
pub fn decode_bytes(grid: &PixelGrid) -> (r: Result<Vec<u8>, DecodeError>)
    ensures
        (r is Ok) <==> has_marker(recovered_bytes(grid.data@)),
        r matches Ok(m) ==> is_recovered_message(recovered_bytes(grid.data@), m@),
        r matches Err(e) ==> e == DecodeError::MarkerNotFound,
{
    let bits = extract_bits(grid);
    let mut bytes = bits_to_bytes(&bits);
    match find_marker(bytes.as_slice()) {
        Some(p) => {
            bytes.truncate(p);
            proof {
                assert(bytes@ =~= recovered_bytes(grid.data@).subrange(0, p as int));
            }
            Ok(bytes)
        },
        None => Err(DecodeError::MarkerNotFound),
    }
}

/// A bit sequence that starts with the expansion of `payload` regroups
/// into a byte sequence that starts with `payload`.
proof fn lemma_payload_prefix(ext: Seq<u8>, payload: Seq<u8>)
    requires
        8 * payload.len() <= ext.len(),
        forall|k: int| 0 <= k < 8 * payload.len() ==> ext[k] == bits_of_bytes(payload)[k],
    ensures
        forall|p: int| 0 <= p < payload.len() ==> #[trigger] bytes_of_bits(ext)[p] == payload[p],
{
    let bits = bits_of_bytes(payload);
    let rec = bytes_of_bits(ext);
    assert(payload.len() <= ext.len() / 8);
    assert forall|p: int| 0 <= p < payload.len() implies #[trigger] rec[p] == payload[p] by {
        assert forall|k: int| 8 * p <= k < 8 * p + 8 implies ext[k] == bits[k] by {
            assert(0 <= k < 8 * payload.len());
        }
        lemma_byte_at_agree(ext, bits, p);
        lemma_byte_at_bits_of_bytes(payload, p);
        assert(rec[p] == byte_at(ext, p));
    }
}

/// Law: the round trip. If the payload fits the image and the message does
/// not itself contain the terminator marker, then scanning the grid that
/// embedding produced recovers exactly the original message, for any pixel
/// content of the source image.
pub proof fn lemma_round_trip(data: Seq<u8>, message: Seq<u8>)
    requires
        8 * (message.len() + 3) <= data.len(),
        forall|q: int| !marker_at(message, q),
    ensures
        is_recovered_message(
            recovered_bytes(embedded(data, bits_of_bytes(message + spec_terminator()))),
            message,
        ),
{
    let payload = message + spec_terminator();
    let bits = bits_of_bytes(payload);
    let stego = embedded(data, bits);
    let ext = lsbs(stego);
    let rec = bytes_of_bits(ext);

    lemma_bits_are_bits(payload);
    lemma_embed_touches_lsbs_only(data, bits);

    // The first `payload.len()` recovered bytes are the payload itself.
    assert(forall|k: int| 0 <= k < bits.len() ==> ext[k] == bits[k]);
    lemma_payload_prefix(ext, payload);

    // The marker stands right after the message.
    let n = message.len() as int;
    assert(rec[n] == payload[n] && rec[n + 1] == payload[n + 1] && rec[n + 2] == payload[n + 2]);
    assert(marker_at(rec, n));

    // And nowhere earlier: an earlier occurrence would lie inside the
    // message, or overlap the boundary where the payload reads `.EO` / `..E`.
    assert forall|q: int| 0 <= q < n implies !marker_at(rec, q) by {
        if marker_at(rec, q) {
            if q + 3 <= n {
                assert(marker_at(message, q));
            } else if q == n - 2 {
                assert(rec[q + 2] == payload[n] == 69);
            } else {
                assert(q == n - 1);
                assert(rec[q + 2] == payload[n + 1] == 79);
            }
        }
    }

    assert(message =~= rec.subrange(0, n));
}

} // verus!
