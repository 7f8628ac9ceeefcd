//! The text layer over the byte codec: a message given as text is hidden
//! as its UTF-8 bytes, and a decoded byte sequence is turned back into
//! text leniently, substituting the replacement character for byte runs
//! that are not valid UTF-8 instead of failing, so that a partially
//! readable stream still decodes.

use crate::bits::bits_of_bytes;
use crate::codec::{
    decode_bytes, encode_bytes, has_marker, is_recovered_message, lemma_round_trip, marker_at,
    recovered_bytes, spec_terminator, DecodeError, EncodeError,
};
use crate::grid::{embedded, PixelGrid};
use vstd::prelude::*;
use vstd::utf8::{
    decode_utf8, encode_utf8, encode_utf8_decode_utf8, encode_utf8_valid_utf8, valid_utf8,
};

verus! {

/// What `String::from_utf8_lossy` returns for the given bytes: a function
/// of the bytes alone.
pub uninterp spec fn lossy_of(bytes: Seq<u8>) -> Seq<char>;

/// Relies on std's `String::from_utf8_lossy`: the result depends on the
/// bytes alone, and bytes that are valid UTF-8 decode to exactly the text
/// that encodes to them; invalid sequences become replacement characters.
#[verifier::external_body]
fn lossy_text(bytes: &[u8]) -> (r: String)
    ensures
        r@ == lossy_of(bytes@),
        valid_utf8(bytes@) ==> r@ == decode_utf8(bytes@),
{
    String::from_utf8_lossy(bytes).into_owned()
}

/// Embeds the UTF-8 bytes of `message`, with the terminator marker
/// appended, into the least-significant bits of the grid's channels.
/// Fails, leaving the grid untouched, exactly when the payload needs more
/// bit slots than the image has.
pub fn encode_text(grid: &mut PixelGrid, message: &str) -> (r: Result<(), EncodeError>)
    ensures
        final(grid).width == old(grid).width,
        final(grid).height == old(grid).height,
        (r is Ok) <==> 8 * (encode_utf8(message@).len() + 3) <= old(grid).data@.len(),
        r is Ok ==> final(grid).data@ == embedded(
            old(grid).data@,
            bits_of_bytes(encode_utf8(message@) + spec_terminator()),
        ),
        r matches Err(e) ==> e == EncodeError::CapacityExceeded && final(grid).data@ == old(
            grid,
        ).data@,
{
    let bytes = message.as_bytes();
    encode_bytes(grid, bytes)
}

/// The decoded text `s` is the lenient reading of the recovered message
/// bytes of the scan of `data`: the bytes before the first terminator
/// marker, decoded exactly if they are valid UTF-8 and with replacement
/// characters otherwise.
pub open spec fn decoded_text(data: Seq<u8>, s: Seq<char>) -> bool {
    exists|m: Seq<u8>|
        {
            &&& #[trigger] is_recovered_message(recovered_bytes(data), m)
            &&& s == lossy_of(m)
            &&& (valid_utf8(m) ==> s == decode_utf8(m))
        }
}

/// Scans the whole image and returns the text hidden in it: everything
/// before the first terminator marker, read leniently as UTF-8. Fails
/// exactly when the marker occurs nowhere in the scan.
pub fn decode_text(grid: &PixelGrid) -> (r: Result<String, DecodeError>)
    ensures
        (r is Ok) <==> has_marker(recovered_bytes(grid.data@)),
        r matches Ok(s) ==> decoded_text(grid.data@, s@),
        r matches Err(e) ==> e == DecodeError::MarkerNotFound,
{
    match decode_bytes(grid) {
        Ok(m) => {
            let s = lossy_text(m.as_slice());
            proof {
                assert(is_recovered_message(recovered_bytes(grid.data@), m@));
            }
            Ok(s)
        },
        Err(e) => Err(e),
    }
}

/// Law: the round trip for text. If the UTF-8 bytes of the message plus
/// the terminator fit the image and the marker does not occur among those
/// bytes, a full scan of the grid that embedding produced recovers exactly
/// the message's bytes, and reading them back as UTF-8 gives the message
/// again, for any pixel content of the source image.
pub proof fn lemma_text_round_trip(data: Seq<u8>, message: Seq<char>)
    requires
        8 * (encode_utf8(message).len() + 3) <= data.len(),
        forall|q: int| !marker_at(encode_utf8(message), q),
    ensures
        ({
            let rec = recovered_bytes(
                embedded(data, bits_of_bytes(encode_utf8(message) + spec_terminator())),
            );
            &&& is_recovered_message(rec, encode_utf8(message))
            &&& valid_utf8(encode_utf8(message))
            &&& decode_utf8(encode_utf8(message)) == message
        }),
{
    lemma_round_trip(data, encode_utf8(message));
    encode_utf8_valid_utf8(message);
    encode_utf8_decode_utf8(message);
}

} // verus!
