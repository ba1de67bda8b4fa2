//! Decoding a task's log payload.
//!
//! The daemon ships log bytes compressed with the snappy frame format.
//! Decoding prefers lossy availability over failure: when the frame
//! decoder rejects the bytes, the raw bytes themselves are read as
//! text, so a log request never fails on a decode error alone.

use vstd::prelude::*;

verus! {

/// What the snappy frame decoder makes of a byte sequence: the decoded
/// bytes, or nothing when the framing is invalid.  The answer depends
/// on the bytes alone.
pub uninterp spec fn snappy_decoded(b: Seq<u8>) -> Option<Seq<u8>>;

/// Relies on snap's `read::FrameDecoder`, drained through
/// `std::io::Read::read_to_end`: the decoded bytes depend on the input
/// bytes alone.
#[verifier::external_body]
pub(crate) fn snappy_decode(bytes: &[u8]) -> (r: Option<Vec<u8>>)
    ensures
        match r {
            Option::Some(d) => snappy_decoded(bytes@) == Option::Some(d@),
            Option::None => snappy_decoded(bytes@) is None,
        },
{
    let mut decoder = snap::read::FrameDecoder::new(bytes);
    let mut decoded: Vec<u8> = Vec::new();
    match std::io::Read::read_to_end(&mut decoder, &mut decoded) {
        Ok(_) => Some(decoded),
        Err(_) => None,
    }
}

/// The text a byte sequence reads as, with invalid UTF-8 replaced; a
/// function of the bytes alone.
pub uninterp spec fn lossy_utf8(b: Seq<u8>) -> Seq<char>;

/// Relies on `String::from_utf8_lossy`: invalid sequences become
/// replacement characters, and the result depends on the bytes alone.
#[verifier::external_body]
pub(crate) fn bytes_to_string_lossy(bytes: &[u8]) -> (r: String)
    ensures
        r@ == lossy_utf8(bytes@),
{
    String::from_utf8_lossy(bytes).to_string()
}

/// Decode one task's log payload: the decompressed text when the bytes
/// carry a valid snappy frame, the raw bytes read as text otherwise.
pub fn decode_log_output(bytes: &Vec<u8>) -> (r: String)
    ensures
        match snappy_decoded(bytes@) {
            Option::Some(d) => r@ == lossy_utf8(d),
            Option::None => r@ == lossy_utf8(bytes@),
        },
{
    match snappy_decode(bytes.as_slice()) {
        Option::Some(decoded) => bytes_to_string_lossy(decoded.as_slice()),
        Option::None => bytes_to_string_lossy(bytes.as_slice()),
    }
}

} // verus!
