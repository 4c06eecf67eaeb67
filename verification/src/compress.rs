//! LZ4 frame compression of string payloads, and UTF-8 decoding of the pieces.
use lz4::{Decoder, EncoderBuilder};
use std::io::{Read, Write};
use vstd::prelude::*;
use vstd::utf8::{decode_utf8, valid_utf8};

verus! {

/// What `lz4::Decoder` reads to the end of the frame at the start of `data`, or `None` when
/// it reports an error.
pub uninterp spec fn lz4_unframe(data: Seq<u8>) -> Option<Seq<u8>>;

/// Compresses `data` into one LZ4 frame.
///
/// Builds an encoder with `lz4::EncoderBuilder::new().build(Vec::new())`, writes `data` with
/// `write_all`, and takes the output of `Encoder::finish`. Trusted: decoding the output gives
/// `data` back (the crate's own round-trip tests), and it is a `Vec`, so no longer than
/// `isize::MAX`. The frame's exact bytes are left unsaid: the C library hashes input words in
/// native width and byte order, so they differ between machines. Errors can come only from the
/// C library refusing its context or buffer (allocation); they panic.
#[verifier::external_body]
pub fn lz4_compress(data: &[u8]) -> (compressed: Vec<u8>)
    ensures
        lz4_unframe(compressed@) == Some(data@),
        compressed@.len() <= isize::MAX,
{
    let mut encoder = EncoderBuilder::new().build(Vec::new()).unwrap();
    encoder.write_all(data).unwrap();
    let (compressed, result) = encoder.finish();
    result.unwrap();
    compressed
}

/// Decompresses the LZ4 frame at the start of `data`.
///
/// Reads `lz4::Decoder::new(data)` to the end with `read_to_end`. Trusted: the result is
/// `lz4_unframe(data)`, `None` exactly when the decoder reports an error. `Decoder::new` fails
/// only when the C library cannot allocate its context; that panics.
#[verifier::external_body]
pub fn lz4_decompress(data: &[u8]) -> (decompressed: Option<Vec<u8>>)
    ensures
        decompressed matches Some(d) ==> lz4_unframe(data@) == Some(d@),
        decompressed is None ==> lz4_unframe(data@) is None,
{
    let mut decoder = Decoder::new(data).unwrap();
    let mut out = Vec::new();
    match decoder.read_to_end(&mut out) {
        Ok(_) => Some(out),
        Err(_) => None,
    }
}

/// The string whose UTF-8 encoding is `bytes`, or `None` if `bytes` is not valid UTF-8.
///
/// Calls `String::from_utf8`. Trusted: it succeeds exactly on valid UTF-8 and then holds the
/// decoded characters, as std documents.
#[verifier::external_body]
pub fn string_from_utf8(bytes: Vec<u8>) -> (s: Option<String>)
    ensures
        s is Some <==> valid_utf8(bytes@),
        s matches Some(s) ==> s@ == decode_utf8(bytes@),
{
    String::from_utf8(bytes).ok()
}

} // verus!
