//! The batch message format sent to model containers, with its encoders and decoders.
//!
//! Every message starts with a nine-byte header: one byte naming the input format, then the
//! number of inputs as a little-endian `u32`, then a format-specific `u32` (the input length for
//! fixed-length formats, the number of content bytes otherwise).
pub mod bytes;
pub mod floats;
pub mod ints;
pub mod strs;

use crate::compress::lz4_unframe;
use crate::wire::{le_u32, read_u32_le, u32_at, write_u32_le};
use vstd::prelude::*;

pub use bytes::{
    all_bytes, byte_content_len, byte_payload, byte_payloads, decode_fixed_bytes,
    decode_var_bytes, encode_fixed_bytes, encode_var_bytes, fixed_bytes_decoded,
    fixed_bytes_message, fixed_bytes_readable, var_byte_record, var_byte_records, var_bytes_body,
    var_bytes_decoded, var_bytes_message,
};
pub use floats::{
    all_floats, encode_fixed_floats, encode_var_floats, fixed_floats_message, float_content_len,
    float_payload, float_payloads, var_float_record, var_floats_message,
};
pub use ints::{
    all_ints, decode_fixed_ints, decode_var_ints, encode_fixed_ints, encode_var_ints, fixed_ints_body,
    fixed_ints_decoded, fixed_ints_message, fixed_ints_readable, int_content_len, int_payload,
    int_payloads, var_int_record, var_int_records, var_ints_body, var_ints_decoded,
    var_ints_message,
};
pub use strs::{
    all_strs, decode_strs, encode_strs, frame_strs, prefixed, split_strs, split_utf8,
    str_lens, str_payload, str_payloads, strs_compressed, strs_decodable, strs_decoded, strs_message,
    strs_payload, strs_payload_bytes, strs_text, try_decode_strs,
};

verus! {

/// Message code asking the container to shut down.
pub const SHUTDOWN_CODE: u8 = 0;

/// Fixed-length `i32` inputs.
pub const FIXEDINT_CODE: u8 = 1;

/// Fixed-length `f64` inputs.
pub const FIXEDFLOAT_CODE: u8 = 2;

/// Fixed-length byte inputs.
pub const FIXEDBYTE_CODE: u8 = 3;

/// Variable-length `i32` inputs.
pub const VARINT_CODE: u8 = 4;

/// Variable-length `f64` inputs.
pub const VARFLOAT_CODE: u8 = 5;

/// Variable-length byte inputs.
pub const VARBYTE_CODE: u8 = 6;

/// UTF-8 strings, compressed together with LZ4.
pub const STRING_CODE: u8 = 7;

/// Declares `time::PreciseTime`, the moment a request was received. Nothing here reads it;
/// requests only carry it.
#[verifier::external_type_specification]
#[verifier::external_body]
pub struct ExPreciseTime(time::PreciseTime);

/// One prediction input.
///
/// `Floats` holds the IEEE-754 bit patterns of its `f64` values (`f64::to_bits`), which is
/// what goes on the wire.
pub enum Input {
    Ints { i: Vec<i32>, length: i32 },
    Floats { f: Vec<u64>, length: i32 },
    Bytes { b: Vec<u8>, length: i32 },
    Str { s: String },
}

/// The input format a model container expects; a negative length means variable length.
pub enum InputType {
    Integer(i32),
    Float(i32),
    Byte(i32),
    Str,
}

/// A prediction request waiting to be sent in a batch.
pub struct RpcPredictRequest {
    pub input: Input,
    pub recv_time: time::PreciseTime,
}

/// The nine-byte header: format code, number of inputs, format-specific word.
pub open spec fn header(code: u8, count: u32, word: u32) -> Seq<u8> {
    seq![code] + le_u32(count) + le_u32(word)
}

/// The inputs can be encoded as the format `t` asks: there is at least one, each holds the
/// matching variant, and the content-length arithmetic stays within `usize`.
pub open spec fn batch_encodable(reqs: Seq<RpcPredictRequest>, t: InputType) -> bool {
    &&& reqs.len() > 0
    &&& match t {
        InputType::Integer(l) => all_ints(reqs) && (l < 0 ==> int_content_len(int_payloads(reqs))
            + 4 * reqs.len() <= usize::MAX),
        InputType::Float(l) => all_floats(reqs) && (l < 0 ==> float_content_len(
            float_payloads(reqs),
        ) + 4 * reqs.len() <= usize::MAX),
        InputType::Byte(l) => all_bytes(reqs) && (l < 0 ==> byte_content_len(byte_payloads(reqs))
            + 4 * reqs.len() <= usize::MAX),
        InputType::Str => all_strs(reqs) && 4 * reqs.len() + isize::MAX <= usize::MAX,
    }
}

/// The message for a batch: a negative length picks the variable-length encoding of the
/// format, any other length the fixed-length one; strings are framed around `compressed`, their
/// compressed payload.
pub open spec fn batch_message(
    reqs: Seq<RpcPredictRequest>,
    t: InputType,
    compressed: Seq<u8>,
) -> Seq<u8> {
    match t {
        InputType::Integer(l) => if l < 0 {
            var_ints_message(int_payloads(reqs))
        } else {
            fixed_ints_message(int_payloads(reqs), l)
        },
        InputType::Float(l) => if l < 0 {
            var_floats_message(float_payloads(reqs))
        } else {
            fixed_floats_message(float_payloads(reqs), l)
        },
        InputType::Byte(l) => if l < 0 {
            var_bytes_message(byte_payloads(reqs))
        } else {
            fixed_bytes_message(byte_payloads(reqs), l)
        },
        InputType::Str => strs_message(str_payloads(reqs), compressed),
    }
}

/// Encodes a batch of inputs in the format the container expects.
pub fn encode_batch(
    inputs: &Vec<RpcPredictRequest>,
    input_type: &InputType,
) -> (message: Vec<u8>)
    requires
        batch_encodable(inputs@, *input_type),
    ensures
        message@ == batch_message(
            inputs@,
            *input_type,
            strs_compressed(inputs@.len(), message@),
        ),
        *input_type is Str ==> message@.len() >= 9 + 4 * inputs@.len() && lz4_unframe(
            strs_compressed(inputs@.len(), message@),
        ) == Some(strs_payload(str_payloads(inputs@))),
{
    match input_type {
        InputType::Integer(l) => {
            if *l < 0 {
                encode_var_ints(inputs)
            } else {
                encode_fixed_ints(inputs, *l)
            }
        },
        InputType::Float(l) => {
            if *l < 0 {
                encode_var_floats(inputs)
            } else {
                encode_fixed_floats(inputs, *l)
            }
        },
        InputType::Byte(l) => {
            if *l < 0 {
                encode_var_bytes(inputs)
            } else {
                encode_fixed_bytes(inputs, *l)
            }
        },
        InputType::Str => encode_strs(inputs),
    }
}

/// The message asking a container to shut down: the shutdown code and a zero count.
pub fn shutdown_message() -> (message: Vec<u8>)
    ensures
        message@ == seq![SHUTDOWN_CODE] + le_u32(0),
{
    let mut message: Vec<u8> = Vec::new();
    message.push(SHUTDOWN_CODE);
    write_u32_le(&mut message, 0u32);
    message
}

/// The value a container answers a shutdown message with when it complies.
pub const SHUTDOWN_ACK: u32 = 1234;

/// Whether a container's four-byte reply acknowledges the shutdown.
pub fn is_shutdown_ack(response: &Vec<u8>) -> (ack: bool)
    requires
        response@.len() >= 4,
    ensures
        ack == (u32_at(response@, 0) == SHUTDOWN_ACK),
{
    read_u32_le(response.as_slice(), 0) == SHUTDOWN_ACK
}

} // verus!
