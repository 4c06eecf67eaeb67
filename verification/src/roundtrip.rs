//! What the decoders read back from what the encoders wrote, and what every message's header
//! says of the message.
use crate::compress::lz4_unframe;
use crate::rpc::{
    batch_message, byte_content_len, byte_payloads, fixed_bytes_decoded, fixed_bytes_message,
    fixed_bytes_readable, fixed_floats_message, fixed_ints_body, fixed_ints_decoded,
    fixed_ints_message, fixed_ints_readable, float_content_len, float_payloads, header,
    int_content_len, int_payloads, split_utf8, str_lens, str_payloads, strs_decoded,
    strs_message, strs_payload, strs_text, var_byte_record, var_byte_records, var_bytes_body,
    var_bytes_decoded, var_bytes_message, var_float_record, var_floats_message, var_int_record,
    var_int_records, var_ints_body, var_ints_decoded, var_ints_message, InputType,
    RpcPredictRequest, FIXEDBYTE_CODE, FIXEDFLOAT_CODE, FIXEDINT_CODE, STRING_CODE,
    VARBYTE_CODE, VARFLOAT_CODE, VARINT_CODE,
};
use crate::wire::{
    concat, i32s_le, le_u32, lemma_concat_front, lemma_concat_uniform, lemma_i32s_le_index,
    lemma_read_i32s_back, lemma_read_u32_back, lemma_read_u32s_back, lemma_u32s_le_index,
    lemma_read_u64s_back, lemma_u64s_le_index, lemma_u64s_le_len, u32_at, u32s_le, u64s_at,
    u64s_le,
};
use vstd::prelude::*;
use vstd::utf8::{encode_utf8, encode_utf8_decode_utf8, encode_utf8_valid_utf8};

verus! {

/// The header's count and word read back from any message that starts with it.
pub proof fn lemma_header_reads(code: u8, count: u32, word: u32, rest: Seq<u8>)
    ensures
        (header(code, count, word) + rest).len() == 9 + rest.len(),
        (header(code, count, word) + rest)[0] == code,
        u32_at(header(code, count, word) + rest, 1) == count,
        u32_at(header(code, count, word) + rest, 5) == word,
        (header(code, count, word) + rest).subrange(9, 9 + rest.len() as int) == rest,
{
    let m = header(code, count, word) + rest;
    assert(m.subrange(1, 5) =~= le_u32(count));
    assert(m.subrange(5, 9) =~= le_u32(word));
    assert(m.subrange(9, 9 + rest.len() as int) =~= rest);
    lemma_read_u32_back(m, 1, count);
    lemma_read_u32_back(m, 5, word);
}

/// Fixed-length integers: decoding a message that `encode_fixed_ints` wrote gives back every
/// input, when each input has the declared length and their number fits the header.
pub proof fn lemma_fixed_ints_roundtrip(p: Seq<Seq<i32>>, length: i32)
    requires
        0 <= length,
        p.len() <= u32::MAX,
        forall|r: int| 0 <= r < p.len() ==> (#[trigger] p[r]).len() == length,
    ensures
        fixed_ints_readable(fixed_ints_message(p, length)),
        fixed_ints_decoded(fixed_ints_message(p, length)) == p,
{
    let m = fixed_ints_message(p, length);
    let body = fixed_ints_body(p);
    let parts = p.map_values(|x: Seq<i32>| i32s_le(x));
    let len = length as int;
    let w = (4 * len) as nat;
    assert forall|k: int| 0 <= k < parts.len() implies (#[trigger] parts[k]).len() == w by {
        lemma_i32s_le_index(p[k]);
    }
    lemma_concat_uniform(parts, w);
    lemma_header_reads(FIXEDINT_CODE, p.len() as u32, length as u32, body);
    assert(u32_at(m, 5) == len);
    assert(u32_at(m, 1) == p.len());
    assert(4 * p.len() * len == w * p.len()) by (nonlinear_arith)
        requires
            w == 4 * len,
    ;
    let d = fixed_ints_decoded(m);
    assert forall|r: int| 0 <= r < p.len() implies #[trigger] d[r] == p[r] by {
        assert(w * r + w <= w * p.len()) by (nonlinear_arith)
            requires
                0 <= r < p.len(),
        ;
        assert(m.subrange(9 + w * r, 9 + w * r + w) =~= body.subrange(w * r, w * r + w));
        assert(parts[r] == i32s_le(p[r]));
        assert(4 * p[r].len() == w);
        lemma_read_i32s_back(m, 9 + w * r, p[r]);
    }
    assert(d =~= p);
}

/// Fixed-length bytes: decoding a message that `encode_fixed_bytes` wrote gives back every
/// input, when each input has the declared length and their number fits the header.
pub proof fn lemma_fixed_bytes_roundtrip(p: Seq<Seq<u8>>, length: i32)
    requires
        0 <= length,
        p.len() <= u32::MAX,
        forall|r: int| 0 <= r < p.len() ==> (#[trigger] p[r]).len() == length,
    ensures
        fixed_bytes_readable(fixed_bytes_message(p, length)),
        fixed_bytes_decoded(fixed_bytes_message(p, length)) == p,
{
    let m = fixed_bytes_message(p, length);
    let body = concat(p);
    let w = length as nat;
    lemma_concat_uniform(p, w);
    lemma_header_reads(FIXEDBYTE_CODE, p.len() as u32, length as u32, body);
    assert(p.len() * w == w * p.len()) by (nonlinear_arith);
    let d = fixed_bytes_decoded(m);
    assert forall|r: int| 0 <= r < p.len() implies #[trigger] d[r] == p[r] by {
        assert(w * r + w <= w * p.len()) by (nonlinear_arith)
            requires
                0 <= r < p.len(),
        ;
        assert(m.subrange(9 + w * r, 9 + w * r + w) =~= body.subrange(w * r, w * r + w));
    }
    assert(d =~= p);
}

/// The records of `p`, written after any prefix, read back as `p`.
proof fn lemma_var_int_records_read(pre: Seq<u8>, p: Seq<Seq<i32>>)
    requires
        forall|r: int| 0 <= r < p.len() ==> (#[trigger] p[r]).len() <= u32::MAX,
    ensures
        var_int_records(pre + var_ints_body(p), pre.len() as int, p.len()) == Some(p),
    decreases p.len(),
{
    let b = pre + var_ints_body(p);
    if p.len() == 0 {
        assert(Seq::<Seq<i32>>::empty() =~= p);
    } else {
        let f = |x: Seq<i32>| var_int_record(x);
        let parts = p.map_values(f);
        let x = p[0];
        let rest = p.drop_first();
        lemma_concat_front(parts);
        assert(parts.drop_first() =~= rest.map_values(f));
        let pre2 = pre + var_int_record(x);
        assert(b =~= pre2 + var_ints_body(rest));
        assert forall|r: int| 0 <= r < rest.len() implies (#[trigger] rest[r]).len()
            <= u32::MAX by {
            assert(rest[r] == p[r + 1]);
        }
        lemma_var_int_records_read(pre2, rest);
        lemma_i32s_le_index(x);
        let pos = pre.len() as int;
        assert(b.subrange(pos, pos + 4) =~= le_u32(x.len() as u32));
        lemma_read_u32_back(b, pos, x.len() as u32);
        assert(b.subrange(pos + 4, pos + 4 + 4 * x.len()) =~= i32s_le(x));
        lemma_read_i32s_back(b, pos + 4, x);
        assert(pre2.len() == pos + 4 + 4 * x.len());
        assert(seq![x] + rest =~= p);
    }
}

/// Variable-length integers: decoding a message that `encode_var_ints` wrote gives back every
/// input, when their number and each input's length fit the header's 32-bit fields.
pub proof fn lemma_var_ints_roundtrip(p: Seq<Seq<i32>>)
    requires
        p.len() <= u32::MAX,
        forall|r: int| 0 <= r < p.len() ==> (#[trigger] p[r]).len() <= u32::MAX,
    ensures
        var_ints_decoded(var_ints_message(p)) == Some(p),
{
    let word = (crate::rpc::int_content_len(p) + 4 * p.len()) as u32;
    lemma_header_reads(VARINT_CODE, p.len() as u32, word, var_ints_body(p));
    lemma_var_int_records_read(header(VARINT_CODE, p.len() as u32, word), p);
}

/// The records of `p`, written after any prefix, read back as `p`.
proof fn lemma_var_byte_records_read(pre: Seq<u8>, p: Seq<Seq<u8>>)
    requires
        forall|r: int| 0 <= r < p.len() ==> (#[trigger] p[r]).len() <= u32::MAX,
    ensures
        var_byte_records(pre + var_bytes_body(p), pre.len() as int, p.len()) == Some(p),
    decreases p.len(),
{
    let b = pre + var_bytes_body(p);
    if p.len() == 0 {
        assert(Seq::<Seq<u8>>::empty() =~= p);
    } else {
        let f = |x: Seq<u8>| var_byte_record(x);
        let parts = p.map_values(f);
        let x = p[0];
        let rest = p.drop_first();
        lemma_concat_front(parts);
        assert(parts.drop_first() =~= rest.map_values(f));
        let pre2 = pre + var_byte_record(x);
        assert(b =~= pre2 + var_bytes_body(rest));
        assert forall|r: int| 0 <= r < rest.len() implies (#[trigger] rest[r]).len()
            <= u32::MAX by {
            assert(rest[r] == p[r + 1]);
        }
        lemma_var_byte_records_read(pre2, rest);
        let pos = pre.len() as int;
        assert(b.subrange(pos, pos + 4) =~= le_u32(x.len() as u32));
        lemma_read_u32_back(b, pos, x.len() as u32);
        assert(b.subrange(pos + 4, pos + 4 + x.len()) =~= x);
        assert(pre2.len() == pos + 4 + x.len());
        assert(seq![x] + rest =~= p);
    }
}

/// Variable-length bytes: decoding a message that `encode_var_bytes` wrote gives back every
/// input, when their number and each input's length fit the header's 32-bit fields.
pub proof fn lemma_var_bytes_roundtrip(p: Seq<Seq<u8>>)
    requires
        p.len() <= u32::MAX,
        forall|r: int| 0 <= r < p.len() ==> (#[trigger] p[r]).len() <= u32::MAX,
    ensures
        var_bytes_decoded(var_bytes_message(p)) == Some(p),
{
    let word = (crate::rpc::byte_content_len(p) + 4 * p.len()) as u32;
    lemma_header_reads(VARBYTE_CODE, p.len() as u32, word, var_bytes_body(p));
    lemma_var_byte_records_read(header(VARBYTE_CODE, p.len() as u32, word), p);
}

/// The strings of `p`, written back to back before any tail, split back into `p` by their
/// byte lengths.
proof fn lemma_split_strs_text(p: Seq<Seq<char>>, tail: Seq<u8>)
    requires
        forall|r: int| 0 <= r < p.len() ==> encode_utf8(#[trigger] p[r]).len() <= u32::MAX,
    ensures
        split_utf8(strs_text(p) + tail, str_lens(p)) == Some(p),
    decreases p.len(),
{
    let d = strs_text(p) + tail;
    let lens = str_lens(p);
    if p.len() == 0 {
        assert(Seq::<Seq<char>>::empty() =~= p);
    } else {
        let f = |s: Seq<char>| encode_utf8(s);
        let parts = p.map_values(f);
        let x = p[0];
        let rest = p.drop_first();
        lemma_concat_front(parts);
        assert(parts.drop_first() =~= rest.map_values(f));
        let bx = encode_utf8(x);
        let l = bx.len() as int;
        assert(lens[0] as int == l);
        assert(d.take(l) =~= bx);
        assert(d.skip(l) =~= strs_text(rest) + tail);
        assert(lens.drop_first() =~= str_lens(rest));
        encode_utf8_valid_utf8(x);
        encode_utf8_decode_utf8(x);
        assert forall|r: int| 0 <= r < rest.len() implies encode_utf8(#[trigger] rest[r]).len()
            <= u32::MAX by {
            assert(rest[r] == p[r + 1]);
        }
        lemma_split_strs_text(rest, tail);
        assert(seq![x] + rest =~= p);
    }
}

/// Strings: decoding a message framed around any payload that decompresses to the strings'
/// bytes (as `lz4_compress` output does) gives back every string, when their number and each
/// one's byte length fit the header's 32-bit fields.
pub proof fn lemma_strs_roundtrip(p: Seq<Seq<char>>, compressed: Seq<u8>)
    requires
        p.len() <= u32::MAX,
        forall|r: int| 0 <= r < p.len() ==> encode_utf8(#[trigger] p[r]).len() <= u32::MAX,
        lz4_unframe(compressed) == Some(strs_payload(p)),
    ensures
        strs_decoded(strs_message(p, compressed)) == Some(p),
{
    let n = p.len() as int;
    let lens = str_lens(p);
    let word = (compressed.len() + 4 * n) as u32;
    let m = strs_message(p, compressed);
    let rest = u32s_le(lens) + compressed;
    assert(m =~= header(STRING_CODE, n as u32, word) + rest);
    lemma_header_reads(STRING_CODE, n as u32, word, rest);
    lemma_u32s_le_index(lens);
    assert(m.subrange(9, 9 + 4 * n) =~= u32s_le(lens));
    lemma_read_u32s_back(m, 9, lens);
    assert(m.subrange(9 + 4 * n, m.len() as int) =~= compressed);
    assert(strs_payload(p) =~= strs_text(p) + seq![10u8]);
    lemma_split_strs_text(p, seq![10u8]);
}

/// The records of a variable-length integer message take the bytes its header counts.
proof fn lemma_var_ints_body_len(p: Seq<Seq<i32>>)
    ensures
        var_ints_body(p).len() == int_content_len(p) + 4 * p.len(),
    decreases p.len(),
{
    if p.len() > 0 {
        let f = |x: Seq<i32>| var_int_record(x);
        assert(p.map_values(f).drop_last() =~= p.drop_last().map_values(f));
        lemma_var_ints_body_len(p.drop_last());
        lemma_i32s_le_index(p.last());
    }
}

/// The records of a variable-length byte message take the bytes its header counts.
proof fn lemma_var_bytes_body_len(p: Seq<Seq<u8>>)
    ensures
        var_bytes_body(p).len() == byte_content_len(p) + 4 * p.len(),
    decreases p.len(),
{
    if p.len() > 0 {
        let f = |x: Seq<u8>| var_byte_record(x);
        assert(p.map_values(f).drop_last() =~= p.drop_last().map_values(f));
        lemma_var_bytes_body_len(p.drop_last());
    }
}

/// The records of a variable-length float message take the bytes its header counts.
proof fn lemma_var_floats_body_len(p: Seq<Seq<u64>>)
    ensures
        concat(p.map_values(|x: Seq<u64>| var_float_record(x))).len() == float_content_len(p) + 4
            * p.len(),
    decreases p.len(),
{
    if p.len() > 0 {
        let f = |x: Seq<u64>| var_float_record(x);
        assert(p.map_values(f).drop_last() =~= p.drop_last().map_values(f));
        lemma_var_floats_body_len(p.drop_last());
        lemma_u64s_le_len(p.last());
    }
}

/// The format code that starts a batch of format `t`: a negative length picks the
/// variable-length code.
pub open spec fn format_code(t: InputType) -> u8 {
    match t {
        InputType::Integer(l) => if l < 0 {
            VARINT_CODE
        } else {
            FIXEDINT_CODE
        },
        InputType::Float(l) => if l < 0 {
            VARFLOAT_CODE
        } else {
            FIXEDFLOAT_CODE
        },
        InputType::Byte(l) => if l < 0 {
            VARBYTE_CODE
        } else {
            FIXEDBYTE_CODE
        },
        InputType::Str => STRING_CODE,
    }
}

/// Every batch message starts with its nine-byte header: the format code, then the number of
/// inputs; then, for a fixed-length format, the declared input length, and otherwise the
/// number of bytes that follow the header (all counts truncated to 32 bits).
pub proof fn lemma_batch_header(reqs: Seq<RpcPredictRequest>, t: InputType, compressed: Seq<u8>)
    ensures
        batch_message(reqs, t, compressed).len() >= 9,
        batch_message(reqs, t, compressed)[0] == format_code(t),
        u32_at(batch_message(reqs, t, compressed), 1) == reqs.len() as u32,
        match t {
            InputType::Integer(l) => l >= 0 ==> u32_at(batch_message(reqs, t, compressed), 5)
                == l as u32,
            InputType::Float(l) => l >= 0 ==> u32_at(batch_message(reqs, t, compressed), 5)
                == l as u32,
            InputType::Byte(l) => l >= 0 ==> u32_at(batch_message(reqs, t, compressed), 5)
                == l as u32,
            InputType::Str => true,
        },
        (match t {
            InputType::Integer(l) => l < 0,
            InputType::Float(l) => l < 0,
            InputType::Byte(l) => l < 0,
            InputType::Str => true,
        }) ==> u32_at(batch_message(reqs, t, compressed), 5) == (batch_message(
            reqs,
            t,
            compressed,
        ).len() - 9) as u32,
{
    let n = reqs.len();
    match t {
        InputType::Integer(l) => {
            let p = int_payloads(reqs);
            if l < 0 {
                let word = (int_content_len(p) + 4 * n) as u32;
                lemma_var_ints_body_len(p);
                lemma_header_reads(VARINT_CODE, n as u32, word, var_ints_body(p));
            } else {
                lemma_header_reads(FIXEDINT_CODE, n as u32, l as u32, fixed_ints_body(p));
            }
        },
        InputType::Float(l) => {
            let p = float_payloads(reqs);
            if l < 0 {
                let word = (float_content_len(p) + 4 * n) as u32;
                let body = concat(p.map_values(|x: Seq<u64>| var_float_record(x)));
                lemma_var_floats_body_len(p);
                lemma_header_reads(VARFLOAT_CODE, n as u32, word, body);
                assert(var_floats_message(p) == header(VARFLOAT_CODE, n as u32, word)
                    + body);
            } else {
                let body = concat(p.map_values(|x: Seq<u64>| u64s_le(x)));
                lemma_header_reads(FIXEDFLOAT_CODE, n as u32, l as u32, body);
                assert(fixed_floats_message(p, l) == header(
                    FIXEDFLOAT_CODE,
                    n as u32,
                    l as u32,
                ) + body);
            }
        },
        InputType::Byte(l) => {
            let p = byte_payloads(reqs);
            if l < 0 {
                let word = (byte_content_len(p) + 4 * n) as u32;
                lemma_var_bytes_body_len(p);
                lemma_header_reads(VARBYTE_CODE, n as u32, word, var_bytes_body(p));
            } else {
                lemma_header_reads(FIXEDBYTE_CODE, n as u32, l as u32, concat(p));
            }
        },
        InputType::Str => {
            let p = str_payloads(reqs);
            let c = compressed;
            let word = (c.len() + 4 * n) as u32;
            let rest = u32s_le(str_lens(p)) + c;
            lemma_u32s_le_index(str_lens(p));
            assert(strs_message(p, c) =~= header(STRING_CODE, n as u32, word) + rest);
            lemma_header_reads(STRING_CODE, n as u32, word, rest);
        },
    }
}

/// What a reader takes from a fixed-length float message: as many inputs as the header
/// counts, each of the header's length, eight little-endian bytes per value, back to back.
pub open spec fn fixed_floats_read(b: Seq<u8>) -> Seq<Seq<u64>> {
    let n = u32_at(b, 1) as nat;
    let len = u32_at(b, 5) as int;
    Seq::new(n, |r: int| u64s_at(b, 9 + 8 * len * r, len as nat))
}

/// Fixed-length floats: the message that `encode_fixed_floats` writes is its header followed
/// by every input's values in request order, eight little-endian bytes each, so reading it
/// back gives every input, when each input has the declared length and their number fits the
/// header.
pub proof fn lemma_fixed_floats_roundtrip(p: Seq<Seq<u64>>, length: i32)
    requires
        0 <= length,
        p.len() <= u32::MAX,
        forall|r: int| 0 <= r < p.len() ==> (#[trigger] p[r]).len() == length,
    ensures
        fixed_floats_message(p, length).len() == 9 + 8 * (length as int) * p.len(),
        fixed_floats_message(p, length)[0] == FIXEDFLOAT_CODE,
        fixed_floats_read(fixed_floats_message(p, length)) == p,
{
    let m = fixed_floats_message(p, length);
    let parts = p.map_values(|x: Seq<u64>| u64s_le(x));
    let body = concat(parts);
    let len = length as int;
    let w = (8 * len) as nat;
    assert forall|k: int| 0 <= k < parts.len() implies (#[trigger] parts[k]).len() == w by {
        lemma_u64s_le_index(p[k]);
    }
    lemma_concat_uniform(parts, w);
    lemma_header_reads(FIXEDFLOAT_CODE, p.len() as u32, length as u32, body);
    assert(m == header(FIXEDFLOAT_CODE, p.len() as u32, length as u32) + body);
    assert(u32_at(m, 5) == len);
    assert(u32_at(m, 1) == p.len());
    assert(8 * len * p.len() == w * p.len()) by (nonlinear_arith)
        requires
            w == 8 * len,
    ;
    let d = fixed_floats_read(m);
    assert forall|r: int| 0 <= r < p.len() implies #[trigger] d[r] == p[r] by {
        assert(w * r + w <= w * p.len()) by (nonlinear_arith)
            requires
                0 <= r < p.len(),
        ;
        assert(m.subrange(9 + w * r, 9 + w * r + w) =~= body.subrange(w * r, w * r + w));
        assert(parts[r] == u64s_le(p[r]));
        assert(8 * p[r].len() == w);
        lemma_read_u64s_back(m, 9 + w * r, p[r]);
    }
    assert(d =~= p);
}

/// The `k` records that start at `pos` of a variable-length float message (a `u32` count,
/// then that many little-endian `u64`s), or `None` if the bytes run out first.
pub open spec fn var_float_records(b: Seq<u8>, pos: int, k: nat) -> Option<Seq<Seq<u64>>>
    decreases k,
{
    if k == 0 {
        Some(Seq::empty())
    } else if pos + 4 > b.len() {
        None
    } else {
        let len = u32_at(b, pos) as int;
        let end = pos + 4 + 8 * len;
        if end > b.len() {
            None
        } else {
            match var_float_records(b, end, (k - 1) as nat) {
                Some(rest) => Some(seq![u64s_at(b, pos + 4, len as nat)] + rest),
                None => None,
            }
        }
    }
}

/// What a reader takes from a variable-length float message, or `None` if it is not one or
/// its bytes run out.
pub open spec fn var_floats_read(b: Seq<u8>) -> Option<Seq<Seq<u64>>> {
    if b.len() >= 9 && b[0] == VARFLOAT_CODE {
        var_float_records(b, 9, u32_at(b, 1) as nat)
    } else {
        None
    }
}

/// The records of `p`, written after any prefix, read back as `p`.
proof fn lemma_var_float_records_read(pre: Seq<u8>, p: Seq<Seq<u64>>)
    requires
        forall|r: int| 0 <= r < p.len() ==> (#[trigger] p[r]).len() <= u32::MAX,
    ensures
        var_float_records(
            pre + concat(p.map_values(|x: Seq<u64>| var_float_record(x))),
            pre.len() as int,
            p.len(),
        ) == Some(p),
    decreases p.len(),
{
    let f = |x: Seq<u64>| var_float_record(x);
    let parts = p.map_values(f);
    let b = pre + concat(parts);
    if p.len() == 0 {
        assert(Seq::<Seq<u64>>::empty() =~= p);
    } else {
        let x = p[0];
        let rest = p.drop_first();
        lemma_concat_front(parts);
        assert(parts.drop_first() =~= rest.map_values(f));
        let pre2 = pre + var_float_record(x);
        assert(b =~= pre2 + concat(rest.map_values(f)));
        assert forall|r: int| 0 <= r < rest.len() implies (#[trigger] rest[r]).len()
            <= u32::MAX by {
            assert(rest[r] == p[r + 1]);
        }
        lemma_var_float_records_read(pre2, rest);
        lemma_u64s_le_index(x);
        let pos = pre.len() as int;
        assert(b.subrange(pos, pos + 4) =~= le_u32(x.len() as u32));
        lemma_read_u32_back(b, pos, x.len() as u32);
        assert(b.subrange(pos + 4, pos + 4 + 8 * x.len()) =~= u64s_le(x));
        lemma_read_u64s_back(b, pos + 4, x);
        assert(pre2.len() == pos + 4 + 8 * x.len());
        assert(seq![x] + rest =~= p);
    }
}

/// Variable-length floats: the message that `encode_var_floats` writes holds every input in
/// request order, its length and then its values, so reading it back gives every input, when
/// their number and each input's length fit the header's 32-bit fields.
pub proof fn lemma_var_floats_roundtrip(p: Seq<Seq<u64>>)
    requires
        p.len() <= u32::MAX,
        forall|r: int| 0 <= r < p.len() ==> (#[trigger] p[r]).len() <= u32::MAX,
    ensures
        var_floats_read(var_floats_message(p)) == Some(p),
{
    let word = (float_content_len(p) + 4 * p.len()) as u32;
    let body = concat(p.map_values(|x: Seq<u64>| var_float_record(x)));
    lemma_header_reads(VARFLOAT_CODE, p.len() as u32, word, body);
    lemma_var_float_records_read(header(VARFLOAT_CODE, p.len() as u32, word), p);
}

} // verus!
