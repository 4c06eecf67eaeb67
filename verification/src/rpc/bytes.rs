//! Byte inputs: fixed-length and variable-length messages of raw bytes.
use super::{header, Input, RpcPredictRequest, FIXEDBYTE_CODE, VARBYTE_CODE};
use crate::wire::{concat, le_u32, lemma_concat_push, read_u32_le, u32_at, write_u32_le, write_u8};
use vstd::prelude::*;

verus! {

/// The bytes of a `Bytes` input (empty for any other variant).
pub open spec fn byte_payload(r: RpcPredictRequest) -> Seq<u8> {
    match r.input {
        Input::Bytes { b, .. } => b@,
        _ => Seq::empty(),
    }
}

/// The bytes of every request, assuming each is a `Bytes` input.
pub open spec fn byte_payloads(reqs: Seq<RpcPredictRequest>) -> Seq<Seq<u8>> {
    reqs.map_values(|r: RpcPredictRequest| byte_payload(r))
}

/// Every request holds a `Bytes` input.
pub open spec fn all_bytes(reqs: Seq<RpcPredictRequest>) -> bool {
    forall|k: int| 0 <= k < reqs.len() ==> (#[trigger] reqs[k]).input is Bytes
}

/// The whole fixed-length byte message for inputs `p` of declared length `length`.
pub open spec fn fixed_bytes_message(p: Seq<Seq<u8>>, length: i32) -> Seq<u8> {
    header(FIXEDBYTE_CODE, p.len() as u32, length as u32) + concat(p)
}

/// A fixed-length byte message that the decoder can read without running out of bytes.
pub open spec fn fixed_bytes_readable(b: Seq<u8>) -> bool {
    &&& b.len() >= 9
    &&& b[0] == FIXEDBYTE_CODE
    &&& 9 + (u32_at(b, 1) as int) * (u32_at(b, 5) as int) <= b.len()
}

/// What the decoder reads from a fixed-length byte message: as many inputs as the header
/// counts, each of the header's length, read back to back after the header.
pub open spec fn fixed_bytes_decoded(b: Seq<u8>) -> Seq<Seq<u8>> {
    let n = u32_at(b, 1) as nat;
    let len = u32_at(b, 5) as int;
    Seq::new(n, |r: int| b.subrange(9 + len * r, 9 + len * r + len))
}

/// Encodes byte inputs of a fixed length.
pub fn encode_fixed_bytes(inputs: &Vec<RpcPredictRequest>, length: i32) -> (message: Vec<u8>)
    requires
        all_bytes(inputs@),
    ensures
        message@ == fixed_bytes_message(byte_payloads(inputs@), length),
{
    let mut message: Vec<u8> = Vec::new();
    message.push(FIXEDBYTE_CODE);
    write_u32_le(&mut message, inputs.len() as u32);
    write_u32_le(&mut message, length as u32);
    let ghost p = byte_payloads(inputs@);
    let ghost head = header(FIXEDBYTE_CODE, inputs.len() as u32, length as u32);
    assert(message@ =~= head + concat(p.take(0)));
    let mut r: usize = 0;
    while r < inputs.len()
        invariant
            r <= inputs.len(),
            all_bytes(inputs@),
            p == byte_payloads(inputs@),
            message@ == head + concat(p.take(r as int)),
        decreases inputs.len() - r,
    {
        let ghost before = message@;
        proof {
            assert(inputs@[r as int].input is Bytes);
        }
        match &inputs[r].input {
            Input::Bytes { b, .. } => {
                let mut j: usize = 0;
                assert(before =~= before + b@.take(0));
                while j < b.len()
                    invariant
                        j <= b.len(),
                        message@ == before + b@.take(j as int),
                    decreases b.len() - j,
                {
                    write_u8(&mut message, b[j]);
                    proof {
                        assert(before + b@.take(j + 1) =~= (before + b@.take(j as int)).push(
                            b@[j as int],
                        ));
                    }
                    j += 1;
                }
                proof {
                    assert(b@.take(j as int) =~= b@);
                    assert(p[r as int] == b@);
                    assert(p.take(r + 1) =~= p.take(r as int).push(p[r as int]));
                    lemma_concat_push(p.take(r as int), p[r as int]);
                }
            },
            _ => {
                assert(false);
            },
        }
        r += 1;
    }
    assert(p.take(r as int) =~= p);
    message
}

/// Decodes a fixed-length byte message.
pub fn decode_fixed_bytes(bytes: &mut Vec<u8>) -> (inputs: Vec<Vec<u8>>)
    requires
        fixed_bytes_readable(old(bytes)@),
    ensures
        final(bytes)@ == old(bytes)@,
        inputs.deep_view() == fixed_bytes_decoded(old(bytes)@),
{
    let b = bytes.as_slice();
    let ghost bs = b@;
    let num_inputs = read_u32_le(b, 1);
    let inp_len = read_u32_le(b, 5);
    let ghost n = num_inputs as int;
    let ghost len = inp_len as int;
    let ghost want = fixed_bytes_decoded(bs);
    let mut responses: Vec<Vec<u8>> = Vec::new();
    let mut pos: usize = 9;
    let mut r: u32 = 0;
    while r < num_inputs
        invariant
            b@ == bs,
            fixed_bytes_readable(bs),
            n == u32_at(bs, 1),
            len == u32_at(bs, 5),
            want == fixed_bytes_decoded(bs),
            num_inputs == n,
            inp_len == len,
            r <= n,
            pos == 9 + len * r,
            responses.deep_view() =~= want.take(r as int),
        decreases n - r,
    {
        proof {
            assert(len * r + len <= len * n) by (nonlinear_arith)
                requires
                    r < n,
                    0 <= len,
            ;
            assert(len * (r + 1) == len * r + len) by (nonlinear_arith);
            assert(n * len == len * n) by (nonlinear_arith);
        }
        let ghost start = pos as int;
        let mut cur: Vec<u8> = Vec::new();
        let mut j: u32 = 0;
        while j < inp_len
            invariant
                b@ == bs,
                bs.len() == b.len(),
                j <= len,
                inp_len == len,
                start == 9 + len * r,
                0 <= start,
                start + len <= bs.len(),
                pos == start + j,
                cur@ =~= bs.subrange(start, start + j),
            decreases len - j,
        {
            cur.push(b[pos]);
            pos = pos + 1;
            j = j + 1;
        }
        proof {
            assert(cur.deep_view() =~= cur@);
            assert(want[r as int] == bs.subrange(start, start + len));
            assert(want.take(r + 1) =~= want.take(r as int).push(want[r as int]));
        }
        responses.push(cur);
        r = r + 1;
    }
    assert(want.take(n) =~= want);
    responses
}

/// One input of a variable-length byte message: its length, then its bytes.
pub open spec fn var_byte_record(x: Seq<u8>) -> Seq<u8> {
    le_u32(x.len() as u32) + x
}

/// The bytes taken by the inputs `p` themselves.
pub open spec fn byte_content_len(p: Seq<Seq<u8>>) -> int
    decreases p.len(),
{
    if p.len() == 0 {
        0
    } else {
        byte_content_len(p.drop_last()) + p.last().len()
    }
}

/// The payload of a variable-length byte message: each input's record, back to back.
pub open spec fn var_bytes_body(p: Seq<Seq<u8>>) -> Seq<u8> {
    concat(p.map_values(|x: Seq<u8>| var_byte_record(x)))
}

/// The whole variable-length byte message for inputs `p`; the header's word is the number of
/// content bytes, the inputs' bytes plus four per length prefix, truncated to 32 bits.
pub open spec fn var_bytes_message(p: Seq<Seq<u8>>) -> Seq<u8> {
    header(VARBYTE_CODE, p.len() as u32, (byte_content_len(p) + 4 * p.len()) as u32)
        + var_bytes_body(p)
}

/// The `k` records that start at `pos` of a variable-length byte message, or `None` if the
/// bytes run out first.
pub open spec fn var_byte_records(b: Seq<u8>, pos: int, k: nat) -> Option<Seq<Seq<u8>>>
    decreases k,
{
    if k == 0 {
        Some(Seq::empty())
    } else if pos + 4 > b.len() {
        None
    } else {
        let len = u32_at(b, pos) as int;
        let end = pos + 4 + len;
        if end > b.len() {
            None
        } else {
            match var_byte_records(b, end, (k - 1) as nat) {
                Some(rest) => Some(seq![b.subrange(pos + 4, end)] + rest),
                None => None,
            }
        }
    }
}

/// What the decoder reads from a variable-length byte message, or `None` if the message is
/// not one or its bytes run out.
pub open spec fn var_bytes_decoded(b: Seq<u8>) -> Option<Seq<Seq<u8>>> {
    if b.len() >= 9 && b[0] == VARBYTE_CODE {
        var_byte_records(b, 9, u32_at(b, 1) as nat)
    } else {
        None
    }
}

/// A prefix of the inputs takes no more content bytes than all of them.
pub proof fn lemma_byte_content_len_prefix(p: Seq<Seq<u8>>, r: int)
    requires
        0 <= r <= p.len(),
    ensures
        0 <= byte_content_len(p.take(r)) <= byte_content_len(p),
    decreases p.len(),
{
    if r == p.len() {
        assert(p.take(r) =~= p);
        if p.len() > 0 {
            lemma_byte_content_len_prefix(p.drop_last(), 0);
        }
    } else {
        assert(p.take(r) =~= p.drop_last().take(r));
        lemma_byte_content_len_prefix(p.drop_last(), r);
    }
}

/// Encodes byte inputs of varying lengths.
pub fn encode_var_bytes(inputs: &Vec<RpcPredictRequest>) -> (message: Vec<u8>)
    requires
        all_bytes(inputs@),
        byte_content_len(byte_payloads(inputs@)) + 4 * inputs@.len() <= usize::MAX,
    ensures
        message@ == var_bytes_message(byte_payloads(inputs@)),
{
    let mut message: Vec<u8> = Vec::new();
    message.push(VARBYTE_CODE);
    write_u32_le(&mut message, inputs.len() as u32);
    let ghost p = byte_payloads(inputs@);
    let mut content_len: usize = 0;
    let mut r: usize = 0;
    while r < inputs.len()
        invariant
            r <= inputs.len(),
            all_bytes(inputs@),
            p == byte_payloads(inputs@),
            byte_content_len(p) + 4 * p.len() <= usize::MAX,
            content_len == byte_content_len(p.take(r as int)),
        decreases inputs.len() - r,
    {
        proof {
            assert(inputs@[r as int].input is Bytes);
            assert(p.take(r + 1).drop_last() =~= p.take(r as int));
            lemma_byte_content_len_prefix(p, r + 1);
        }
        match &inputs[r].input {
            Input::Bytes { b, .. } => {
                assert(p[r as int] == b@);
                content_len = content_len + b.len();
            },
            _ => {
                assert(false);
            },
        }
        r += 1;
    }
    assert(p.take(r as int) =~= p);
    content_len = content_len + 4 * inputs.len();
    write_u32_le(&mut message, content_len as u32);
    let ghost f = |x: Seq<u8>| var_byte_record(x);
    let ghost head = header(VARBYTE_CODE, inputs.len() as u32, content_len as u32);
    assert(message@ =~= head + concat(p.take(0).map_values(f)));
    let mut r: usize = 0;
    while r < inputs.len()
        invariant
            r <= inputs.len(),
            all_bytes(inputs@),
            p == byte_payloads(inputs@),
            f == (|x: Seq<u8>| var_byte_record(x)),
            message@ == head + concat(p.take(r as int).map_values(f)),
        decreases inputs.len() - r,
    {
        let ghost before = message@;
        proof {
            assert(inputs@[r as int].input is Bytes);
        }
        match &inputs[r].input {
            Input::Bytes { b, .. } => {
                write_u32_le(&mut message, b.len() as u32);
                let ghost mid = message@;
                let mut j: usize = 0;
                assert(mid =~= mid + b@.take(0));
                while j < b.len()
                    invariant
                        j <= b.len(),
                        message@ == mid + b@.take(j as int),
                    decreases b.len() - j,
                {
                    write_u8(&mut message, b[j]);
                    proof {
                        assert(mid + b@.take(j + 1) =~= (mid + b@.take(j as int)).push(
                            b@[j as int],
                        ));
                    }
                    j += 1;
                }
                proof {
                    assert(b@.take(j as int) =~= b@);
                    assert(p[r as int] == b@);
                    assert(message@ =~= before + f(p[r as int]));
                    assert(p.take(r + 1).map_values(f) =~= p.take(r as int).map_values(f).push(
                        f(p[r as int]),
                    ));
                    lemma_concat_push(p.take(r as int).map_values(f), f(p[r as int]));
                }
            },
            _ => {
                assert(false);
            },
        }
        r += 1;
    }
    assert(p.take(r as int) =~= p);
    message
}

/// Decodes a variable-length byte message.
pub fn decode_var_bytes(bytes: &mut Vec<u8>) -> (inputs: Vec<Vec<u8>>)
    requires
        var_bytes_decoded(old(bytes)@) is Some,
    ensures
        final(bytes)@ == old(bytes)@,
        inputs.deep_view() == var_bytes_decoded(old(bytes)@)->0,
{
    let b = bytes.as_slice();
    let ghost bs = b@;
    let num_inputs = read_u32_le(b, 1);
    let _content_len = read_u32_le(b, 5);
    let ghost n = num_inputs as int;
    let ghost want = var_bytes_decoded(bs)->0;
    let mut responses: Vec<Vec<u8>> = Vec::new();
    let mut pos: usize = 9;
    let mut r: u32 = 0;
    while r < num_inputs
        invariant
            b@ == bs,
            bs.len() == b.len(),
            num_inputs == n,
            r <= n,
            var_byte_records(bs, pos as int, (n - r) as nat) is Some,
            want == responses.deep_view() + var_byte_records(bs, pos as int, (n - r) as nat)->0,
        decreases n - r,
    {
        let ghost k = (n - r) as nat;
        let ghost rest = var_byte_records(bs, pos as int, k)->0;
        let inp_len = read_u32_le(b, pos);
        let ghost len = inp_len as int;
        let ghost start = pos + 4;
        let ghost tail = var_byte_records(bs, start + len, (k - 1) as nat)->0;
        assert(rest == seq![bs.subrange(start, start + len)] + tail);
        pos = pos + 4;
        let mut cur: Vec<u8> = Vec::new();
        let mut j: u32 = 0;
        while j < inp_len
            invariant
                b@ == bs,
                bs.len() == b.len(),
                j <= len,
                inp_len == len,
                0 <= start,
                start + len <= bs.len(),
                pos == start + j,
                cur@ =~= bs.subrange(start, start + j),
            decreases len - j,
        {
            cur.push(b[pos]);
            pos = pos + 1;
            j = j + 1;
        }
        proof {
            assert(cur.deep_view() =~= cur@);
            assert(responses.deep_view().push(cur@) + tail =~= responses.deep_view() + rest);
        }
        responses.push(cur);
        r = r + 1;
    }
    assert(want =~= responses.deep_view());
    responses
}

} // verus!
