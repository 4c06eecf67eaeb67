//! Integer inputs: fixed-length and variable-length messages of little-endian `i32`s.
use super::{header, Input, RpcPredictRequest, FIXEDINT_CODE, VARINT_CODE};
use crate::wire::{
    concat, i32s_at, i32s_le, le_u32, lemma_concat_push, read_i32_le, read_u32_le, u32_at,
    write_i32_le, write_u32_le,
};
use vstd::prelude::*;

verus! {

/// The values of an `Ints` input (empty for any other variant).
pub open spec fn int_payload(r: RpcPredictRequest) -> Seq<i32> {
    match r.input {
        Input::Ints { i, .. } => i@,
        _ => Seq::empty(),
    }
}

/// The values of every request, assuming each is an `Ints` input.
pub open spec fn int_payloads(reqs: Seq<RpcPredictRequest>) -> Seq<Seq<i32>> {
    reqs.map_values(|r: RpcPredictRequest| int_payload(r))
}

/// Every request holds an `Ints` input.
pub open spec fn all_ints(reqs: Seq<RpcPredictRequest>) -> bool {
    forall|k: int| 0 <= k < reqs.len() ==> (#[trigger] reqs[k]).input is Ints
}

/// The payload of a fixed-length integer message: each input's values, back to back.
pub open spec fn fixed_ints_body(p: Seq<Seq<i32>>) -> Seq<u8> {
    concat(p.map_values(|x: Seq<i32>| i32s_le(x)))
}

/// The whole fixed-length integer message for inputs `p` of declared length `length`.
pub open spec fn fixed_ints_message(p: Seq<Seq<i32>>, length: i32) -> Seq<u8> {
    header(FIXEDINT_CODE, p.len() as u32, length as u32) + fixed_ints_body(p)
}

/// A fixed-length integer message that the decoder can read without running out of bytes.
pub open spec fn fixed_ints_readable(b: Seq<u8>) -> bool {
    &&& b.len() >= 9
    &&& b[0] == FIXEDINT_CODE
    &&& 9 + 4 * (u32_at(b, 1) as int) * (u32_at(b, 5) as int) <= b.len()
}

/// What the decoder reads from a fixed-length integer message: as many inputs as the header
/// counts, each of the header's length, read back to back after the header.
pub open spec fn fixed_ints_decoded(b: Seq<u8>) -> Seq<Seq<i32>> {
    let n = u32_at(b, 1) as nat;
    let len = u32_at(b, 5) as nat;
    Seq::new(n, |r: int| i32s_at(b, 9 + 4 * len * r, len))
}

/// Encodes integer inputs of a fixed length.
pub fn encode_fixed_ints(inputs: &Vec<RpcPredictRequest>, length: i32) -> (message: Vec<u8>)
    requires
        all_ints(inputs@),
    ensures
        message@ == fixed_ints_message(int_payloads(inputs@), length),
{
    let mut message: Vec<u8> = Vec::new();
    message.push(FIXEDINT_CODE);
    write_u32_le(&mut message, inputs.len() as u32);
    write_u32_le(&mut message, length as u32);
    let ghost p = int_payloads(inputs@);
    let ghost f = |x: Seq<i32>| i32s_le(x);
    let ghost head = header(FIXEDINT_CODE, inputs.len() as u32, length as u32);
    assert(message@ =~= head + concat(p.take(0).map_values(f)));
    let mut r: usize = 0;
    while r < inputs.len()
        invariant
            r <= inputs.len(),
            all_ints(inputs@),
            p == int_payloads(inputs@),
            f == (|x: Seq<i32>| i32s_le(x)),
            message@ == head + concat(p.take(r as int).map_values(f)),
        decreases inputs.len() - r,
    {
        let ghost before = message@;
        proof {
            assert(inputs@[r as int].input is Ints);
        }
        match &inputs[r].input {
            Input::Ints { i, .. } => {
                let mut j: usize = 0;
                assert(i@.take(0) =~= Seq::<i32>::empty());
                while j < i.len()
                    invariant
                        j <= i.len(),
                        message@ == before + i32s_le(i@.take(j as int)),
                    decreases i.len() - j,
                {
                    write_i32_le(&mut message, i[j]);
                    proof {
                        assert(i@.take(j + 1).drop_last() =~= i@.take(j as int));
                    }
                    j += 1;
                }
                proof {
                    assert(i@.take(j as int) =~= i@);
                    assert(p[r as int] == i@);
                    assert(p.take(r + 1).map_values(f) =~= p.take(r as int).map_values(f).push(
                        f(p[r as int]),
                    ));
                    lemma_concat_push(p.take(r as int).map_values(f), f(p[r as int]));
                }
            },
            _ => {
                assert(false);
            },
        }
        r += 1;
    }
    assert(p.take(r as int) =~= p);
    message
}

/// Decodes a fixed-length integer message.
pub fn decode_fixed_ints(bytes: &mut Vec<u8>) -> (inputs: Vec<Vec<i32>>)
    requires
        fixed_ints_readable(old(bytes)@),
    ensures
        final(bytes)@ == old(bytes)@,
        inputs.deep_view() == fixed_ints_decoded(old(bytes)@),
{
    let b = bytes.as_slice();
    let ghost bs = b@;
    let num_inputs = read_u32_le(b, 1);
    let inp_len = read_u32_le(b, 5);
    let ghost n = num_inputs as int;
    let ghost len = inp_len as int;
    let ghost want = fixed_ints_decoded(bs);
    let mut responses: Vec<Vec<i32>> = Vec::new();
    let mut pos: usize = 9;
    let mut r: u32 = 0;
    while r < num_inputs
        invariant
            b@ == bs,
            fixed_ints_readable(bs),
            n == u32_at(bs, 1),
            len == u32_at(bs, 5),
            want == fixed_ints_decoded(bs),
            num_inputs == n,
            inp_len == len,
            r <= n,
            pos == 9 + 4 * len * r,
            responses.deep_view() =~= want.take(r as int),
        decreases n - r,
    {
        proof {
            assert(4 * len * r + 4 * len <= 4 * len * n) by (nonlinear_arith)
                requires
                    r < n,
                    0 <= len,
            ;
            assert(4 * len * (r + 1) == 4 * len * r + 4 * len) by (nonlinear_arith);
            assert(4 * n * len == 4 * len * n) by (nonlinear_arith);
        }
        let ghost start = pos as int;
        let mut cur: Vec<i32> = Vec::new();
        let mut j: u32 = 0;
        while j < inp_len
            invariant
                b@ == bs,
                bs.len() == b.len(),
                j <= len,
                inp_len == len,
                start == 9 + 4 * len * r,
                start + 4 * len <= bs.len(),
                pos == start + 4 * j,
                cur@ =~= i32s_at(bs, start, j as nat),
            decreases len - j,
        {
            let x = read_i32_le(b, pos);
            cur.push(x);
            pos = pos + 4;
            j = j + 1;
        }
        proof {
            assert(cur.deep_view() =~= cur@);
            assert(want[r as int] == i32s_at(bs, start, len as nat));
            assert(want.take(r + 1) =~= want.take(r as int).push(want[r as int]));
        }
        responses.push(cur);
        r = r + 1;
    }
    assert(want.take(n) =~= want);
    responses
}

/// One input of a variable-length integer message: its length, then its values.
pub open spec fn var_int_record(x: Seq<i32>) -> Seq<u8> {
    le_u32(x.len() as u32) + i32s_le(x)
}

/// The bytes taken by the values of the inputs `p`, four per value.
pub open spec fn int_content_len(p: Seq<Seq<i32>>) -> int
    decreases p.len(),
{
    if p.len() == 0 {
        0
    } else {
        int_content_len(p.drop_last()) + 4 * p.last().len()
    }
}

/// The payload of a variable-length integer message: each input's record, back to back.
pub open spec fn var_ints_body(p: Seq<Seq<i32>>) -> Seq<u8> {
    concat(p.map_values(|x: Seq<i32>| var_int_record(x)))
}

/// The whole variable-length integer message for inputs `p`; the header's word is the number
/// of content bytes, four per value plus four per length prefix, truncated to 32 bits.
pub open spec fn var_ints_message(p: Seq<Seq<i32>>) -> Seq<u8> {
    header(VARINT_CODE, p.len() as u32, (int_content_len(p) + 4 * p.len()) as u32)
        + var_ints_body(p)
}

/// The `k` records that start at `pos` of a variable-length integer message, or `None` if
/// the bytes run out first.
pub open spec fn var_int_records(b: Seq<u8>, pos: int, k: nat) -> Option<Seq<Seq<i32>>>
    decreases k,
{
    if k == 0 {
        Some(Seq::empty())
    } else if pos + 4 > b.len() {
        None
    } else {
        let len = u32_at(b, pos) as int;
        let end = pos + 4 + 4 * len;
        if end > b.len() {
            None
        } else {
            match var_int_records(b, end, (k - 1) as nat) {
                Some(rest) => Some(seq![i32s_at(b, pos + 4, len as nat)] + rest),
                None => None,
            }
        }
    }
}

/// What the decoder reads from a variable-length integer message, or `None` if the message
/// is not one or its bytes run out.
pub open spec fn var_ints_decoded(b: Seq<u8>) -> Option<Seq<Seq<i32>>> {
    if b.len() >= 9 && b[0] == VARINT_CODE {
        var_int_records(b, 9, u32_at(b, 1) as nat)
    } else {
        None
    }
}

/// A prefix of the inputs takes no more content bytes than all of them.
pub proof fn lemma_int_content_len_prefix(p: Seq<Seq<i32>>, r: int)
    requires
        0 <= r <= p.len(),
    ensures
        0 <= int_content_len(p.take(r)) <= int_content_len(p),
    decreases p.len(),
{
    if r == p.len() {
        assert(p.take(r) =~= p);
        if p.len() > 0 {
            lemma_int_content_len_prefix(p.drop_last(), 0);
        }
    } else {
        assert(p.take(r) =~= p.drop_last().take(r));
        lemma_int_content_len_prefix(p.drop_last(), r);
    }
}

/// Encodes integer inputs of varying lengths.
pub fn encode_var_ints(inputs: &Vec<RpcPredictRequest>) -> (message: Vec<u8>)
    requires
        all_ints(inputs@),
        int_content_len(int_payloads(inputs@)) + 4 * inputs@.len() <= usize::MAX,
    ensures
        message@ == var_ints_message(int_payloads(inputs@)),
{
    let mut message: Vec<u8> = Vec::new();
    message.push(VARINT_CODE);
    write_u32_le(&mut message, inputs.len() as u32);
    let ghost p = int_payloads(inputs@);
    let mut content_len: usize = 0;
    let mut r: usize = 0;
    while r < inputs.len()
        invariant
            r <= inputs.len(),
            all_ints(inputs@),
            p == int_payloads(inputs@),
            int_content_len(p) + 4 * p.len() <= usize::MAX,
            content_len == int_content_len(p.take(r as int)),
        decreases inputs.len() - r,
    {
        proof {
            assert(inputs@[r as int].input is Ints);
            assert(p.take(r + 1).drop_last() =~= p.take(r as int));
            lemma_int_content_len_prefix(p, r + 1);
        }
        match &inputs[r].input {
            Input::Ints { i, .. } => {
                assert(p[r as int] == i@);
                content_len = content_len + i.len() * 4;
            },
            _ => {
                assert(false);
            },
        }
        r += 1;
    }
    assert(p.take(r as int) =~= p);
    content_len = content_len + 4 * inputs.len();
    write_u32_le(&mut message, content_len as u32);
    let ghost f = |x: Seq<i32>| var_int_record(x);
    let ghost head = header(VARINT_CODE, inputs.len() as u32, content_len as u32);
    assert(message@ =~= head + concat(p.take(0).map_values(f)));
    let mut r: usize = 0;
    while r < inputs.len()
        invariant
            r <= inputs.len(),
            all_ints(inputs@),
            p == int_payloads(inputs@),
            f == (|x: Seq<i32>| var_int_record(x)),
            message@ == head + concat(p.take(r as int).map_values(f)),
        decreases inputs.len() - r,
    {
        let ghost before = message@;
        proof {
            assert(inputs@[r as int].input is Ints);
        }
        match &inputs[r].input {
            Input::Ints { i, .. } => {
                write_u32_le(&mut message, i.len() as u32);
                let ghost mid = message@;
                let mut j: usize = 0;
                assert(i@.take(0) =~= Seq::<i32>::empty());
                while j < i.len()
                    invariant
                        j <= i.len(),
                        message@ == mid + i32s_le(i@.take(j as int)),
                    decreases i.len() - j,
                {
                    write_i32_le(&mut message, i[j]);
                    proof {
                        assert(i@.take(j + 1).drop_last() =~= i@.take(j as int));
                    }
                    j += 1;
                }
                proof {
                    assert(i@.take(j as int) =~= i@);
                    assert(p[r as int] == i@);
                    assert(message@ =~= before + f(p[r as int]));
                    assert(p.take(r + 1).map_values(f) =~= p.take(r as int).map_values(f).push(
                        f(p[r as int]),
                    ));
                    lemma_concat_push(p.take(r as int).map_values(f), f(p[r as int]));
                }
            },
            _ => {
                assert(false);
            },
        }
        r += 1;
    }
    assert(p.take(r as int) =~= p);
    message
}

/// Decodes a variable-length integer message.
pub fn decode_var_ints(bytes: &mut Vec<u8>) -> (inputs: Vec<Vec<i32>>)
    requires
        var_ints_decoded(old(bytes)@) is Some,
    ensures
        final(bytes)@ == old(bytes)@,
        inputs.deep_view() == var_ints_decoded(old(bytes)@)->0,
{
    let b = bytes.as_slice();
    let ghost bs = b@;
    let num_inputs = read_u32_le(b, 1);
    let _content_len = read_u32_le(b, 5);
    let ghost n = num_inputs as int;
    let ghost want = var_ints_decoded(bs)->0;
    let mut responses: Vec<Vec<i32>> = Vec::new();
    let mut pos: usize = 9;
    let mut r: u32 = 0;
    while r < num_inputs
        invariant
            b@ == bs,
            bs.len() == b.len(),
            num_inputs == n,
            r <= n,
            var_int_records(bs, pos as int, (n - r) as nat) is Some,
            want == responses.deep_view() + var_int_records(bs, pos as int, (n - r) as nat)->0,
        decreases n - r,
    {
        let ghost k = (n - r) as nat;
        let ghost rest = var_int_records(bs, pos as int, k)->0;
        let inp_len = read_u32_le(b, pos);
        let ghost len = inp_len as int;
        let ghost start = pos + 4;
        let ghost tail = var_int_records(bs, start + 4 * len, (k - 1) as nat)->0;
        assert(rest == seq![i32s_at(bs, start, len as nat)] + tail);
        pos = pos + 4;
        let mut cur: Vec<i32> = Vec::new();
        let mut j: u32 = 0;
        while j < inp_len
            invariant
                b@ == bs,
                bs.len() == b.len(),
                j <= len,
                inp_len == len,
                start + 4 * len <= bs.len(),
                pos == start + 4 * j,
                cur@ =~= i32s_at(bs, start, j as nat),
            decreases len - j,
        {
            let x = read_i32_le(b, pos);
            cur.push(x);
            pos = pos + 4;
            j = j + 1;
        }
        proof {
            assert(cur.deep_view() =~= cur@);
            assert(responses.deep_view().push(cur@) + tail =~= responses.deep_view() + rest);
        }
        responses.push(cur);
        r = r + 1;
    }
    assert(want =~= responses.deep_view());
    responses
}

} // verus!
