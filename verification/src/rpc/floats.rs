//! Float inputs: fixed-length and variable-length messages of little-endian `f64` bit patterns.
use super::{header, Input, RpcPredictRequest, FIXEDFLOAT_CODE, VARFLOAT_CODE};
use crate::wire::{concat, le_u32, lemma_concat_push, u64s_le, write_u32_le, write_u64_le};
use vstd::prelude::*;

verus! {

/// The bit patterns of a `Floats` input (empty for any other variant).
pub open spec fn float_payload(r: RpcPredictRequest) -> Seq<u64> {
    match r.input {
        Input::Floats { f, .. } => f@,
        _ => Seq::empty(),
    }
}

/// The bit patterns of every request, assuming each is a `Floats` input.
pub open spec fn float_payloads(reqs: Seq<RpcPredictRequest>) -> Seq<Seq<u64>> {
    reqs.map_values(|r: RpcPredictRequest| float_payload(r))
}

/// Every request holds a `Floats` input.
pub open spec fn all_floats(reqs: Seq<RpcPredictRequest>) -> bool {
    forall|k: int| 0 <= k < reqs.len() ==> (#[trigger] reqs[k]).input is Floats
}

/// The whole fixed-length float message for inputs `p` of declared length `length`: each
/// value as its eight little-endian bytes.
pub open spec fn fixed_floats_message(p: Seq<Seq<u64>>, length: i32) -> Seq<u8> {
    header(FIXEDFLOAT_CODE, p.len() as u32, length as u32) + concat(
        p.map_values(|x: Seq<u64>| u64s_le(x)),
    )
}

/// One input of a variable-length float message: its length, then its values.
pub open spec fn var_float_record(x: Seq<u64>) -> Seq<u8> {
    le_u32(x.len() as u32) + u64s_le(x)
}

/// The bytes taken by the values of the inputs `p`, eight per value.
pub open spec fn float_content_len(p: Seq<Seq<u64>>) -> int
    decreases p.len(),
{
    if p.len() == 0 {
        0
    } else {
        float_content_len(p.drop_last()) + 8 * p.last().len()
    }
}

/// The whole variable-length float message for inputs `p`; the header's word is the number of
/// content bytes, eight per value plus four per length prefix, truncated to 32 bits.
pub open spec fn var_floats_message(p: Seq<Seq<u64>>) -> Seq<u8> {
    header(VARFLOAT_CODE, p.len() as u32, (float_content_len(p) + 4 * p.len()) as u32) + concat(
        p.map_values(|x: Seq<u64>| var_float_record(x)),
    )
}

/// A prefix of the inputs takes no more content bytes than all of them.
pub proof fn lemma_float_content_len_prefix(p: Seq<Seq<u64>>, r: int)
    requires
        0 <= r <= p.len(),
    ensures
        0 <= float_content_len(p.take(r)) <= float_content_len(p),
    decreases p.len(),
{
    if r == p.len() {
        assert(p.take(r) =~= p);
        if p.len() > 0 {
            lemma_float_content_len_prefix(p.drop_last(), 0);
        }
    } else {
        assert(p.take(r) =~= p.drop_last().take(r));
        lemma_float_content_len_prefix(p.drop_last(), r);
    }
}

/// Appends the little-endian bytes of every value of `x` to `message`.
fn write_floats(message: &mut Vec<u8>, x: &Vec<u64>)
    ensures
        final(message)@ == old(message)@ + u64s_le(x@),
{
    let ghost before = message@;
    let mut j: usize = 0;
    assert(x@.take(0) =~= Seq::<u64>::empty());
    while j < x.len()
        invariant
            j <= x.len(),
            message@ == before + u64s_le(x@.take(j as int)),
        decreases x.len() - j,
    {
        write_u64_le(message, x[j]);
        proof {
            assert(x@.take(j + 1).drop_last() =~= x@.take(j as int));
        }
        j += 1;
    }
    assert(x@.take(j as int) =~= x@);
}

/// Encodes float inputs of a fixed length.
pub fn encode_fixed_floats(inputs: &Vec<RpcPredictRequest>, length: i32) -> (message: Vec<u8>)
    requires
        all_floats(inputs@),
    ensures
        message@ == fixed_floats_message(float_payloads(inputs@), length),
{
    let mut message: Vec<u8> = Vec::new();
    message.push(FIXEDFLOAT_CODE);
    write_u32_le(&mut message, inputs.len() as u32);
    write_u32_le(&mut message, length as u32);
    let ghost p = float_payloads(inputs@);
    let ghost f = |x: Seq<u64>| u64s_le(x);
    let ghost head = header(FIXEDFLOAT_CODE, inputs.len() as u32, length as u32);
    assert(message@ =~= head + concat(p.take(0).map_values(f)));
    let mut r: usize = 0;
    while r < inputs.len()
        invariant
            r <= inputs.len(),
            all_floats(inputs@),
            p == float_payloads(inputs@),
            f == (|x: Seq<u64>| u64s_le(x)),
            message@ == head + concat(p.take(r as int).map_values(f)),
        decreases inputs.len() - r,
    {
        proof {
            assert(inputs@[r as int].input is Floats);
        }
        match &inputs[r].input {
            Input::Floats { f: values, .. } => {
                write_floats(&mut message, values);
                proof {
                    assert(p[r as int] == values@);
                    assert(p.take(r + 1).map_values(f) =~= p.take(r as int).map_values(f).push(
                        f(p[r as int]),
                    ));
                    lemma_concat_push(p.take(r as int).map_values(f), f(p[r as int]));
                }
            },
            _ => {
                assert(false);
            },
        }
        r += 1;
    }
    assert(p.take(r as int) =~= p);
    message
}

/// Encodes float inputs of varying lengths.
pub fn encode_var_floats(inputs: &Vec<RpcPredictRequest>) -> (message: Vec<u8>)
    requires
        all_floats(inputs@),
        float_content_len(float_payloads(inputs@)) + 4 * inputs@.len() <= usize::MAX,
    ensures
        message@ == var_floats_message(float_payloads(inputs@)),
{
    let mut message: Vec<u8> = Vec::new();
    message.push(VARFLOAT_CODE);
    write_u32_le(&mut message, inputs.len() as u32);
    let ghost p = float_payloads(inputs@);
    let mut content_len: usize = 0;
    let mut r: usize = 0;
    while r < inputs.len()
        invariant
            r <= inputs.len(),
            all_floats(inputs@),
            p == float_payloads(inputs@),
            float_content_len(p) + 4 * p.len() <= usize::MAX,
            content_len == float_content_len(p.take(r as int)),
        decreases inputs.len() - r,
    {
        proof {
            assert(inputs@[r as int].input is Floats);
            assert(p.take(r + 1).drop_last() =~= p.take(r as int));
            lemma_float_content_len_prefix(p, r + 1);
        }
        match &inputs[r].input {
            Input::Floats { f, .. } => {
                assert(p[r as int] == f@);
                content_len = content_len + f.len() * 8;
            },
            _ => {
                assert(false);
            },
        }
        r += 1;
    }
    assert(p.take(r as int) =~= p);
    content_len = content_len + 4 * inputs.len();
    write_u32_le(&mut message, content_len as u32);
    let ghost f = |x: Seq<u64>| var_float_record(x);
    let ghost head = header(VARFLOAT_CODE, inputs.len() as u32, content_len as u32);
    assert(message@ =~= head + concat(p.take(0).map_values(f)));
    let mut r: usize = 0;
    while r < inputs.len()
        invariant
            r <= inputs.len(),
            all_floats(inputs@),
            p == float_payloads(inputs@),
            f == (|x: Seq<u64>| var_float_record(x)),
            message@ == head + concat(p.take(r as int).map_values(f)),
        decreases inputs.len() - r,
    {
        let ghost before = message@;
        proof {
            assert(inputs@[r as int].input is Floats);
        }
        match &inputs[r].input {
            Input::Floats { f: values, .. } => {
                write_u32_le(&mut message, values.len() as u32);
                write_floats(&mut message, values);
                proof {
                    assert(p[r as int] == values@);
                    assert(message@ =~= before + f(p[r as int]));
                    assert(p.take(r + 1).map_values(f) =~= p.take(r as int).map_values(f).push(
                        f(p[r as int]),
                    ));
                    lemma_concat_push(p.take(r as int).map_values(f), f(p[r as int]));
                }
            },
            _ => {
                assert(false);
            },
        }
        r += 1;
    }
    assert(p.take(r as int) =~= p);
    message
}

} // verus!
