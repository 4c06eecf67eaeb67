//! String inputs: their byte lengths, then all of them compressed together with LZ4.
use super::{header, Input, RpcPredictRequest, STRING_CODE};
use crate::compress::{lz4_compress, lz4_decompress, lz4_unframe, string_from_utf8};
use crate::wire::{
    concat, lemma_concat_push, lemma_u32s_le_index, read_u32_le, u32_at, u32s_at, u32s_le,
    write_u32_le,
};
use vstd::prelude::*;
use vstd::utf8::{decode_utf8, encode_utf8, valid_utf8};

verus! {

/// The characters of a `Str` input (empty for any other variant).
pub open spec fn str_payload(r: RpcPredictRequest) -> Seq<char> {
    match r.input {
        Input::Str { s } => s@,
        _ => Seq::empty(),
    }
}

/// The characters of every request, assuming each is a `Str` input.
pub open spec fn str_payloads(reqs: Seq<RpcPredictRequest>) -> Seq<Seq<char>> {
    reqs.map_values(|r: RpcPredictRequest| str_payload(r))
}

/// Every request holds a `Str` input.
pub open spec fn all_strs(reqs: Seq<RpcPredictRequest>) -> bool {
    forall|k: int| 0 <= k < reqs.len() ==> (#[trigger] reqs[k]).input is Str
}

/// The UTF-8 byte length of each string, truncated to 32 bits.
pub open spec fn str_lens(p: Seq<Seq<char>>) -> Seq<u32> {
    p.map_values(|s: Seq<char>| encode_utf8(s).len() as u32)
}

/// The UTF-8 bytes of all strings, back to back.
pub open spec fn strs_text(p: Seq<Seq<char>>) -> Seq<u8> {
    concat(p.map_values(|s: Seq<char>| encode_utf8(s)))
}

/// What gets compressed: the strings' bytes, then a newline so that decompression does not
/// lose the last character.
pub open spec fn strs_payload(p: Seq<Seq<char>>) -> Seq<u8> {
    strs_text(p).push(10u8)
}

/// A string message: header (its word is the compressed length plus four per string,
/// truncated to 32 bits), each string's byte length, then the compressed payload.
pub open spec fn strs_message(p: Seq<Seq<char>>, compressed: Seq<u8>) -> Seq<u8> {
    header(STRING_CODE, p.len() as u32, (compressed.len() + 4 * p.len()) as u32) + u32s_le(
        str_lens(p),
    ) + compressed
}

/// The compressed payload of a string message with `n` strings: everything after the header
/// and the `n` byte lengths.
pub open spec fn strs_compressed(n: nat, m: Seq<u8>) -> Seq<u8> {
    m.subrange(9 + 4 * n as int, m.len() as int)
}

/// Cuts `d` into UTF-8 strings of the byte lengths `lens`, front to back; `None` when a length
/// runs past the end or a piece is not valid UTF-8. Bytes after the last piece are ignored.
pub open spec fn split_utf8(d: Seq<u8>, lens: Seq<u32>) -> Option<Seq<Seq<char>>>
    decreases lens.len(),
{
    if lens.len() == 0 {
        Some(Seq::empty())
    } else {
        let l = lens[0] as int;
        if l > d.len() || !valid_utf8(d.take(l)) {
            None
        } else {
            match split_utf8(d.skip(l), lens.drop_first()) {
                Some(rest) => Some(seq![decode_utf8(d.take(l))] + rest),
                None => None,
            }
        }
    }
}

/// What the decoder reads from a string message, or `None` if the message is not one, its
/// header runs out, the payload does not decompress, or the pieces do not split as UTF-8.
pub open spec fn strs_decoded(b: Seq<u8>) -> Option<Seq<Seq<char>>> {
    if b.len() >= 9 && b[0] == STRING_CODE && 9 + 4 * (u32_at(b, 1) as int) <= b.len() {
        let n = u32_at(b, 1) as nat;
        match lz4_unframe(b.subrange(9 + 4 * n as int, b.len() as int)) {
            Some(d) => split_utf8(d, u32s_at(b, 9, n)),
            None => None,
        }
    } else {
        None
    }
}

/// `Some(done + rest)` when `o` is `Some(rest)`, else `None`.
pub open spec fn prefixed(
    done: Seq<Seq<char>>,
    o: Option<Seq<Seq<char>>>,
) -> Option<Seq<Seq<char>>> {
    match o {
        Some(rest) => Some(done + rest),
        None => None,
    }
}

/// The bytes that `encode_strs` compresses: every string's UTF-8 bytes, then a newline.
pub fn strs_payload_bytes(inputs: &Vec<RpcPredictRequest>) -> (payload: Vec<u8>)
    requires
        all_strs(inputs@),
    ensures
        payload@ == strs_payload(str_payloads(inputs@)),
{
    let ghost p = str_payloads(inputs@);
    let ghost f = |s: Seq<char>| encode_utf8(s);
    let mut payload: Vec<u8> = Vec::new();
    assert(payload@ =~= concat(p.take(0).map_values(f)));
    let mut r: usize = 0;
    while r < inputs.len()
        invariant
            r <= inputs.len(),
            all_strs(inputs@),
            p == str_payloads(inputs@),
            f == (|s: Seq<char>| encode_utf8(s)),
            payload@ == concat(p.take(r as int).map_values(f)),
        decreases inputs.len() - r,
    {
        let ghost before = payload@;
        proof {
            assert(inputs@[r as int].input is Str);
        }
        match &inputs[r].input {
            Input::Str { s } => {
                let bs = s.as_str().as_bytes();
                let mut j: usize = 0;
                assert(before =~= before + bs@.take(0));
                while j < bs.len()
                    invariant
                        j <= bs@.len(),
                        payload@ == before + bs@.take(j as int),
                    decreases bs@.len() - j,
                {
                    payload.push(bs[j]);
                    proof {
                        assert(before + bs@.take(j + 1) =~= (before + bs@.take(j as int)).push(
                            bs@[j as int],
                        ));
                    }
                    j += 1;
                }
                proof {
                    assert(bs@.take(j as int) =~= bs@);
                    assert(p[r as int] == s@);
                    assert(p.take(r + 1).map_values(f) =~= p.take(r as int).map_values(f).push(
                        f(p[r as int]),
                    ));
                    lemma_concat_push(p.take(r as int).map_values(f), f(p[r as int]));
                }
            },
            _ => {
                assert(false);
            },
        }
        r += 1;
    }
    assert(p.take(r as int) =~= p);
    payload.push(10u8);
    payload
}

/// Frames already compressed string content: header, each string's byte length, then
/// `compressed` as it is.
pub fn frame_strs(inputs: &Vec<RpcPredictRequest>, compressed: &Vec<u8>) -> (message: Vec<u8>)
    requires
        all_strs(inputs@),
        compressed@.len() + 4 * inputs@.len() <= usize::MAX,
    ensures
        message@ == strs_message(str_payloads(inputs@), compressed@),
{
    let ghost p = str_payloads(inputs@);
    let mut message: Vec<u8> = Vec::new();
    message.push(STRING_CODE);
    write_u32_le(&mut message, inputs.len() as u32);
    let content_len = compressed.len() + 4 * inputs.len();
    write_u32_le(&mut message, content_len as u32);
    let ghost head = message@;
    let ghost lens = str_lens(p);
    assert(message@ =~= head + u32s_le(lens.take(0)));
    let mut r: usize = 0;
    while r < inputs.len()
        invariant
            r <= inputs.len(),
            all_strs(inputs@),
            p == str_payloads(inputs@),
            lens == str_lens(p),
            message@ == head + u32s_le(lens.take(r as int)),
        decreases inputs.len() - r,
    {
        proof {
            assert(inputs@[r as int].input is Str);
        }
        match &inputs[r].input {
            Input::Str { s } => {
                let len = s.as_str().as_bytes().len();
                write_u32_le(&mut message, len as u32);
                proof {
                    assert(p[r as int] == s@);
                    assert(lens.take(r + 1).drop_last() =~= lens.take(r as int));
                }
            },
            _ => {
                assert(false);
            },
        }
        r += 1;
    }
    assert(lens.take(r as int) =~= lens);
    let mut j: usize = 0;
    let ghost mid = message@;
    assert(mid =~= mid + compressed@.take(0));
    while j < compressed.len()
        invariant
            j <= compressed@.len(),
            message@ == mid + compressed@.take(j as int),
        decreases compressed@.len() - j,
    {
        message.push(compressed[j]);
        proof {
            assert(mid + compressed@.take(j + 1) =~= (mid + compressed@.take(j as int)).push(
                compressed@[j as int],
            ));
        }
        j += 1;
    }
    assert(compressed@.take(j as int) =~= compressed@);
    message
}

/// Encodes string inputs: their lengths, then all of them compressed together with LZ4.
pub fn encode_strs(inputs: &Vec<RpcPredictRequest>) -> (message: Vec<u8>)
    requires
        all_strs(inputs@),
        4 * inputs@.len() + isize::MAX <= usize::MAX,
    ensures
        message@.len() >= 9 + 4 * inputs@.len(),
        message@ == strs_message(str_payloads(inputs@), strs_compressed(inputs@.len(), message@)),
        lz4_unframe(strs_compressed(inputs@.len(), message@)) == Some(
            strs_payload(str_payloads(inputs@)),
        ),
{
    let payload = strs_payload_bytes(inputs);
    let compressed = lz4_compress(payload.as_slice());
    let message = frame_strs(inputs, &compressed);
    proof {
        let p = str_payloads(inputs@);
        lemma_u32s_le_index(str_lens(p));
        assert(strs_compressed(inputs@.len(), message@) =~= compressed@);
    }
    message
}

/// Cuts decompressed string content into strings of the given byte lengths, front to back;
/// `None` when a length runs past the end or a piece is not valid UTF-8.
pub fn split_strs(decompressed: Vec<u8>, str_lens: &Vec<u32>) -> (outputs: Option<Vec<String>>)
    ensures
        outputs is Some <==> split_utf8(decompressed@, str_lens@) is Some,
        outputs matches Some(v) ==> v.deep_view() == split_utf8(decompressed@, str_lens@)->0,
{
    let ghost want = split_utf8(decompressed@, str_lens@);
    let mut remaining = decompressed;
    let mut strings: Vec<String> = Vec::new();
    let mut i: usize = 0;
    assert(str_lens@.skip(0) =~= str_lens@);
    proof {
        if let Some(w) = want {
            assert(strings.deep_view() + w =~= w);
        }
    }
    while i < str_lens.len()
        invariant
            i <= str_lens@.len(),
            want == split_utf8(decompressed@, str_lens@),
            want == prefixed(
                strings.deep_view(),
                split_utf8(remaining@, str_lens@.skip(i as int)),
            ),
        decreases str_lens@.len() - i,
    {
        let ghost lens = str_lens@.skip(i as int);
        let ghost d = remaining@;
        assert(lens[0] == str_lens@[i as int]);
        assert(lens.drop_first() =~= str_lens@.skip(i + 1));
        let len = str_lens[i] as usize;
        assert(lens.len() > 0);
        if len > remaining.len() {
            assert(split_utf8(d, lens) is None);
            return None;
        }
        let rest = remaining.split_off(len);
        let piece = remaining;
        remaining = rest;
        assert(piece@ =~= d.take(len as int));
        assert(remaining@ =~= d.skip(len as int));
        match string_from_utf8(piece) {
            None => {
                assert(split_utf8(d, lens) is None);
                return None;
            },
            Some(s) => {
                proof {
                    let before = strings.deep_view();
                    match split_utf8(remaining@, str_lens@.skip(i + 1)) {
                        Some(r) => {
                            assert(before.push(s@) + r =~= before + (seq![s@] + r));
                        },
                        None => {},
                    }
                }
                strings.push(s);
            },
        }
        i += 1;
    }
    proof {
        assert(str_lens@.skip(i as int) =~= Seq::<u32>::empty());
        assert(strings.deep_view() + Seq::<Seq<char>>::empty() =~= strings.deep_view());
    }
    Some(strings)
}

/// The byte lengths listed after the header of a string message, and where the compressed
/// payload starts; `None` when the message is not a string message or its header runs out.
fn read_str_header(b: &[u8]) -> (parsed: Option<(Vec<u32>, usize)>)
    ensures
        parsed is Some <==> (b@.len() >= 9 && b@[0] == STRING_CODE && 9 + 4 * (u32_at(b@, 1)
            as int) <= b@.len()),
        parsed matches Some((lens, start)) ==> {
            &&& start == 9 + 4 * (u32_at(b@, 1) as int)
            &&& lens@ == u32s_at(b@, 9, u32_at(b@, 1) as nat)
        },
{
    if b.len() < 9 {
        return None;
    }
    if b[0] != STRING_CODE {
        return None;
    }
    let num_inputs = read_u32_le(b, 1);
    let _content_len = read_u32_le(b, 5);
    if num_inputs as usize > (b.len() - 9) / 4 {
        return None;
    }
    let ghost n = num_inputs as int;
    let mut str_lens: Vec<u32> = Vec::new();
    let mut pos: usize = 9;
    let mut i: u32 = 0;
    while i < num_inputs
        invariant
            i <= n,
            num_inputs == n,
            n == u32_at(b@, 1),
            9 + 4 * n <= b@.len(),
            b@.len() == b.len(),
            pos == 9 + 4 * i,
            str_lens@ =~= u32s_at(b@, 9, i as nat),
        decreases n - i,
    {
        let len = read_u32_le(b, pos);
        str_lens.push(len);
        pos = pos + 4;
        i = i + 1;
    }
    Some((str_lens, pos))
}

/// Decodes a string message.
pub fn decode_strs(bytes: &mut Vec<u8>) -> (outputs: Vec<String>)
    requires
        strs_decoded(old(bytes)@) is Some,
    ensures
        final(bytes)@ == old(bytes)@,
        outputs.deep_view() == strs_decoded(old(bytes)@)->0,
{
    let b = bytes.as_slice();
    match read_str_header(b) {
        Some((str_lens, start)) => {
            let (_, payload) = b.split_at(start);
            match lz4_decompress(payload) {
                Some(decompressed) => match split_strs(decompressed, &str_lens) {
                    Some(outputs) => outputs,
                    None => {
                        assert(false);
                        Vec::new()
                    },
                },
                None => {
                    assert(false);
                    Vec::new()
                },
            }
        },
        None => {
            assert(false);
            Vec::new()
        },
    }
}

/// Whether `decode_strs` can read `bytes`: the header is there, the payload decompresses, and
/// the listed lengths cut it into valid UTF-8.
pub fn strs_decodable(bytes: &Vec<u8>) -> (ok: bool)
    ensures
        ok == strs_decoded(bytes@) is Some,
{
    let b = bytes.as_slice();
    match read_str_header(b) {
        Some((str_lens, start)) => {
            let (_, payload) = b.split_at(start);
            match lz4_decompress(payload) {
                Some(decompressed) => split_strs(decompressed, &str_lens).is_some(),
                None => false,
            }
        },
        None => false,
    }
}

/// Decodes a string message, or gives `None` where `decode_strs` could not read it.
pub fn try_decode_strs(bytes: &mut Vec<u8>) -> (outputs: Option<Vec<String>>)
    ensures
        final(bytes)@ == old(bytes)@,
        outputs is Some <==> strs_decoded(old(bytes)@) is Some,
        outputs matches Some(v) ==> v.deep_view() == strs_decoded(old(bytes)@)->0,
{
    if strs_decodable(bytes) {
        Some(decode_strs(bytes))
    } else {
        None
    }
}

} // verus!
