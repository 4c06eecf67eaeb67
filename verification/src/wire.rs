//! Little-endian integer encodings used on the wire, and the byte-order calls that produce them.
use byteorder::{ByteOrder, LittleEndian, WriteBytesExt};
use vstd::prelude::*;

verus! {

/// The four bytes of `x`, least significant first.
pub open spec fn le_u32(x: u32) -> Seq<u8> {
    seq![
        (x & 0xff) as u8,
        ((x >> 8u32) & 0xff) as u8,
        ((x >> 16u32) & 0xff) as u8,
        ((x >> 24u32) & 0xff) as u8,
    ]
}

/// The four bytes of the two's-complement representation of `x`, least significant first.
pub open spec fn le_i32(x: i32) -> Seq<u8> {
    le_u32(x as u32)
}

/// The eight bytes of `x`, least significant first.
pub open spec fn le_u64(x: u64) -> Seq<u8> {
    seq![
        (x & 0xff) as u8,
        ((x >> 8u64) & 0xff) as u8,
        ((x >> 16u64) & 0xff) as u8,
        ((x >> 24u64) & 0xff) as u8,
        ((x >> 32u64) & 0xff) as u8,
        ((x >> 40u64) & 0xff) as u8,
        ((x >> 48u64) & 0xff) as u8,
        ((x >> 56u64) & 0xff) as u8,
    ]
}

/// The `u32` whose little-endian bytes are `b0, b1, b2, b3`.
pub open spec fn u32_of(b0: u8, b1: u8, b2: u8, b3: u8) -> u32 {
    (b0 as u32) | ((b1 as u32) << 8u32) | ((b2 as u32) << 16u32) | ((b3 as u32) << 24u32)
}

/// The `u32` stored little-endian at positions `i .. i + 4` of `b`.
pub open spec fn u32_at(b: Seq<u8>, i: int) -> u32 {
    u32_of(b[i], b[i + 1], b[i + 2], b[i + 3])
}

/// The `i32` stored little-endian at positions `i .. i + 4` of `b`.
pub open spec fn i32_at(b: Seq<u8>, i: int) -> i32 {
    u32_at(b, i) as i32
}

/// Decoding the bytes of an encoded `u32` gives the value back.
pub proof fn lemma_u32_roundtrip(x: u32)
    ensures
        le_u32(x).len() == 4,
        u32_of(le_u32(x)[0], le_u32(x)[1], le_u32(x)[2], le_u32(x)[3]) == x,
{
    let b0 = (x & 0xff) as u8;
    let b1 = ((x >> 8u32) & 0xff) as u8;
    let b2 = ((x >> 16u32) & 0xff) as u8;
    let b3 = ((x >> 24u32) & 0xff) as u8;
    assert(u32_of(b0, b1, b2, b3) == x) by (bit_vector)
        requires
            b0 == (x & 0xff) as u8,
            b1 == ((x >> 8u32) & 0xff) as u8,
            b2 == ((x >> 16u32) & 0xff) as u8,
            b3 == ((x >> 24u32) & 0xff) as u8,
    ;
}

/// The `u64` whose little-endian bytes are `b[i .. i + 8]`.
pub open spec fn u64_at(b: Seq<u8>, i: int) -> u64 {
    (b[i] as u64) | ((b[i + 1] as u64) << 8u64) | ((b[i + 2] as u64) << 16u64) | ((b[i + 3]
        as u64) << 24u64) | ((b[i + 4] as u64) << 32u64) | ((b[i + 5] as u64) << 40u64) | ((b[i
        + 6] as u64) << 48u64) | ((b[i + 7] as u64) << 56u64)
}

/// The `k` consecutive little-endian `u64`s that start at position `pos` of `b`.
pub open spec fn u64s_at(b: Seq<u8>, pos: int, k: nat) -> Seq<u64> {
    Seq::new(k, |j: int| u64_at(b, pos + 8 * j))
}

/// A `u64` written at `pos` reads back.
pub proof fn lemma_read_u64_back(b: Seq<u8>, pos: int, x: u64)
    requires
        0 <= pos,
        pos + 8 <= b.len(),
        b.subrange(pos, pos + 8) == le_u64(x),
    ensures
        u64_at(b, pos) == x,
{
    let w = b.subrange(pos, pos + 8);
    assert(b[pos] == w[0]);
    assert(b[pos + 1] == w[1]);
    assert(b[pos + 2] == w[2]);
    assert(b[pos + 3] == w[3]);
    assert(b[pos + 4] == w[4]);
    assert(b[pos + 5] == w[5]);
    assert(b[pos + 6] == w[6]);
    assert(b[pos + 7] == w[7]);
    let b0 = w[0];
    let b1 = w[1];
    let b2 = w[2];
    let b3 = w[3];
    let b4 = w[4];
    let b5 = w[5];
    let b6 = w[6];
    let b7 = w[7];
    assert((b0 as u64) | ((b1 as u64) << 8u64) | ((b2 as u64) << 16u64) | ((b3 as u64) << 24u64)
        | ((b4 as u64) << 32u64) | ((b5 as u64) << 40u64) | ((b6 as u64) << 48u64) | ((b7 as u64)
        << 56u64) == x) by (bit_vector)
        requires
            b0 == (x & 0xff) as u8,
            b1 == ((x >> 8u64) & 0xff) as u8,
            b2 == ((x >> 16u64) & 0xff) as u8,
            b3 == ((x >> 24u64) & 0xff) as u8,
            b4 == ((x >> 32u64) & 0xff) as u8,
            b5 == ((x >> 40u64) & 0xff) as u8,
            b6 == ((x >> 48u64) & 0xff) as u8,
            b7 == ((x >> 56u64) & 0xff) as u8,
    ;
}

/// The encoding of `s` has eight bytes per value, and value `j` sits at `8 * j`.
pub proof fn lemma_u64s_le_index(s: Seq<u64>)
    ensures
        u64s_le(s).len() == 8 * s.len(),
        forall|j: int|
            0 <= j < s.len() ==> u64s_le(s).subrange(8 * j, 8 * j + 8) == le_u64(#[trigger] s[j]),
    decreases s.len(),
{
    if s.len() > 0 {
        let init = s.drop_last();
        lemma_u64s_le_index(init);
        assert forall|j: int| 0 <= j < s.len() implies u64s_le(s).subrange(8 * j, 8 * j + 8)
            == le_u64(#[trigger] s[j]) by {
            if j < s.len() - 1 {
                assert(init[j] == s[j]);
                assert(u64s_le(s).subrange(8 * j, 8 * j + 8) =~= u64s_le(init).subrange(
                    8 * j,
                    8 * j + 8,
                ));
            } else {
                assert(u64s_le(s).subrange(8 * j, 8 * j + 8) =~= le_u64(s.last()));
            }
        }
    }
}

/// A run of `u64`s written at `pos` reads back.
pub proof fn lemma_read_u64s_back(b: Seq<u8>, pos: int, s: Seq<u64>)
    requires
        0 <= pos,
        pos + 8 * s.len() <= b.len(),
        b.subrange(pos, pos + 8 * s.len()) == u64s_le(s),
    ensures
        u64s_at(b, pos, s.len()) == s,
{
    lemma_u64s_le_index(s);
    assert forall|j: int| 0 <= j < s.len() implies #[trigger] u64s_at(b, pos, s.len())[j]
        == s[j] by {
        let w = b.subrange(pos, pos + 8 * s.len());
        assert(b.subrange(pos + 8 * j, pos + 8 * j + 8) =~= w.subrange(8 * j, 8 * j + 8));
        lemma_read_u64_back(b, pos + 8 * j, s[j]);
    }
    assert(u64s_at(b, pos, s.len()) =~= s);
}

/// Decoding the bytes of an encoded `i32` gives the value back.
pub proof fn lemma_i32_roundtrip(x: i32)
    ensures
        le_i32(x).len() == 4,
        (u32_of(le_i32(x)[0], le_i32(x)[1], le_i32(x)[2], le_i32(x)[3]) as i32) == x,
{
    lemma_u32_roundtrip(x as u32);
    assert(((x as u32) as i32) == x) by (bit_vector);
}

/// The byte sequences of `parts`, one after the other.
pub open spec fn concat(parts: Seq<Seq<u8>>) -> Seq<u8>
    decreases parts.len(),
{
    if parts.len() == 0 {
        seq![]
    } else {
        concat(parts.drop_last()) + parts.last()
    }
}

/// The little-endian encodings of the `i32`s of `s`, one after the other.
pub open spec fn i32s_le(s: Seq<i32>) -> Seq<u8>
    decreases s.len(),
{
    if s.len() == 0 {
        seq![]
    } else {
        i32s_le(s.drop_last()) + le_i32(s.last())
    }
}

/// The little-endian encodings of the `u64`s of `s`, one after the other.
pub open spec fn u64s_le(s: Seq<u64>) -> Seq<u8>
    decreases s.len(),
{
    if s.len() == 0 {
        seq![]
    } else {
        u64s_le(s.drop_last()) + le_u64(s.last())
    }
}

/// The little-endian encodings of the `u32`s of `s`, one after the other.
pub open spec fn u32s_le(s: Seq<u32>) -> Seq<u8>
    decreases s.len(),
{
    if s.len() == 0 {
        seq![]
    } else {
        u32s_le(s.drop_last()) + le_u32(s.last())
    }
}

/// The `k` consecutive little-endian `i32`s that start at position `pos` of `b`.
pub open spec fn i32s_at(b: Seq<u8>, pos: int, k: nat) -> Seq<i32> {
    Seq::new(k, |j: int| i32_at(b, pos + 4 * j))
}

/// The `k` consecutive little-endian `u32`s that start at position `pos` of `b`.
pub open spec fn u32s_at(b: Seq<u8>, pos: int, k: nat) -> Seq<u32> {
    Seq::new(k, |j: int| u32_at(b, pos + 4 * j))
}

/// Appending one more part appends its bytes.
pub proof fn lemma_concat_push(parts: Seq<Seq<u8>>, x: Seq<u8>)
    ensures
        concat(parts.push(x)) == concat(parts) + x,
{
    assert(parts.push(x).drop_last() =~= parts);
}

/// The bytes of the first part come first.
pub proof fn lemma_concat_front(parts: Seq<Seq<u8>>)
    requires
        parts.len() > 0,
    ensures
        concat(parts) == parts[0] + concat(parts.drop_first()),
    decreases parts.len(),
{
    if parts.len() == 1 {
        assert(parts.drop_last() =~= Seq::<Seq<u8>>::empty());
        assert(parts.drop_first() =~= Seq::<Seq<u8>>::empty());
        assert(concat(parts) =~= parts[0] + concat(parts.drop_first()));
    } else {
        lemma_concat_front(parts.drop_last());
        assert(parts.drop_last().drop_first() =~= parts.drop_first().drop_last());
        assert(parts.drop_first().last() == parts.last());
        assert(concat(parts) =~= parts[0] + concat(parts.drop_first()));
    }
}

/// When every part has `width` bytes, part `k` is found at `width * k`.
pub proof fn lemma_concat_uniform(parts: Seq<Seq<u8>>, width: nat)
    requires
        forall|k: int| 0 <= k < parts.len() ==> (#[trigger] parts[k]).len() == width,
    ensures
        concat(parts).len() == width * parts.len(),
        forall|k: int|
            0 <= k < parts.len() ==> concat(parts).subrange(width * k, width * k + width)
                == #[trigger] parts[k],
    decreases parts.len(),
{
    if parts.len() > 0 {
        let init = parts.drop_last();
        lemma_concat_uniform(init, width);
        let n = parts.len() - 1;
        assert(width * parts.len() == width * n + width) by (nonlinear_arith)
            requires
                n == parts.len() - 1,
        ;
        assert forall|k: int| 0 <= k < parts.len() implies concat(parts).subrange(
            width * k,
            width * k + width,
        ) == #[trigger] parts[k] by {
            if k < n {
                assert(width * k + width <= width * n) by (nonlinear_arith)
                    requires
                        k < n,
                ;
                assert(init[k] == parts[k]);
                assert(concat(parts).subrange(width * k, width * k + width) =~= concat(
                    init,
                ).subrange(width * k, width * k + width));
            } else {
                assert(concat(parts).subrange(width * k, width * k + width) =~= parts.last());
            }
        }
    }
}

/// The encoding of `s` has four bytes per value, and value `j` sits at `4 * j`.
pub proof fn lemma_i32s_le_index(s: Seq<i32>)
    ensures
        i32s_le(s).len() == 4 * s.len(),
        forall|j: int|
            0 <= j < s.len() ==> i32s_le(s).subrange(4 * j, 4 * j + 4) == le_i32(#[trigger] s[j]),
    decreases s.len(),
{
    if s.len() > 0 {
        let init = s.drop_last();
        lemma_i32s_le_index(init);
        lemma_i32_roundtrip(s.last());
        assert forall|j: int| 0 <= j < s.len() implies i32s_le(s).subrange(4 * j, 4 * j + 4)
            == le_i32(#[trigger] s[j]) by {
            if j < s.len() - 1 {
                assert(init[j] == s[j]);
                assert(i32s_le(s).subrange(4 * j, 4 * j + 4) =~= i32s_le(init).subrange(
                    4 * j,
                    4 * j + 4,
                ));
            } else {
                assert(i32s_le(s).subrange(4 * j, 4 * j + 4) =~= le_i32(s.last()));
            }
        }
    }
}

/// The encoding of `s` has four bytes per value, and value `j` sits at `4 * j`.
pub proof fn lemma_u32s_le_index(s: Seq<u32>)
    ensures
        u32s_le(s).len() == 4 * s.len(),
        forall|j: int|
            0 <= j < s.len() ==> u32s_le(s).subrange(4 * j, 4 * j + 4) == le_u32(#[trigger] s[j]),
    decreases s.len(),
{
    if s.len() > 0 {
        let init = s.drop_last();
        lemma_u32s_le_index(init);
        lemma_u32_roundtrip(s.last());
        assert forall|j: int| 0 <= j < s.len() implies u32s_le(s).subrange(4 * j, 4 * j + 4)
            == le_u32(#[trigger] s[j]) by {
            if j < s.len() - 1 {
                assert(init[j] == s[j]);
                assert(u32s_le(s).subrange(4 * j, 4 * j + 4) =~= u32s_le(init).subrange(
                    4 * j,
                    4 * j + 4,
                ));
            } else {
                assert(u32s_le(s).subrange(4 * j, 4 * j + 4) =~= le_u32(s.last()));
            }
        }
    }
}

/// The encoding of `s` has eight bytes per value.
pub proof fn lemma_u64s_le_len(s: Seq<u64>)
    ensures
        u64s_le(s).len() == 8 * s.len(),
    decreases s.len(),
{
    if s.len() > 0 {
        lemma_u64s_le_len(s.drop_last());
    }
}

/// A `u32` written at `pos` reads back.
pub proof fn lemma_read_u32_back(b: Seq<u8>, pos: int, x: u32)
    requires
        0 <= pos,
        pos + 4 <= b.len(),
        b.subrange(pos, pos + 4) == le_u32(x),
    ensures
        u32_at(b, pos) == x,
{
    lemma_u32_roundtrip(x);
    assert(b[pos] == b.subrange(pos, pos + 4)[0]);
    assert(b[pos + 1] == b.subrange(pos, pos + 4)[1]);
    assert(b[pos + 2] == b.subrange(pos, pos + 4)[2]);
    assert(b[pos + 3] == b.subrange(pos, pos + 4)[3]);
}

/// A run of `i32`s written at `pos` reads back.
pub proof fn lemma_read_i32s_back(b: Seq<u8>, pos: int, s: Seq<i32>)
    requires
        0 <= pos,
        pos + 4 * s.len() <= b.len(),
        b.subrange(pos, pos + 4 * s.len()) == i32s_le(s),
    ensures
        i32s_at(b, pos, s.len()) == s,
{
    lemma_i32s_le_index(s);
    assert forall|j: int| 0 <= j < s.len() implies #[trigger] i32s_at(b, pos, s.len())[j]
        == s[j] by {
        let w = b.subrange(pos, pos + 4 * s.len());
        assert(b.subrange(pos + 4 * j, pos + 4 * j + 4) =~= w.subrange(4 * j, 4 * j + 4));
        lemma_read_u32_back(b, pos + 4 * j, s[j] as u32);
        lemma_i32_roundtrip(s[j]);
    }
    assert(i32s_at(b, pos, s.len()) =~= s);
}

/// A run of `u32`s written at `pos` reads back.
pub proof fn lemma_read_u32s_back(b: Seq<u8>, pos: int, s: Seq<u32>)
    requires
        0 <= pos,
        pos + 4 * s.len() <= b.len(),
        b.subrange(pos, pos + 4 * s.len()) == u32s_le(s),
    ensures
        u32s_at(b, pos, s.len()) == s,
{
    lemma_u32s_le_index(s);
    assert forall|j: int| 0 <= j < s.len() implies #[trigger] u32s_at(b, pos, s.len())[j]
        == s[j] by {
        let w = b.subrange(pos, pos + 4 * s.len());
        assert(b.subrange(pos + 4 * j, pos + 4 * j + 4) =~= w.subrange(4 * j, 4 * j + 4));
        lemma_read_u32_back(b, pos + 4 * j, s[j]);
    }
    assert(u32s_at(b, pos, s.len()) =~= s);
}

/// Appends the little-endian bytes of `x` to `buf`.
///
/// Calls `byteorder::WriteBytesExt::write_u32::<LittleEndian>` on the vector. Trusted: the four
/// appended bytes are `x`'s bytes, least significant first (`u32::to_le_bytes`), and writing into
/// a `Vec<u8>` never fails.
#[verifier::external_body]
pub fn write_u32_le(buf: &mut Vec<u8>, x: u32)
    ensures
        final(buf)@ == old(buf)@ + le_u32(x),
{
    buf.write_u32::<LittleEndian>(x).unwrap();
}

/// Appends the little-endian two's-complement bytes of `x` to `buf`.
///
/// Calls `byteorder::WriteBytesExt::write_i32::<LittleEndian>` on the vector. Trusted: the four
/// appended bytes are those of `x as u32`, least significant first, and writing into a
/// `Vec<u8>` never fails.
#[verifier::external_body]
pub fn write_i32_le(buf: &mut Vec<u8>, x: i32)
    ensures
        final(buf)@ == old(buf)@ + le_i32(x),
{
    buf.write_i32::<LittleEndian>(x).unwrap();
}

/// Appends the little-endian bytes of `x` to `buf`.
///
/// Calls `byteorder::WriteBytesExt::write_u64::<LittleEndian>` on the vector. Trusted: the eight
/// appended bytes are `x`'s bytes, least significant first, and writing into a `Vec<u8>` never
/// fails.
#[verifier::external_body]
pub fn write_u64_le(buf: &mut Vec<u8>, x: u64)
    ensures
        final(buf)@ == old(buf)@ + le_u64(x),
{
    buf.write_u64::<LittleEndian>(x).unwrap();
}

/// Appends the single byte `x` to `buf`.
///
/// Calls `byteorder::WriteBytesExt::write_u8` on the vector. Trusted: it writes exactly `[x]`
/// (`write_all(&[x])`), and writing into a `Vec<u8>` never fails.
#[verifier::external_body]
pub fn write_u8(buf: &mut Vec<u8>, x: u8)
    ensures
        final(buf)@ == old(buf)@.push(x),
{
    buf.write_u8(x).unwrap();
}

/// The `u32` stored little-endian at `buf[pos .. pos + 4]`.
///
/// Calls `byteorder::ByteOrder::read_u32` of `LittleEndian` on the slice that starts at `pos`.
/// Trusted: it is `u32::from_le_bytes` of the first four bytes of that slice; it panics only
/// when fewer than four bytes remain, which `requires` rules out.
#[verifier::external_body]
pub fn read_u32_le(buf: &[u8], pos: usize) -> (r: u32)
    requires
        pos + 4 <= buf@.len(),
    ensures
        r == u32_at(buf@, pos as int),
{
    LittleEndian::read_u32(&buf[pos..])
}

/// The `i32` stored little-endian at `buf[pos .. pos + 4]`.
///
/// Calls `byteorder::ByteOrder::read_i32` of `LittleEndian` on the slice that starts at `pos`.
/// Trusted: it is `read_u32(..) as i32`; it panics only when fewer than four bytes remain,
/// which `requires` rules out.
#[verifier::external_body]
pub fn read_i32_le(buf: &[u8], pos: usize) -> (r: i32)
    requires
        pos + 4 <= buf@.len(),
    ensures
        r == i32_at(buf@, pos as int),
{
    LittleEndian::read_i32(&buf[pos..])
}

} // verus!
