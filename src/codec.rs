//! Little-endian packing of scalars and fixed arrays, and a strict reader
//! over a byte slice.

use vstd::prelude::*;

verus! {

/// Failures of unpacking.
#[derive(Clone, Copy, Debug, PartialEq, Eq, Structural)]
pub enum CodecError {
    InvalidTag,
    TrailingBytes,
    UnexpectedEof,
    InvalidLength,
}

/// A spec-level parse outcome: the value and the position after it.
pub type Parsed<T> = Result<(T, int), CodecError>;

/// Relates an executable parse outcome to a spec-level one.
pub open spec fn parsed_as<T>(r: Result<(T, usize), CodecError>, s: Parsed<T>) -> bool {
    match r {
        Ok((v, p)) => s == Ok::<(T, int), CodecError>((v, p as int)),
        Err(e) => s == Err::<(T, int), CodecError>(e),
    }
}

/// The packed bytes of a `u16`, least significant first.
pub open spec fn u16_bytes(x: u16) -> Seq<u8> {
    seq![x as u8, (x >> 8u16) as u8]
}

pub open spec fn u16_from(b: Seq<u8>) -> u16 {
    (b[0] as u16) | ((b[1] as u16) << 8u16)
}

/// The packed bytes of a `u32`, least significant first.
pub open spec fn u32_bytes(x: u32) -> Seq<u8> {
    seq![x as u8, (x >> 8u32) as u8, (x >> 16u32) as u8, (x >> 24u32) as u8]
}

pub open spec fn u32_from(b: Seq<u8>) -> u32 {
    (b[0] as u32) | ((b[1] as u32) << 8u32) | ((b[2] as u32) << 16u32) | ((b[3] as u32) << 24u32)
}

/// The packed bytes of a `u64`, least significant first.
pub open spec fn u64_bytes(x: u64) -> Seq<u8> {
    seq![
        x as u8,
        (x >> 8u64) as u8,
        (x >> 16u64) as u8,
        (x >> 24u64) as u8,
        (x >> 32u64) as u8,
        (x >> 40u64) as u8,
        (x >> 48u64) as u8,
        (x >> 56u64) as u8,
    ]
}

pub open spec fn u64_from(b: Seq<u8>) -> u64 {
    (b[0] as u64) | ((b[1] as u64) << 8u64) | ((b[2] as u64) << 16u64) | ((b[3] as u64) << 24u64)
        | ((b[4] as u64) << 32u64) | ((b[5] as u64) << 40u64) | ((b[6] as u64) << 48u64) | ((b[7]
        as u64) << 56u64)
}

pub proof fn lemma_u16_round_trip(x: u16)
    ensures
        u16_from(u16_bytes(x)) == x,
{
    let b0 = x as u8;
    let b1 = (x >> 8u16) as u8;
    assert((b0 as u16) | ((b1 as u16) << 8u16) == x) by (bit_vector)
        requires
            b0 == x as u8,
            b1 == (x >> 8u16) as u8,
    ;
}

pub proof fn lemma_u32_round_trip(x: u32)
    ensures
        u32_from(u32_bytes(x)) == x,
{
    let b0 = x as u8;
    let b1 = (x >> 8u32) as u8;
    let b2 = (x >> 16u32) as u8;
    let b3 = (x >> 24u32) as u8;
    assert((b0 as u32) | ((b1 as u32) << 8u32) | ((b2 as u32) << 16u32) | ((b3 as u32) << 24u32)
        == x) by (bit_vector)
        requires
            b0 == x as u8,
            b1 == (x >> 8u32) as u8,
            b2 == (x >> 16u32) as u8,
            b3 == (x >> 24u32) as u8,
    ;
}

pub proof fn lemma_u64_round_trip(x: u64)
    ensures
        u64_from(u64_bytes(x)) == x,
{
    let b0 = x as u8;
    let b1 = (x >> 8u64) as u8;
    let b2 = (x >> 16u64) as u8;
    let b3 = (x >> 24u64) as u8;
    let b4 = (x >> 32u64) as u8;
    let b5 = (x >> 40u64) as u8;
    let b6 = (x >> 48u64) as u8;
    let b7 = (x >> 56u64) as u8;
    assert((b0 as u64) | ((b1 as u64) << 8u64) | ((b2 as u64) << 16u64) | ((b3 as u64) << 24u64)
        | ((b4 as u64) << 32u64) | ((b5 as u64) << 40u64) | ((b6 as u64) << 48u64) | ((b7 as u64)
        << 56u64) == x) by (bit_vector)
        requires
            b0 == x as u8,
            b1 == (x >> 8u64) as u8,
            b2 == (x >> 16u64) as u8,
            b3 == (x >> 24u64) as u8,
            b4 == (x >> 32u64) as u8,
            b5 == (x >> 40u64) as u8,
            b6 == (x >> 48u64) as u8,
            b7 == (x >> 56u64) as u8,
    ;
}

/// Reading a `u8` at `pos`.
pub open spec fn spec_read_u8(s: Seq<u8>, pos: int) -> Parsed<u8> {
    if 0 <= pos && pos + 1 <= s.len() {
        Ok((s[pos], pos + 1))
    } else {
        Err(CodecError::UnexpectedEof)
    }
}

pub open spec fn spec_read_u16(s: Seq<u8>, pos: int) -> Parsed<u16> {
    if 0 <= pos && pos + 2 <= s.len() {
        Ok((u16_from(s.subrange(pos, pos + 2)), pos + 2))
    } else {
        Err(CodecError::UnexpectedEof)
    }
}

pub open spec fn spec_read_u32(s: Seq<u8>, pos: int) -> Parsed<u32> {
    if 0 <= pos && pos + 4 <= s.len() {
        Ok((u32_from(s.subrange(pos, pos + 4)), pos + 4))
    } else {
        Err(CodecError::UnexpectedEof)
    }
}

pub open spec fn spec_read_u64(s: Seq<u8>, pos: int) -> Parsed<u64> {
    if 0 <= pos && pos + 8 <= s.len() {
        Ok((u64_from(s.subrange(pos, pos + 8)), pos + 8))
    } else {
        Err(CodecError::UnexpectedEof)
    }
}

/// The 32-byte array whose bytes are `s`.
pub open spec fn array32_of(s: Seq<u8>) -> [u8; 32] {
    choose|a: [u8; 32]| a@ == s
}

/// The 64-byte array whose bytes are `s`.
pub open spec fn array64_of(s: Seq<u8>) -> [u8; 64] {
    choose|a: [u8; 64]| a@ == s
}

pub open spec fn spec_read_array32(s: Seq<u8>, pos: int) -> Parsed<[u8; 32]> {
    if 0 <= pos && pos + 32 <= s.len() {
        Ok((array32_of(s.subrange(pos, pos + 32)), pos + 32))
    } else {
        Err(CodecError::UnexpectedEof)
    }
}

pub open spec fn spec_read_array64(s: Seq<u8>, pos: int) -> Parsed<[u8; 64]> {
    if 0 <= pos && pos + 64 <= s.len() {
        Ok((array64_of(s.subrange(pos, pos + 64)), pos + 64))
    } else {
        Err(CodecError::UnexpectedEof)
    }
}

/// An array is the one `array32_of` picks for its own bytes.
pub proof fn lemma_array32_of(a: [u8; 32])
    ensures
        array32_of(a@) == a,
{
    let c = array32_of(a@);
    assert(c@ == a@);
    assert(c =~= a);
}

pub proof fn lemma_array64_of(a: [u8; 64])
    ensures
        array64_of(a@) == a,
{
    let c = array64_of(a@);
    assert(c@ == a@);
    assert(c =~= a);
}

/// Whole-buffer decoding: the value must take every byte.
pub open spec fn spec_finish<T>(p: Parsed<T>, len: int) -> Result<T, CodecError> {
    match p {
        Ok((v, q)) => if q == len {
            Ok(v)
        } else {
            Err(CodecError::TrailingBytes)
        },
        Err(e) => Err(e),
    }
}

pub fn read_u8(buf: &[u8], pos: usize) -> (r: Result<(u8, usize), CodecError>)
    ensures
        parsed_as(r, spec_read_u8(buf@, pos as int)),
{
    if pos < buf.len() {
        Ok((buf[pos], pos + 1))
    } else {
        Err(CodecError::UnexpectedEof)
    }
}

pub fn read_u16(buf: &[u8], pos: usize) -> (r: Result<(u16, usize), CodecError>)
    ensures
        parsed_as(r, spec_read_u16(buf@, pos as int)),
{
    if pos <= buf.len() && buf.len() - pos >= 2 {
        let v = (buf[pos] as u16) | ((buf[pos + 1] as u16) << 8u16);
        assert(buf@.subrange(pos as int, pos + 2)[1] == buf@[pos + 1]);
        Ok((v, pos + 2))
    } else {
        Err(CodecError::UnexpectedEof)
    }
}

pub fn read_u32(buf: &[u8], pos: usize) -> (r: Result<(u32, usize), CodecError>)
    ensures
        parsed_as(r, spec_read_u32(buf@, pos as int)),
{
    if pos <= buf.len() && buf.len() - pos >= 4 {
        let v = (buf[pos] as u32) | ((buf[pos + 1] as u32) << 8u32) | ((buf[pos + 2] as u32)
            << 16u32) | ((buf[pos + 3] as u32) << 24u32);
        let ghost sub = buf@.subrange(pos as int, pos + 4);
        assert(sub[1] == buf@[pos + 1] && sub[2] == buf@[pos + 2] && sub[3] == buf@[pos + 3]);
        Ok((v, pos + 4))
    } else {
        Err(CodecError::UnexpectedEof)
    }
}

pub fn read_u64(buf: &[u8], pos: usize) -> (r: Result<(u64, usize), CodecError>)
    ensures
        parsed_as(r, spec_read_u64(buf@, pos as int)),
{
    if pos <= buf.len() && buf.len() - pos >= 8 {
        let v = (buf[pos] as u64) | ((buf[pos + 1] as u64) << 8u64) | ((buf[pos + 2] as u64)
            << 16u64) | ((buf[pos + 3] as u64) << 24u64) | ((buf[pos + 4] as u64) << 32u64) | ((
        buf[pos + 5] as u64) << 40u64) | ((buf[pos + 6] as u64) << 48u64) | ((buf[pos + 7] as u64)
            << 56u64);
        let ghost sub = buf@.subrange(pos as int, pos + 8);
        assert(sub[1] == buf@[pos + 1] && sub[2] == buf@[pos + 2] && sub[3] == buf@[pos + 3]);
        assert(sub[4] == buf@[pos + 4] && sub[5] == buf@[pos + 5] && sub[6] == buf@[pos + 6]);
        assert(sub[7] == buf@[pos + 7] && sub[0] == buf@[pos as int]);
        Ok((v, pos + 8))
    } else {
        Err(CodecError::UnexpectedEof)
    }
}

pub fn read_array32(buf: &[u8], pos: usize) -> (r: Result<([u8; 32], usize), CodecError>)
    ensures
        parsed_as(r, spec_read_array32(buf@, pos as int)),
{
    if pos <= buf.len() && buf.len() - pos >= 32 {
        let mut a = [0u8; 32];
        let mut i: usize = 0;
        while i < 32
            invariant
                pos + 32 <= buf@.len(),
                buf@.len() <= usize::MAX,
                0 <= i <= 32,
                forall|j: int| 0 <= j < i ==> a@[j] == buf@[pos + j],
            decreases 32 - i,
        {
            a[i] = buf[pos + i];
            i = i + 1;
        }
        proof {
            assert(a@ =~= buf@.subrange(pos as int, pos + 32));
            lemma_array32_of(a);
        }
        Ok((a, pos + 32))
    } else {
        Err(CodecError::UnexpectedEof)
    }
}

pub fn read_array64(buf: &[u8], pos: usize) -> (r: Result<([u8; 64], usize), CodecError>)
    ensures
        parsed_as(r, spec_read_array64(buf@, pos as int)),
{
    if pos <= buf.len() && buf.len() - pos >= 64 {
        let mut a = [0u8; 64];
        let mut i: usize = 0;
        while i < 64
            invariant
                pos + 64 <= buf@.len(),
                buf@.len() <= usize::MAX,
                0 <= i <= 64,
                forall|j: int| 0 <= j < i ==> a@[j] == buf@[pos + j],
            decreases 64 - i,
        {
            a[i] = buf[pos + i];
            i = i + 1;
        }
        proof {
            assert(a@ =~= buf@.subrange(pos as int, pos + 64));
            lemma_array64_of(a);
        }
        Ok((a, pos + 64))
    } else {
        Err(CodecError::UnexpectedEof)
    }
}

pub fn write_u8(out: &mut Vec<u8>, x: u8)
    ensures
        final(out)@ == old(out)@.push(x),
{
    out.push(x);
}

pub fn write_u16(out: &mut Vec<u8>, x: u16)
    ensures
        final(out)@ == old(out)@ + u16_bytes(x),
{
    out.push(x as u8);
    out.push((x >> 8u16) as u8);
    assert(final(out)@ =~= old(out)@ + u16_bytes(x));
}

pub fn write_u32(out: &mut Vec<u8>, x: u32)
    ensures
        final(out)@ == old(out)@ + u32_bytes(x),
{
    out.push(x as u8);
    out.push((x >> 8u32) as u8);
    out.push((x >> 16u32) as u8);
    out.push((x >> 24u32) as u8);
    assert(final(out)@ =~= old(out)@ + u32_bytes(x));
}

pub fn write_u64(out: &mut Vec<u8>, x: u64)
    ensures
        final(out)@ == old(out)@ + u64_bytes(x),
{
    out.push(x as u8);
    out.push((x >> 8u64) as u8);
    out.push((x >> 16u64) as u8);
    out.push((x >> 24u64) as u8);
    out.push((x >> 32u64) as u8);
    out.push((x >> 40u64) as u8);
    out.push((x >> 48u64) as u8);
    out.push((x >> 56u64) as u8);
    assert(final(out)@ =~= old(out)@ + u64_bytes(x));
}

pub fn write_array32(out: &mut Vec<u8>, a: &[u8; 32])
    ensures
        final(out)@ == old(out)@ + a@,
{
    let mut i: usize = 0;
    while i < 32
        invariant
            0 <= i <= 32,
            out@ == old(out)@ + a@.subrange(0, i as int),
        decreases 32 - i,
    {
        out.push(a[i]);
        i = i + 1;
        assert(out@ =~= old(out)@ + a@.subrange(0, i as int));
    }
    assert(a@.subrange(0, 32) =~= a@);
}

pub fn write_array64(out: &mut Vec<u8>, a: &[u8; 64])
    ensures
        final(out)@ == old(out)@ + a@,
{
    let mut i: usize = 0;
    while i < 64
        invariant
            0 <= i <= 64,
            out@ == old(out)@ + a@.subrange(0, i as int),
        decreases 64 - i,
    {
        out.push(a[i]);
        i = i + 1;
        assert(out@ =~= old(out)@ + a@.subrange(0, i as int));
    }
    assert(a@.subrange(0, 64) =~= a@);
}

} // verus!

verus! {

/// Byte-wise equality of two 32-byte arrays.
pub fn array32_eq(a: &[u8; 32], b: &[u8; 32]) -> (r: bool)
    ensures
        r == (*a == *b),
{
    let mut i: usize = 0;
    while i < 32
        invariant
            0 <= i <= 32,
            forall|j: int| 0 <= j < i ==> a@[j] == b@[j],
        decreases 32 - i,
    {
        if a[i] != b[i] {
            assert(a@[i as int] != b@[i as int]);
            return false;
        }
        i = i + 1;
    }
    assert(*a =~= *b);
    true
}

} // verus!

verus! {

/// Where `b` stands in `s` from `pos`, each slice of `b` stands there too.
pub proof fn lemma_subrange_of(s: Seq<u8>, pos: int, b: Seq<u8>, a: int, c: int)
    requires
        0 <= pos,
        pos + b.len() <= s.len(),
        s.subrange(pos, pos + b.len()) == b,
        0 <= a <= c <= b.len(),
    ensures
        s.subrange(pos + a, pos + c) == b.subrange(a, c),
{
    assert forall|k: int| 0 <= k < c - a implies #[trigger] s.subrange(pos + a, pos + c)[k]
        == b.subrange(a, c)[k] by {
        assert(s.subrange(pos, pos + b.len())[a + k] == s[pos + a + k]);
    }
    assert(s.subrange(pos + a, pos + c) =~= b.subrange(a, c));
}

} // verus!
