//! Little-endian integers and byte runs as the binary formats store them.
use vstd::prelude::*;

verus! {

/// The two little-endian bytes of a `u16`.
pub open spec fn le16(x: u16) -> Seq<u8> {
    seq![(x % 256) as u8, (x / 256) as u8]
}

/// The four little-endian bytes of a `u32`.
pub open spec fn le32(x: u32) -> Seq<u8> {
    seq![(x % 256) as u8, ((x / 256) % 256) as u8, ((x / 65536) % 256) as u8, (x / 16777216) as u8]
}

/// The `u16` whose little-endian bytes are `a`, `b`.
pub open spec fn u16_of(a: u8, b: u8) -> u16 {
    (a + 256 * b) as u16
}

/// The `u32` whose little-endian bytes are `a`, `b`, `c`, `d`.
pub open spec fn u32_of(a: u8, b: u8, c: u8, d: u8) -> u32 {
    (a + 256 * b + 65536 * c + 16777216 * d) as u32
}

/// The two's-complement bit pattern of an `i16`.
pub open spec fn i16_bits(x: i16) -> u16 {
    if x >= 0 {
        x as u16
    } else {
        (x + 65536) as u16
    }
}

/// The `i16` with a given two's-complement bit pattern.
pub open spec fn i16_of_bits(b: u16) -> i16 {
    if b < 32768 {
        b as i16
    } else {
        (b - 65536) as i16
    }
}

/// Reading back what was written gives the value.
pub proof fn lemma_le16_roundtrip(x: u16)
    ensures
        u16_of(le16(x)[0], le16(x)[1]) == x,
{
}

/// Reading back what was written gives the value.
pub proof fn lemma_le32_roundtrip(x: u32)
    ensures
        u32_of(le32(x)[0], le32(x)[1], le32(x)[2], le32(x)[3]) == x,
{
    let a = x % 256;
    let q1 = x / 256;
    let b = q1 % 256;
    let q2 = q1 / 256;
    let c = q2 % 256;
    let d = q2 / 256;
    assert(x == a + 256 * q1);
    assert(q1 == b + 256 * q2);
    assert(q2 == c + 256 * d);
    assert((x / 65536) % 256 == c) by {
        vstd::arithmetic::div_mod::lemma_div_denominator(x as int, 256, 256);
    }
    assert(x / 16777216 == d) by {
        vstd::arithmetic::div_mod::lemma_div_denominator(x as int, 256, 256);
        vstd::arithmetic::div_mod::lemma_div_denominator(x as int, 65536, 256);
    }
}

/// The bit pattern of an `i16` reads back as the `i16`.
pub proof fn lemma_i16_bits_roundtrip(x: i16)
    ensures
        i16_of_bits(i16_bits(x)) == x,
{
}

/// Appends the little-endian bytes of `x`.
pub fn push_u16(out: &mut Vec<u8>, x: u16)
    ensures
        final(out)@ == old(out)@ + le16(x),
{
    out.push((x % 256) as u8);
    out.push((x / 256) as u8);
    assert(out@ =~= old(out)@ + le16(x));
}

/// Appends the little-endian bytes of `x`.
pub fn push_u32(out: &mut Vec<u8>, x: u32)
    ensures
        final(out)@ == old(out)@ + le32(x),
{
    out.push((x % 256) as u8);
    out.push(((x / 256) % 256) as u8);
    out.push(((x / 65536) % 256) as u8);
    out.push((x / 16777216) as u8);
    assert(out@ =~= old(out)@ + le32(x));
}

/// The two's-complement bit pattern of `x`.
pub fn bits_of_i16(x: i16) -> (r: u16)
    ensures
        r == i16_bits(x),
{
    if x >= 0 {
        x as u16
    } else {
        (x as i32 + 65536) as u16
    }
}

/// The `i16` with bit pattern `b`.
pub fn i16_from_bits(b: u16) -> (r: i16)
    ensures
        r == i16_of_bits(b),
{
    if b < 32768 {
        b as i16
    } else {
        (b as i32 - 65536) as i16
    }
}

/// Appends the little-endian bytes of the bit pattern of `x`.
pub fn push_i16(out: &mut Vec<u8>, x: i16)
    ensures
        final(out)@ == old(out)@ + le16(i16_bits(x)),
{
    push_u16(out, bits_of_i16(x));
}

/// Appends every byte of `src`.
pub fn push_all(out: &mut Vec<u8>, src: &[u8])
    ensures
        final(out)@ == old(out)@ + src@,
{
    let mut i: usize = 0;
    while i < src.len()
        invariant
            i <= src.len(),
            out@ == old(out)@ + src@.take(i as int),
        decreases src.len() - i,
    {
        out.push(src[i]);
        i += 1;
        assert(out@ =~= old(out)@ + src@.take(i as int));
    }
    assert(src@.take(src.len() as int) =~= src@);
}

/// The `u16` stored little-endian at `at`.
pub fn read_u16(input: &[u8], at: usize) -> (r: u16)
    requires
        at + 2 <= input@.len(),
    ensures
        r == u16_of(input@[at as int], input@[at + 1]),
{
    (input[at] as u16) + 256 * (input[at + 1] as u16)
}

/// The `u32` stored little-endian at `at`.
pub fn read_u32(input: &[u8], at: usize) -> (r: u32)
    requires
        at + 4 <= input@.len(),
    ensures
        r == u32_of(input@[at as int], input@[at + 1], input@[at + 2], input@[at + 3]),
{
    (input[at] as u32) + 256 * (input[at + 1] as u32) + 65536 * (input[at + 2] as u32) + 16777216 * (input[at
        + 3] as u32)
}

/// The 32 bytes starting at `at`.
pub fn read_array32(input: &[u8], at: usize) -> (r: [u8; 32])
    requires
        at + 32 <= input@.len(),
    ensures
        r@ == input@.subrange(at as int, at + 32),
{
    let mut out = [0u8; 32];
    let n = input.len();
    let mut i: usize = 0;
    while i < 32
        invariant
            i <= 32,
            n == input@.len(),
            at + 32 <= input@.len(),
            out@.len() == 32,
            forall|j: int| 0 <= j < i ==> out@[j] == input@[at + j],
        decreases 32 - i,
    {
        out.set(i, input[at + i]);
        i += 1;
    }
    assert(out@ =~= input@.subrange(at as int, at + 32));
    out
}


/// The 32-byte array holding a 32-byte sequence.
pub open spec fn array32_of(s: Seq<u8>) -> [u8; 32] {
    choose|a: [u8; 32]| a@ == s
}

/// An array is the array of its own bytes.
pub proof fn lemma_array32_of(a: [u8; 32])
    ensures
        array32_of(a@) == a,
{
    let w = a;
    assert(w@ == a@);
    assert(exists|b: [u8; 32]| #[trigger] b@ == a@);
    let c = array32_of(a@);
    assert(c@ == a@);
    assert(c =~= a);
}

/// The concatenation of `f` over the items of `s`, in order.
pub open spec fn concat_bytes<A>(s: Seq<A>, f: spec_fn(A) -> Seq<u8>) -> Seq<u8>
    decreases s.len(),
{
    if s.len() == 0 {
        Seq::empty()
    } else {
        f(s[0]) + concat_bytes(s.drop_first(), f)
    }
}

/// Appending an item appends its bytes.
pub proof fn lemma_concat_bytes_push<A>(s: Seq<A>, f: spec_fn(A) -> Seq<u8>, x: A)
    ensures
        concat_bytes(s.push(x), f) == concat_bytes(s, f) + f(x),
    decreases s.len(),
{
    if s.len() == 0 {
        assert(s.push(x).drop_first() =~= Seq::<A>::empty());
        assert(concat_bytes(Seq::<A>::empty(), f) == Seq::<u8>::empty());
        assert(s.push(x)[0] == x);
        assert(concat_bytes(s.push(x), f) =~= f(x));
        assert(concat_bytes(s, f) + f(x) =~= f(x));
    } else {
        lemma_concat_bytes_push(s.drop_first(), f, x);
        assert(s.push(x).drop_first() =~= s.drop_first().push(x));
        assert(concat_bytes(s.push(x), f) =~= concat_bytes(s, f) + f(x));
    }
}

} // verus!
