//! Order-preserving mapping between single-precision bit patterns and signed
//! 32-bit coordinates.
//!
//! A single-precision number is handled here by its raw bit pattern: one sign
//! bit above 31 bits of magnitude (biased exponent, then significand). The
//! numeric order of two numbers that are not NaN is the order of their signed
//! magnitudes, so a coordinate only has to turn the sign-magnitude layout into
//! two's complement.

use vstd::prelude::*;

verus! {

/// The magnitude of positive infinity; every larger magnitude is a NaN.
pub const INFINITY_MAGNITUDE: u32 = 0x7f80_0000;

/// Whether the sign bit of a bit pattern is set.
pub open spec fn sign_bit(bits: u32) -> bool {
    bits >= 0x8000_0000
}

/// The low 31 bits of a bit pattern: biased exponent and significand.
pub open spec fn magnitude(bits: u32) -> int {
    if sign_bit(bits) {
        bits - 0x8000_0000
    } else {
        bits as int
    }
}

/// Whether a bit pattern is a NaN, quiet or signaling, of either sign.
pub open spec fn is_nan(bits: u32) -> bool {
    magnitude(bits) > INFINITY_MAGNITUDE
}

/// The magnitude with the sign applied. Both zeros have signed magnitude 0.
pub open spec fn signed_magnitude(bits: u32) -> int {
    if sign_bit(bits) {
        -magnitude(bits)
    } else {
        magnitude(bits)
    }
}

/// Numeric `<` on two bit patterns: false when either is a NaN, and false
/// between the two zeros.
pub open spec fn numeric_lt(a: u32, b: u32) -> bool {
    !is_nan(a) && !is_nan(b) && signed_magnitude(a) < signed_magnitude(b)
}

/// The total order on bit patterns that refines the numeric one: negative NaNs
/// first, then the numbers from negative infinity up to negative zero, then
/// positive zero up to positive infinity, then positive NaNs.
pub open spec fn total_lt(a: u32, b: u32) -> bool {
    signed_magnitude(a) < signed_magnitude(b) || (signed_magnitude(a) == signed_magnitude(b)
        && sign_bit(a) && !sign_bit(b))
}

/// The coordinate of a bit pattern: the magnitude itself for a clear sign bit,
/// and the magnitude counted down from -1 for a set one.
pub open spec fn encode_spec(bits: u32) -> int {
    if sign_bit(bits) {
        -1 - magnitude(bits)
    } else {
        magnitude(bits)
    }
}

/// The bit pattern of a coordinate.
pub open spec fn decode_spec(c: i32) -> int {
    if c < 0 {
        0x8000_0000 + (-1 - c)
    } else {
        c as int
    }
}

/// Maps a bit pattern to its coordinate.
pub fn encode(bits: u32) -> (c: i32)
    ensures
        c == encode_spec(bits),
        decode_spec(c) == bits,
{
    let i: i32 = bits as i32;
    let c: i32 = i ^ (i >> 31) ^ (i & (1i32 << 31));
    assert(c == encode_spec(bits)) by (bit_vector)
        requires
            i == bits as i32,
            c == i ^ (i >> 31) ^ (i & (1i32 << 31)),
    ;
    c
}

/// Maps a coordinate back to its bit pattern.
pub fn decode(c: i32) -> (bits: u32)
    ensures
        bits == decode_spec(c),
        encode_spec(bits) == c,
{
    let u: i32 = c ^ (c >> 31) ^ (c & (1i32 << 31));
    let bits: u32 = u as u32;
    assert(bits == decode_spec(c)) by (bit_vector)
        requires
            u == c ^ (c >> 31) ^ (c & (1i32 << 31)),
            bits == u as u32,
    ;
    bits
}

/// Decoding undoes encoding: every bit pattern, the zeros, the infinities and
/// each NaN payload included, comes back unchanged.
pub proof fn lemma_decode_encode(bits: u32)
    ensures
        i32::MIN <= encode_spec(bits) <= i32::MAX,
        decode_spec(encode_spec(bits) as i32) == bits,
{
}

/// Encoding undoes decoding: the two maps are inverse bijections.
pub proof fn lemma_encode_decode(c: i32)
    ensures
        0 <= decode_spec(c) <= u32::MAX,
        encode_spec(decode_spec(c) as u32) == c,
{
}

/// Encoding preserves the numeric order: a smaller number has a smaller
/// coordinate.
pub proof fn lemma_encode_preserves_order(a: u32, b: u32)
    requires
        numeric_lt(a, b),
    ensures
        encode_spec(a) < encode_spec(b),
{
}

/// The order of coordinates is exactly the total order on bit patterns: it
/// places negative zero just below positive zero, the infinities outside all
/// finite numbers, and the NaNs outside the infinities.
pub proof fn lemma_encode_total_order(a: u32, b: u32)
    ensures
        encode_spec(a) < encode_spec(b) <==> total_lt(a, b),
        encode_spec(a) == encode_spec(b) <==> a == b,
{
}

/// A coordinate, ordered as the number it stands for.
#[derive(Clone, Copy, Debug, PartialEq, Eq, Structural, PartialOrd, Ord)]
pub struct Total32(pub i32);

impl Total32 {
    /// The coordinate of a bit pattern.
    pub fn from_bits(bits: u32) -> (t: Total32)
        ensures
            t.0 == encode_spec(bits),
    {
        Total32(encode(bits))
    }

    /// The bit pattern of this coordinate.
    pub fn to_bits(self) -> (bits: u32)
        ensures
            bits == decode_spec(self.0),
    {
        decode(self.0)
    }
}

} // verus!
