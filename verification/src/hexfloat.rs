//! Rendering of a coordinate as a signed hexadecimal floating-point literal.

use vstd::prelude::*;
use vstd::string::*;
use crate::codec::Total32;

verus! {

/// The sixteen hexadecimal digits, in order of value.
pub open spec fn hex_digits() -> Seq<char> {
    "0123456789abcdef"@
}

/// The character of one digit, of a value below 16.
pub open spec fn digit_char(d: int) -> char
    recommends
        0 <= d < 16,
{
    hex_digits()[d]
}

/// The six low hexadecimal digits of `v`, most significant first.
pub open spec fn hex6(v: int) -> Seq<char> {
    seq![
        digit_char(v / 0x10_0000 % 16),
        digit_char(v / 0x1_0000 % 16),
        digit_char(v / 0x1000 % 16),
        digit_char(v / 0x100 % 16),
        digit_char(v / 0x10 % 16),
        digit_char(v % 16),
    ]
}

/// The decimal digits of `n`, without leading zeros.
pub open spec fn decimal(n: nat) -> Seq<char>
    decreases n,
{
    if n < 10 {
        seq![digit_char(n as int)]
    } else {
        decimal(n / 10).push(digit_char((n % 10) as int))
    }
}

/// The decimal digits of `v`, after a minus sign when it is negative.
pub open spec fn signed_decimal(v: int) -> Seq<char> {
    if v < 0 {
        "-"@ + decimal((-v) as nat)
    } else {
        decimal(v as nat)
    }
}

/// Appends the character of one digit.
fn push_digit(out: &mut String, d: u32)
    requires
        d < 16,
    ensures
        final(out)@ == old(out)@.push(digit_char(d as int)),
{
    let digits = "0123456789abcdef";
    proof {
        reveal_strlit("0123456789abcdef");
    }
    let one = digits.substring_char(d as usize, d as usize + 1);
    out.append(one);
    assert(out@ =~= old(out)@.push(digit_char(d as int)));
}

/// Appends the six hexadecimal digits of a value below 2^24.
fn push_hex6(out: &mut String, v: u32)
    requires
        v < 0x100_0000,
    ensures
        final(out)@ == old(out)@ + hex6(v as int),
{
    let d5: u32 = (v >> 20) & 0xf;
    let d4: u32 = (v >> 16) & 0xf;
    let d3: u32 = (v >> 12) & 0xf;
    let d2: u32 = (v >> 8) & 0xf;
    let d1: u32 = (v >> 4) & 0xf;
    let d0: u32 = v & 0xf;
    assert(d5 == v / 0x10_0000 % 16 && d4 == v / 0x1_0000 % 16 && d3 == v / 0x1000 % 16 && d2 == v
        / 0x100 % 16 && d1 == v / 0x10 % 16 && d0 == v % 16) by (bit_vector)
        requires
            d5 == (v >> 20) & 0xf,
            d4 == (v >> 16) & 0xf,
            d3 == (v >> 12) & 0xf,
            d2 == (v >> 8) & 0xf,
            d1 == (v >> 4) & 0xf,
            d0 == v & 0xf,
    ;
    push_digit(out, d5);
    push_digit(out, d4);
    push_digit(out, d3);
    push_digit(out, d2);
    push_digit(out, d1);
    push_digit(out, d0);
    assert(out@ =~= old(out)@ + hex6(v as int));
}

/// Appends the decimal digits of `n`.
fn push_decimal(out: &mut String, n: u32)
    ensures
        final(out)@ == old(out)@ + decimal(n as nat),
    decreases n,
{
    if n >= 10 {
        push_decimal(out, n / 10);
    }
    push_digit(out, n % 10);
    assert(out@ =~= old(out)@ + decimal(n as nat));
}

/// Appends the decimal digits of `v`, after a minus sign when it is negative.
fn push_signed_decimal(out: &mut String, v: i32)
    ensures
        final(out)@ == old(out)@ + signed_decimal(v as int),
{
    if v < 0 {
        out.append("-");
        let n: u32 = (-(v as i64)) as u32;
        push_decimal(out, n);
        assert(out@ =~= old(out)@ + signed_decimal(v as int));
    } else {
        push_decimal(out, v as u32);
    }
}

/// The magnitude of the bit pattern that a coordinate stands for.
pub open spec fn magnitude_of(c: i32) -> int {
    if c < 0 {
        -1 - c
    } else {
        c as int
    }
}

/// The biased exponent of a coordinate: the top 8 bits of its magnitude.
pub open spec fn biased_exponent(c: i32) -> int {
    magnitude_of(c) / 0x80_0000
}

/// The significand of a coordinate: the low 23 bits of its magnitude.
pub open spec fn significand(c: i32) -> int {
    magnitude_of(c) % 0x80_0000
}

/// What follows the sign in the rendering of a coordinate.
///
/// Zero is `0x0.000000`. A finite number is `0x`, the integer bit (0 for a
/// subnormal), a point, the significand shifted left to six hexadecimal
/// digits, `p` and the unbiased exponent in decimal. Infinity is `Inf`. A NaN
/// is `q` or `s` by its quiet bit, then `NaN(0x`, the six digits of the payload
/// below the quiet bit, and `)`.
pub open spec fn render_magnitude(c: i32) -> Seq<char> {
    let exp = biased_exponent(c);
    let sig = significand(c);
    if magnitude_of(c) == 0 {
        "0x0.000000"@
    } else if exp == 255 {
        if sig == 0 {
            "Inf"@
        } else {
            (if sig >= 0x40_0000 {
                "q"@
            } else {
                "s"@
            }) + "NaN(0x"@ + hex6(sig % 0x40_0000) + ")"@
        }
    } else {
        "0x"@ + decimal(
            if exp == 0 {
                0nat
            } else {
                1nat
            },
        ) + "."@ + hex6(2 * sig) + "p"@ + signed_decimal(
            if exp == 0 {
                -126int
            } else {
                exp - 127
            },
        )
    }
}

/// The rendering of a coordinate: `-` below zero and `+` otherwise, then the
/// magnitude.
pub open spec fn render(c: i32) -> Seq<char> {
    (if c < 0 {
        "-"@
    } else {
        "+"@
    }) + render_magnitude(c)
}

impl Total32 {
    /// Renders the coordinate as a signed hexadecimal floating-point literal.
    pub fn to_text(&self) -> (text: String)
        ensures
            text@ == render(self.0),
    {
        let c: i32 = self.0;
        let mut out = String::new();
        if c < 0 {
            out.append("-");
        } else {
            out.append("+");
        }
        let s: i32 = c ^ (c >> 31);
        let exp: i32 = s >> 23;
        let sig: i32 = s & 0x7f_ffff;
        let payload: i32 = s & 0x3f_ffff;
        assert(s == magnitude_of(c) && exp == s / 0x80_0000 && sig == s % 0x80_0000 && payload == sig
            % 0x40_0000 && 0 <= exp <= 255) by (bit_vector)
            requires
                s == c ^ (c >> 31),
                exp == s >> 23,
                sig == s & 0x7f_ffff,
                payload == s & 0x3f_ffff,
        ;
        if s == 0 {
            out.append("0x0.000000");
        } else if exp == 255 {
            if sig == 0 {
                out.append("Inf");
            } else {
                if sig >= 0x40_0000 {
                    out.append("q");
                } else {
                    out.append("s");
                }
                out.append("NaN(0x");
                push_hex6(&mut out, payload as u32);
                out.append(")");
            }
        } else {
            out.append("0x");
            push_decimal(&mut out, if exp < 1 { 0 } else { 1 });
            out.append(".");
            push_hex6(&mut out, (2 * sig) as u32);
            out.append("p");
            push_signed_decimal(&mut out, if exp - 127 > -126 { exp - 127 } else { -126 });
        }
        assert(out@ =~= render(c));
        out
    }
}

/// Renders a coordinate for display, as [`Total32::to_text`] does.
pub fn int_fmt(x: i32) -> (text: String)
    ensures
        text@ == render(x),
{
    Total32(x).to_text()
}

} // verus!
