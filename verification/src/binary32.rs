//! Binary32 numbers: their widening to binary64, on bit patterns.

use crate::model::Expr;
use crate::numbers::binary64_value;
use crate::value::WolframValue;
use vstd::prelude::*;

verus! {

/// Two to the power of a natural number.
pub open spec fn pow2(n: nat) -> nat
    decreases n,
{
    if n == 0 {
        1
    } else {
        2 * pow2((n - 1) as nat)
    }
}

/// The sign bit of a binary32 pattern.
pub open spec fn sign32(bits: u32) -> int {
    bits as int / 0x8000_0000
}

/// The exponent field of a binary32 pattern.
pub open spec fn field32(bits: u32) -> int {
    bits as int / 0x80_0000 % 0x100
}

/// The fraction field of a binary32 pattern.
pub open spec fn fraction32(bits: u32) -> int {
    bits as int % 0x80_0000
}

/// The sign bit of a binary64 pattern.
pub open spec fn sign64(bits: u64) -> int {
    bits as int / 0x8000_0000_0000_0000
}

/// The exponent field of a binary64 pattern.
pub open spec fn field64(bits: u64) -> int {
    bits as int / 0x10_0000_0000_0000 % 0x800
}

/// The fraction field of a binary64 pattern.
pub open spec fn fraction64(bits: u64) -> int {
    bits as int % 0x10_0000_0000_0000
}

/// The significand of a finite binary32 number: the number is the
/// significand times two to the exponent, with the sign.
pub open spec fn significand32(bits: u32) -> int {
    if field32(bits) == 0 {
        fraction32(bits)
    } else {
        0x80_0000 + fraction32(bits)
    }
}

/// The exponent of a finite binary32 number.
pub open spec fn exponent32(bits: u32) -> int {
    if field32(bits) == 0 {
        -149
    } else {
        field32(bits) - 150
    }
}

/// The significand of a finite binary64 number.
pub open spec fn significand64(bits: u64) -> int {
    if field64(bits) == 0 {
        fraction64(bits)
    } else {
        0x10_0000_0000_0000 + fraction64(bits)
    }
}

/// The exponent of a finite binary64 number.
pub open spec fn exponent64(bits: u64) -> int {
    if field64(bits) == 0 {
        -1074
    } else {
        field64(bits) - 1075
    }
}

/// The number of doublings that bring a fraction up to the place of the
/// leading bit of a binary32 significand.
pub open spec fn normalizing_shift(fraction: int) -> nat
    decreases 0x100_0000 - fraction,
{
    if 0 < fraction < 0x80_0000 {
        1 + normalizing_shift(2 * fraction)
    } else {
        0
    }
}

/// The binary64 pattern of the number that a binary32 pattern stands for:
/// an infinity stays an infinity, a not-a-number stays one, and a finite
/// number keeps its value.
pub open spec fn widened(bits: u32) -> u64 {
    let sign = sign32(bits) * 0x8000_0000_0000_0000;
    let field = field32(bits);
    let fraction = fraction32(bits);
    if field == 255 {
        (sign + 0x7ff0_0000_0000_0000 + fraction * 0x2000_0000) as u64
    } else if field != 0 {
        (sign + (field + 896) * 0x10_0000_0000_0000 + fraction * 0x2000_0000) as u64
    } else if fraction == 0 {
        sign as u64
    } else {
        let shift = normalizing_shift(fraction);
        (sign + (897 - shift) * 0x10_0000_0000_0000 + (fraction * pow2(shift) - 0x80_0000)
            * 0x2000_0000) as u64
    }
}

/// Doubling a fraction as often as its normalizing shift says brings it to
/// the place of the leading bit, in at most 23 steps.
pub proof fn lemma_normalizing_shift(fraction: int)
    requires
        0 < fraction < 0x80_0000,
    ensures
        1 <= normalizing_shift(fraction) <= 23,
        0x80_0000 <= fraction * pow2(normalizing_shift(fraction)) < 0x100_0000,
    decreases 0x100_0000 - fraction,
{
    let s = normalizing_shift(fraction);
    assert(pow2(1) == 2) by {
        reveal_with_fuel(pow2, 2);
    }
    if 2 * fraction < 0x80_0000 {
        lemma_normalizing_shift(2 * fraction);
        let t = normalizing_shift(2 * fraction);
        assert(s == t + 1);
        assert(pow2(s) == 2 * pow2(t));
        assert(fraction * pow2(s) == (2 * fraction) * pow2(t)) by (nonlinear_arith)
            requires
                pow2(s) == 2 * pow2(t),
        ;
    } else {
        assert(normalizing_shift(2 * fraction) == 0);
        assert(s == 1);
    }
    if s >= 24 {
        lemma_pow2_grows(24, s);
        assert(pow2(24) == 0x100_0000) by {
            reveal_with_fuel(pow2, 25);
        }
        assert(fraction * pow2(s) >= 0x100_0000) by (nonlinear_arith)
            requires
                fraction >= 1,
                pow2(s) >= 0x100_0000,
        ;
    }
}

/// A greater exponent gives a power that is not smaller.
proof fn lemma_pow2_grows(a: nat, b: nat)
    requires
        a <= b,
    ensures
        pow2(a) <= pow2(b),
        pow2(a) >= 1,
    decreases b,
{
    if a < b {
        lemma_pow2_grows(a, (b - 1) as nat);
    } else if a > 0 {
        lemma_pow2_grows((a - 1) as nat, (a - 1) as nat);
    }
}

/// Widening keeps the number: a finite binary32 pattern and its widened
/// pattern have the same sign, the widened pattern is finite, and its
/// significand is the binary32 significand times two to the difference of
/// the exponents. An infinity widens to the infinity of its sign, and a
/// not-a-number to a not-a-number.
pub proof fn lemma_widened_keeps_the_number(bits: u32)
    ensures
        sign64(widened(bits)) == sign32(bits),
        field32(bits) == 255 ==> field64(widened(bits)) == 2047 && (fraction64(widened(bits)) == 0
            <==> fraction32(bits) == 0),
        field32(bits) != 255 ==> field64(widened(bits)) != 2047 && exponent64(widened(bits))
            <= exponent32(bits) && significand64(widened(bits)) == significand32(bits) * pow2(
            (exponent32(bits) - exponent64(widened(bits))) as nat,
        ),
{
    let sign = sign32(bits) * 0x8000_0000_0000_0000;
    let field = field32(bits);
    let fraction = fraction32(bits);
    assert(0 <= sign32(bits) <= 1);
    assert(0 <= field < 256);
    assert(0 <= fraction < 0x80_0000);
    lemma_pow2_values();
    if field == 255 {
        let w = sign + 0x7ff0_0000_0000_0000 + fraction * 0x2000_0000;
        assert(widened(bits) == w);
    } else if field != 0 {
        let w = sign + (field + 896) * 0x10_0000_0000_0000 + fraction * 0x2000_0000;
        assert(widened(bits) == w);
        assert(field64(widened(bits)) == field + 896);
        assert(fraction64(widened(bits)) == fraction * 0x2000_0000);
        assert(exponent32(bits) - exponent64(widened(bits)) == 29);
        assert(significand64(widened(bits)) == significand32(bits) * pow2(29));
    } else if fraction == 0 {
        assert(widened(bits) == sign);
        assert(field64(widened(bits)) == 0);
        assert(significand64(widened(bits)) == 0);
        assert(exponent32(bits) - exponent64(widened(bits)) == 925);
        assert(significand32(bits) * pow2(925) == 0) by (nonlinear_arith)
            requires
                significand32(bits) == 0,
        ;
    } else {
        lemma_normalizing_shift(fraction);
        let shift = normalizing_shift(fraction);
        let scaled = fraction * pow2(shift);
        let w = sign + (897 - shift) * 0x10_0000_0000_0000 + (scaled - 0x80_0000) * 0x2000_0000;
        assert(widened(bits) == w);
        assert(field64(widened(bits)) == 897 - shift);
        assert(fraction64(widened(bits)) == (scaled - 0x80_0000) * 0x2000_0000);
        assert(exponent32(bits) - exponent64(widened(bits)) == 29 + shift);
        lemma_pow2_adds(shift, 29);
        assert(significand64(widened(bits)) == scaled * 0x2000_0000);
        assert(scaled * 0x2000_0000 == fraction * pow2(shift + 29)) by (nonlinear_arith)
            requires
                scaled == fraction * pow2(shift),
                pow2(shift + 29) == pow2(shift) * 0x2000_0000,
        ;
        assert(significand32(bits) == fraction);
        assert((exponent32(bits) - exponent64(widened(bits))) as nat == shift + 29);
    }
}

/// The powers of two that the widening uses.
proof fn lemma_pow2_values()
    ensures
        pow2(29) == 0x2000_0000,
{
    reveal_with_fuel(pow2, 30);
}

/// Two to a sum is the product of the powers.
proof fn lemma_pow2_adds(a: nat, b: nat)
    ensures
        pow2(a + b) == pow2(a) * pow2(b),
    decreases b,
{
    if b > 0 {
        lemma_pow2_adds(a, (b - 1) as nat);
        assert(pow2(a + b) == 2 * pow2((a + b - 1) as nat));
        assert(pow2(a) * pow2(b) == 2 * (pow2(a) * pow2((b - 1) as nat))) by (nonlinear_arith)
            requires
                pow2(b) == 2 * pow2((b - 1) as nat),
        ;
    } else {
        assert(pow2(a) * pow2(0) == pow2(a)) by (nonlinear_arith)
            requires
                pow2(0) == 1,
        ;
    }
}

/// The binary64 pattern of the number that a binary32 pattern stands for.
pub fn widen(bits: u32) -> (r: u64)
    ensures
        r == widened(bits),
{
    let sign: u64 = (bits / 0x8000_0000) as u64 * 0x8000_0000_0000_0000;
    let field: u64 = (bits / 0x80_0000 % 0x100) as u64;
    let fraction: u64 = (bits % 0x80_0000) as u64;
    if field == 255 {
        sign + 0x7ff0_0000_0000_0000 + fraction * 0x2000_0000
    } else if field != 0 {
        sign + (field + 896) * 0x10_0000_0000_0000 + fraction * 0x2000_0000
    } else if fraction == 0 {
        sign
    } else {
        proof {
            lemma_normalizing_shift(fraction as int);
        }
        let mut scaled: u64 = fraction;
        let mut shift: u64 = 0;
        assert(pow2(0) == 1);
        while scaled < 0x80_0000
            invariant
                0 < scaled < 0x100_0000,
                shift <= 23,
                0 < fraction < 0x80_0000,
                scaled == fraction * pow2(shift as nat),
                normalizing_shift(fraction as int) == shift + normalizing_shift(scaled as int),
                normalizing_shift(fraction as int) <= 23,
            decreases 0x100_0000 - scaled,
        {
            assert(2 * scaled == fraction * pow2((shift + 1) as nat)) by (nonlinear_arith)
                requires
                    scaled == fraction * pow2(shift as nat),
                    pow2((shift + 1) as nat) == 2 * pow2(shift as nat),
            ;
            scaled = 2 * scaled;
            shift = shift + 1;
        }
        assert(normalizing_shift(scaled as int) == 0);
        sign + (897 - shift) * 0x10_0000_0000_0000 + (scaled - 0x80_0000) * 0x2000_0000
    }
}

impl WolframValue {
    /// The value of the binary32 number with the given bits: that of the
    /// binary64 number with the same value.
    pub fn from_binary32(bits: u32) -> (r: WolframValue)
        ensures
            r@ == binary64_value(widened(bits)),
    {
        WolframValue::from_binary64(widen(bits))
    }
}

} // verus!
