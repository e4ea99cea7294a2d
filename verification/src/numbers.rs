//! Numeric canonicalization: the smallest integer variant that holds a
//! number, and the classification of binary64 bit patterns.

use crate::binary::le_bytes;
use crate::integers::BigInteger;
use crate::model::Expr;
use crate::symbols::{valid_name, WolframSymbol};
use crate::value::{models, WolframFunction, WolframValue};
use vstd::prelude::*;

verus! {

/// The value that an integer becomes: the smallest of the fixed-width
/// variants whose range holds it, and `BigInteger` beyond 64 bits.
pub open spec fn narrowed(v: int) -> Expr {
    if -0x80 <= v <= 0x7f {
        Expr::Integer8(v as i8)
    } else if -0x8000 <= v <= 0x7fff {
        Expr::Integer16(v as i16)
    } else if -0x8000_0000 <= v <= 0x7fff_ffff {
        Expr::Integer32(v as i32)
    } else if -0x8000_0000_0000_0000 <= v <= 0x7fff_ffff_ffff_ffff {
        Expr::Integer64(v as i64)
    } else {
        Expr::BigInteger(v)
    }
}

/// The integer that an integer value holds.
pub open spec fn integer_of(e: Expr) -> int {
    match e {
        Expr::Integer8(n) => n as int,
        Expr::Integer16(n) => n as int,
        Expr::Integer32(n) => n as int,
        Expr::Integer64(n) => n as int,
        Expr::BigInteger(v) => v,
        _ => 0,
    }
}

/// The boundary table of narrowing: a number goes to `Integer8` exactly
/// from -128 to 127, else to `Integer16` exactly from -32768 to 32767, else
/// to `Integer32` exactly in the signed 32-bit range, else to `Integer64`
/// exactly in the signed 64-bit range, else to `BigInteger`; and the variant
/// holds the number unchanged. So the greatest number of a variant selects
/// that variant, and one more selects the next wider.
pub proof fn lemma_narrowing_table(v: int)
    ensures
        integer_of(narrowed(v)) == v,
        narrowed(v) is Integer8 <==> -128 <= v <= 127,
        narrowed(v) is Integer16 <==> (-32768 <= v <= 32767 && !(-128 <= v <= 127)),
        narrowed(v) is Integer32 <==> (-2147483648 <= v <= 2147483647 && !(-32768 <= v <= 32767)),
        narrowed(v) is Integer64 <==> (-9223372036854775808 <= v <= 9223372036854775807 && !(
        -2147483648 <= v <= 2147483647)),
        narrowed(v) is BigInteger <==> !(-9223372036854775808 <= v <= 9223372036854775807),
{
}

/// The greatest numbers of the unsigned sources and their successors: 127
/// stays in eight bits and 128 needs sixteen, and so on up to `u64`, whose
/// upper half needs `BigInteger`.
pub proof fn lemma_unsigned_boundaries()
    ensures
        narrowed(127) == Expr::Integer8(127),
        narrowed(128) == Expr::Integer16(128),
        narrowed(255) == Expr::Integer16(255),
        narrowed(32767) == Expr::Integer16(32767),
        narrowed(32768) == Expr::Integer32(32768),
        narrowed(65535) == Expr::Integer32(65535),
        narrowed(2147483647) == Expr::Integer32(2147483647),
        narrowed(2147483648) == Expr::Integer64(2147483648),
        narrowed(4294967295) == Expr::Integer64(4294967295),
        narrowed(9223372036854775807) == Expr::Integer64(9223372036854775807),
        narrowed(9223372036854775808) == Expr::BigInteger(9223372036854775808),
        narrowed(18446744073709551615) == Expr::BigInteger(18446744073709551615),
{
}

impl WolframValue {
    /// The value of a signed integer, in the smallest variant that holds it.
    pub fn narrow_signed(v: i128) -> (r: WolframValue)
        ensures
            r@ == narrowed(v as int),
    {
        if -0x80 <= v && v <= 0x7f {
            WolframValue::Integer8(v as i8)
        } else if -0x8000 <= v && v <= 0x7fff {
            WolframValue::Integer16(v as i16)
        } else if -0x8000_0000 <= v && v <= 0x7fff_ffff {
            WolframValue::Integer32(v as i32)
        } else if -0x8000_0000_0000_0000 <= v && v <= 0x7fff_ffff_ffff_ffff {
            WolframValue::Integer64(v as i64)
        } else {
            WolframValue::BigInteger(BigInteger::from_i128(v))
        }
    }

    /// The value of an unsigned integer, in the smallest variant that holds
    /// it.
    pub fn narrow_unsigned(v: u128) -> (r: WolframValue)
        ensures
            r@ == narrowed(v as int),
    {
        if v <= 0x7fff_ffff_ffff_ffff {
            Self::narrow_signed(v as i128)
        } else {
            WolframValue::BigInteger(BigInteger::from_u128(v))
        }
    }

    /// The value of a signed integer as a `BigInteger`, whatever its size.
    pub fn integer(v: i128) -> (r: WolframValue)
        ensures
            r@ == Expr::BigInteger(v as int),
    {
        WolframValue::BigInteger(BigInteger::from_i128(v))
    }
}

/// The bits of a binary64 number without its sign.
pub open spec fn magnitude_bits(bits: u64) -> int {
    bits as int % 0x8000_0000_0000_0000
}

/// Tells whether a bit pattern is a binary64 infinity.
pub open spec fn is_infinite(bits: u64) -> bool {
    magnitude_bits(bits) == 0x7ff0_0000_0000_0000
}

/// Tells whether a bit pattern is a binary64 not-a-number.
pub open spec fn is_nan(bits: u64) -> bool {
    magnitude_bits(bits) > 0x7ff0_0000_0000_0000
}

/// The system symbol of a name.
pub open spec fn system_symbol_of(name: Seq<char>) -> Expr {
    Expr::Symbol { namespace: Seq::empty(), name }
}

/// The value that a binary64 number becomes: positive infinity the symbol
/// `Infinity`, negative infinity `Neg[Infinity]`, not-a-number the symbol
/// `Null`, any other number its eight bytes.
pub open spec fn binary64_value(bits: u64) -> Expr {
    if is_nan(bits) {
        system_symbol_of("Null"@)
    } else if is_infinite(bits) {
        if bits < 0x8000_0000_0000_0000 {
            system_symbol_of("Infinity"@)
        } else {
            Expr::Function {
                head: Box::new(system_symbol_of("Neg"@)),
                args: seq![system_symbol_of("Infinity"@)],
            }
        }
    } else {
        Expr::Decimal64(le_bytes(bits as nat, 8))
    }
}

/// The eight bytes of a number, least significant first.
fn pattern_of(bits: u64) -> (d: [u8; 8])
    ensures
        d@ == le_bytes(bits as nat, 8),
{
    let d = [
        (bits % 256) as u8,
        (bits / 0x100 % 256) as u8,
        (bits / 0x1_0000 % 256) as u8,
        (bits / 0x100_0000 % 256) as u8,
        (bits / 0x1_0000_0000 % 256) as u8,
        (bits / 0x100_0000_0000 % 256) as u8,
        (bits / 0x1_0000_0000_0000 % 256) as u8,
        (bits / 0x100_0000_0000_0000 % 256) as u8,
    ];
    proof {
        reveal_with_fuel(le_bytes, 9);
        assert(d@ =~= le_bytes(bits as nat, 8));
    }
    d
}

impl WolframValue {
    /// The symbol value of the implicit system context with a name that is
    /// known to be valid.
    pub fn system_known(name: &str) -> (r: WolframValue)
        requires
            valid_name(name@),
        ensures
            r@ == system_symbol_of(name@),
    {
        let s = WolframSymbol::system_known(name);
        assert(s.namespace_text() =~= Seq::<char>::empty());
        WolframValue::Symbol(Box::new(s))
    }

    /// The value of the binary64 number with the given bits.
    pub fn from_binary64(bits: u64) -> (r: WolframValue)
        ensures
            r@ == binary64_value(bits),
    {
        proof {
            reveal_strlit("Null");
            reveal_strlit("Infinity");
            reveal_strlit("Neg");
        }
        let magnitude = bits % 0x8000_0000_0000_0000;
        if magnitude > 0x7ff0_0000_0000_0000 {
            Self::system_known("Null")
        } else if magnitude == 0x7ff0_0000_0000_0000 {
            if bits < 0x8000_0000_0000_0000 {
                Self::system_known("Infinity")
            } else {
                let head = Self::system_known("Neg");
                let mut rest: Vec<WolframValue> = Vec::new();
                rest.push(Self::system_known("Infinity"));
                assert(models(rest@) =~= seq![system_symbol_of("Infinity"@)]);
                (WolframFunction { head, rest }).into_value()
            }
        } else {
            WolframValue::Decimal64(pattern_of(bits))
        }
    }
}

} // verus!
