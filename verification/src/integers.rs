//! Integers of any size, kept as decimal digits, and their decimal text.

use crate::model::{order_int, KeyOrder};
use vstd::prelude::*;

verus! {

/// The decimal digits of a number, most significant first, as numbers 0 to 9.
pub open spec fn decimal_digits(n: nat) -> Seq<u8>
    decreases n,
{
    if n < 10 {
        seq![n as u8]
    } else {
        decimal_digits(n / 10).push((n % 10) as u8)
    }
}

/// The number that a sequence of decimal digits stands for.
pub open spec fn digits_value(d: Seq<u8>) -> nat
    decreases d.len(),
{
    if d.len() == 0 {
        0
    } else {
        10 * digits_value(d.drop_last()) + d.last() as nat
    }
}

/// Digits are canonical when there is at least one, each is at most 9, and
/// the first is zero only where it stands alone.
pub open spec fn canonical_digits(d: Seq<u8>) -> bool {
    &&& d.len() >= 1
    &&& forall|i: int| 0 <= i < d.len() ==> #[trigger] d[i] <= 9
    &&& d.len() > 1 ==> d[0] != 0
}

/// The ASCII bytes of the decimal digits of a number.
pub open spec fn digit_bytes(n: nat) -> Seq<u8> {
    Seq::new(decimal_digits(n).len(), |i: int| (decimal_digits(n)[i] + 48) as u8)
}

/// The ASCII bytes of the decimal form of an integer, with a leading `-`
/// where it is negative.
pub open spec fn decimal_bytes(v: int) -> Seq<u8> {
    if v < 0 {
        seq![45u8] + digit_bytes((-v) as nat)
    } else {
        digit_bytes(v as nat)
    }
}

/// Tells whether each byte is an ASCII digit or the minus sign.
pub open spec fn decimal_ascii(bytes: Seq<u8>) -> bool {
    forall|i: int| 0 <= i < bytes.len() ==> (#[trigger] bytes[i] == 45 || 48 <= bytes[i] <= 57)
}

/// The text whose characters are the given ASCII bytes.
pub open spec fn ascii_text(bytes: Seq<u8>) -> Seq<char> {
    Seq::new(bytes.len(), |i: int| bytes[i] as char)
}

/// The decimal form of an integer as a text.
pub open spec fn decimal_text(v: int) -> Seq<char> {
    ascii_text(decimal_bytes(v))
}

/// The digits of a number are canonical and stand for that number.
pub proof fn lemma_decimal_digits(n: nat)
    ensures
        canonical_digits(decimal_digits(n)),
        digits_value(decimal_digits(n)) == n,
    decreases n,
{
    let d = decimal_digits(n);
    if n < 10 {
        assert(d.drop_last() =~= Seq::<u8>::empty());
        assert(digits_value(d.drop_last()) == 0);
    } else {
        lemma_decimal_digits(n / 10);
        let init = decimal_digits(n / 10);
        assert(d.drop_last() =~= init);
        assert(d[0] == init[0]);
        if init.len() == 1 {
            assert(digits_value(init.drop_last()) == 0) by {
                assert(init.drop_last() =~= Seq::<u8>::empty());
            }
        }
    }
}

/// Digits whose first is not zero stand for a positive number.
pub proof fn lemma_leading_digit(d: Seq<u8>)
    requires
        d.len() >= 1,
        d[0] != 0,
    ensures
        digits_value(d) >= 1,
    decreases d.len(),
{
    if d.len() == 1 {
        assert(d.drop_last() =~= Seq::<u8>::empty());
        assert(digits_value(d.drop_last()) == 0);
    } else {
        lemma_leading_digit(d.drop_last());
    }
}

/// Canonical digits are the digits of the number they stand for.
pub proof fn lemma_canonical_unique(d: Seq<u8>)
    requires
        canonical_digits(d),
    ensures
        decimal_digits(digits_value(d)) == d,
    decreases d.len(),
{
    let init = d.drop_last();
    if d.len() == 1 {
        assert(init =~= Seq::<u8>::empty());
        assert(digits_value(init) == 0);
        assert(decimal_digits(digits_value(d)) =~= d);
    } else {
        assert(init[0] == d[0]);
        lemma_leading_digit(init);
        lemma_canonical_unique(init);
        let v = digits_value(d);
        assert(v / 10 == digits_value(init));
        assert(v % 10 == d.last() as nat);
        assert(decimal_digits(v) =~= d);
    }
}

/// An integer of any size.
#[derive(Debug, PartialEq, Eq)]
pub struct BigInteger {
    negative: bool,
    digits: Vec<u8>,
}

impl BigInteger {
    #[verifier::type_invariant]
    spec fn well_formed(self) -> bool {
        canonical_digits(self.digits@) && (self.negative ==> digits_value(self.digits@) > 0)
    }

    /// The integer that this value stands for.
    pub closed spec fn value(&self) -> int {
        if self.negative {
            -(digits_value(self.digits@) as int)
        } else {
            digits_value(self.digits@) as int
        }
    }

    fn digits_of(n: u128) -> (d: Vec<u8>)
        ensures
            d@ == decimal_digits(n as nat),
        decreases n,
    {
        if n < 10 {
            let mut d = Vec::new();
            d.push(n as u8);
            assert(d@ =~= decimal_digits(n as nat));
            d
        } else {
            let mut d = Self::digits_of(n / 10);
            d.push((n % 10) as u8);
            d
        }
    }

    /// The integer `magnitude`, negated where `negative` is set.
    pub fn from_parts(negative: bool, magnitude: u128) -> (r: BigInteger)
        ensures
            r.value() == if negative {
                -(magnitude as int)
            } else {
                magnitude as int
            },
    {
        let digits = Self::digits_of(magnitude);
        proof {
            lemma_decimal_digits(magnitude as nat);
        }
        BigInteger { negative: negative && magnitude != 0, digits }
    }

    /// The integer with the given decimal digits, most significant first,
    /// negated where `negative` is set. Digits that are not canonical are
    /// refused, and so is a negative zero.
    pub fn from_digits(negative: bool, digits: Vec<u8>) -> (r: Option<BigInteger>)
        ensures
            match r {
                Some(b) => canonical_digits(digits@) && b.value() == if negative {
                    -(digits_value(digits@) as int)
                } else {
                    digits_value(digits@) as int
                },
                None => !canonical_digits(digits@) || (negative && digits_value(digits@) == 0),
            },
    {
        if digits.len() == 0 {
            return None;
        }
        let mut i: usize = 0;
        while i < digits.len()
            invariant
                i <= digits@.len(),
                forall|j: int| 0 <= j < i ==> #[trigger] digits@[j] <= 9,
            decreases digits@.len() - i,
        {
            if digits[i] > 9 {
                return None;
            }
            i += 1;
        }
        if digits[0] == 0 {
            if digits.len() > 1 {
                return None;
            }
            assert(digits_value(digits@) == 0) by {
                assert(digits@.drop_last() =~= Seq::<u8>::empty());
                assert(digits_value(digits@.drop_last()) == 0);
            }
            if negative {
                return None;
            }
        } else {
            proof {
                lemma_leading_digit(digits@);
            }
        }
        Some(BigInteger { negative, digits })
    }

    /// The integer `v`.
    pub fn from_i128(v: i128) -> (r: BigInteger)
        ensures
            r.value() == v,
    {
        if v == i128::MIN {
            Self::from_parts(true, (i128::MAX as u128) + 1)
        } else if v < 0 {
            Self::from_parts(true, (-v) as u128)
        } else {
            Self::from_parts(false, v as u128)
        }
    }

    /// The integer `v`.
    pub fn from_u128(v: u128) -> (r: BigInteger)
        ensures
            r.value() == v,
    {
        Self::from_parts(false, v)
    }

    /// The ASCII bytes of the decimal form.
    pub fn to_decimal_bytes(&self) -> (out: Vec<u8>)
        ensures
            out@ == decimal_bytes(self.value()),
            decimal_ascii(out@),
    {
        proof {
            use_type_invariant(self);
            lemma_canonical_unique(self.digits@);
        }
        let mut out: Vec<u8> = Vec::new();
        if self.negative {
            out.push(45u8);
        }
        let ghost sign = out@;
        let ghost n = digits_value(self.digits@);
        let mut i: usize = 0;
        while i < self.digits.len()
            invariant
                i <= self.digits@.len(),
                canonical_digits(self.digits@),
                out@.len() == sign.len() + i,
                forall|j: int| 0 <= j < sign.len() ==> out@[j] == sign[j],
                forall|j: int| 0 <= j < i ==> out@[sign.len() + j] == (self.digits@[j] + 48) as u8,
            decreases self.digits@.len() - i,
        {
            out.push(self.digits[i] + 48u8);
            i += 1;
        }
        assert(out@ =~= sign + digit_bytes(n));
        out
    }

    /// The order of two integers.
    pub fn compare(&self, other: &BigInteger) -> (r: KeyOrder)
        ensures
            r == order_int(self.value(), other.value()),
    {
        proof {
            use_type_invariant(self);
            use_type_invariant(other);
        }
        if self.negative && !other.negative {
            KeyOrder::Less
        } else if !self.negative && other.negative {
            KeyOrder::Greater
        } else if self.negative {
            compare_digits(&other.digits, &self.digits)
        } else {
            compare_digits(&self.digits, &other.digits)
        }
    }
}

impl Clone for BigInteger {
    fn clone(&self) -> (r: BigInteger)
        ensures
            r.value() == self.value(),
    {
        proof {
            use_type_invariant(self);
        }
        BigInteger { negative: self.negative, digits: self.digits.clone() }
    }
}

/// The order of the numbers that two canonical digit sequences stand for.
fn compare_digits(a: &Vec<u8>, b: &Vec<u8>) -> (r: KeyOrder)
    requires
        canonical_digits(a@),
        canonical_digits(b@),
    ensures
        r == order_int(digits_value(a@) as int, digits_value(b@) as int),
{
    if a.len() < b.len() {
        shorter_first(a, b)
    } else if b.len() < a.len() {
        match shorter_first(b, a) {
            KeyOrder::Less => KeyOrder::Greater,
            KeyOrder::Equal => KeyOrder::Equal,
            KeyOrder::Greater => KeyOrder::Less,
        }
    } else {
        shorter_first(a, b)
    }
}

/// The order of two canonical digit sequences, the first no longer than the
/// second.
fn shorter_first(a: &Vec<u8>, b: &Vec<u8>) -> (r: KeyOrder)
    requires
        canonical_digits(a@),
        canonical_digits(b@),
        a@.len() <= b@.len(),
    ensures
        r == order_int(digits_value(a@) as int, digits_value(b@) as int),
{
    let extra = b.len() - a.len();
    let mut r = KeyOrder::Equal;
    if extra > 0 {
        r = KeyOrder::Less;
        proof {
            lemma_leading_digit(b@.subrange(0, extra as int));
        }
    }
    assert(a@.subrange(0, 0) =~= Seq::<u8>::empty());
    assert(extra == 0 ==> b@.subrange(0, 0) =~= Seq::<u8>::empty());
    let mut i: usize = 0;
    while i < a.len()
        invariant
            i <= a@.len(),
            extra + a@.len() == b@.len(),
            b@.len() <= usize::MAX,
            canonical_digits(a@),
            canonical_digits(b@),
            r == order_int(
                digits_value(a@.subrange(0, i as int)) as int,
                digits_value(b@.subrange(0, extra + i)) as int,
            ),
        decreases a@.len() - i,
    {
        let x = a[i];
        let y = b[extra + i];
        proof {
            let pa = a@.subrange(0, i + 1);
            let pb = b@.subrange(0, extra + i + 1);
            assert(pa.drop_last() =~= a@.subrange(0, i as int));
            assert(pb.drop_last() =~= b@.subrange(0, extra + i));
            assert(pa.last() == x);
            assert(pb.last() == y);
        }
        if r == KeyOrder::Equal {
            if x < y {
                r = KeyOrder::Less;
            } else if x > y {
                r = KeyOrder::Greater;
            }
        }
        i += 1;
    }
    assert(a@.subrange(0, i as int) =~= a@);
    assert(b@.subrange(0, extra + i) =~= b@);
    r
}

} // verus!
