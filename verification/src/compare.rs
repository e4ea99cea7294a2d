//! The executable order of values.

use crate::associations::WolframRule;
use crate::model::{
    order_bytes, order_entry, order_expr, order_int, order_list, order_rule, order_text, KeyOrder,
};
use crate::value::{models, WolframPair, WolframValue};
use vstd::prelude::*;

verus! {

/// The lexicographic order of two byte slices.
pub fn compare_bytes(a: &[u8], b: &[u8]) -> (r: KeyOrder)
    ensures
        r == order_bytes(a@, b@),
{
    let mut i: usize = 0;
    assert(a@.subrange(0, a@.len() as int) =~= a@);
    assert(b@.subrange(0, b@.len() as int) =~= b@);
    while i < a.len() && i < b.len()
        invariant
            i <= a@.len(),
            i <= b@.len(),
            order_bytes(a@, b@) == order_bytes(
                a@.subrange(i as int, a@.len() as int),
                b@.subrange(i as int, b@.len() as int),
            ),
        decreases a@.len() - i,
    {
        let ghost ra = a@.subrange(i as int, a@.len() as int);
        let ghost rb = b@.subrange(i as int, b@.len() as int);
        assert(ra.drop_first() =~= a@.subrange(i + 1, a@.len() as int));
        assert(rb.drop_first() =~= b@.subrange(i + 1, b@.len() as int));
        assert(ra[0] == a@[i as int] && rb[0] == b@[i as int]);
        if a[i] < b[i] {
            return KeyOrder::Less;
        }
        if a[i] > b[i] {
            return KeyOrder::Greater;
        }
        i += 1;
    }
    if i < b.len() {
        KeyOrder::Less
    } else if i < a.len() {
        KeyOrder::Greater
    } else {
        KeyOrder::Equal
    }
}

/// The order of two texts, that of their UTF-8 bytes.
pub fn compare_text(a: &str, b: &str) -> (r: KeyOrder)
    ensures
        r == order_text(a@, b@),
{
    compare_bytes(a.as_bytes(), b.as_bytes())
}

/// The position of a value's variant in the fixed order of variants.
pub fn rank(v: &WolframValue) -> (r: u8)
    ensures
        r == v@.rank(),
{
    match v {
        WolframValue::Skip => 0,
        WolframValue::Function(_) => 1,
        WolframValue::Boolean(_) => 2,
        WolframValue::String(_) => 3,
        WolframValue::Bytes(_) => 4,
        WolframValue::Symbol(_) => 5,
        WolframValue::Integer8(_) => 6,
        WolframValue::Integer16(_) => 7,
        WolframValue::Integer32(_) => 8,
        WolframValue::Integer64(_) => 9,
        WolframValue::BigInteger(_) => 10,
        WolframValue::Decimal64(_) => 11,
        WolframValue::BigDecimal(_) => 12,
        WolframValue::PackedArray(_) => 13,
        WolframValue::NumericArray(_) => 14,
        WolframValue::Association(_) => 15,
        WolframValue::Rule => 16,
        WolframValue::RuleDelayed => 17,
    }
}

fn compare_i64(a: i64, b: i64) -> (r: KeyOrder)
    ensures
        r == order_int(a as int, b as int),
{
    if a < b {
        KeyOrder::Less
    } else if a == b {
        KeyOrder::Equal
    } else {
        KeyOrder::Greater
    }
}

/// The order of two relations.
pub fn compare_rules(a: WolframRule, b: WolframRule) -> (r: KeyOrder)
    ensures
        r == order_rule(a, b),
{
    compare_i64(a.as_byte() as i64, b.as_byte() as i64)
}

/// The total order of values: first by variant, then by contents.
pub fn compare_values(a: &WolframValue, b: &WolframValue) -> (r: KeyOrder)
    ensures
        r == order_expr(a@, b@),
    decreases a,
{
    let ra = rank(a);
    let rb = rank(b);
    if ra != rb {
        return compare_i64(ra as i64, rb as i64);
    }
    match (a, b) {
        (WolframValue::Function(f), WolframValue::Function(g)) => {
            let first = compare_values(&f.head, &g.head);
            proof {
                assert(a@->args =~= models(f.rest@));
                assert(b@->args =~= models(g.rest@));
            }
            if first != KeyOrder::Equal {
                first
            } else {
                compare_lists(&f.rest, &g.rest)
            }
        },
        (WolframValue::Boolean(x), WolframValue::Boolean(y)) => compare_i64(
            if *x {
                1
            } else {
                0
            },
            if *y {
                1
            } else {
                0
            },
        ),
        (WolframValue::String(x), WolframValue::String(y)) => compare_text(
            x.as_str(),
            y.as_str(),
        ),
        (WolframValue::Bytes(x), WolframValue::Bytes(y)) => compare_bytes(
            x.as_slice(),
            y.as_slice(),
        ),
        (WolframValue::Symbol(x), WolframValue::Symbol(y)) => {
            let first = compare_text(x.namespace(), y.namespace());
            if first != KeyOrder::Equal {
                first
            } else {
                compare_text(x.name(), y.name())
            }
        },
        (WolframValue::Integer8(x), WolframValue::Integer8(y)) => compare_i64(
            *x as i64,
            *y as i64,
        ),
        (WolframValue::Integer16(x), WolframValue::Integer16(y)) => compare_i64(
            *x as i64,
            *y as i64,
        ),
        (WolframValue::Integer32(x), WolframValue::Integer32(y)) => compare_i64(
            *x as i64,
            *y as i64,
        ),
        (WolframValue::Integer64(x), WolframValue::Integer64(y)) => compare_i64(*x, *y),
        (WolframValue::BigInteger(x), WolframValue::BigInteger(y)) => x.compare(y),
        (WolframValue::Decimal64(x), WolframValue::Decimal64(y)) => compare_bytes(
            x.as_slice(),
            y.as_slice(),
        ),
        (WolframValue::BigDecimal(x), WolframValue::BigDecimal(y)) => compare_text(
            x.as_str(),
            y.as_str(),
        ),
        (WolframValue::PackedArray(x), WolframValue::PackedArray(y)) => {
            proof {
                assert(a@->PackedArray_0 =~= models(x@));
                assert(b@->PackedArray_0 =~= models(y@));
            }
            compare_lists(x, y)
        },
        (WolframValue::NumericArray(x), WolframValue::NumericArray(y)) => {
            proof {
                assert(a@->NumericArray_0 =~= models(x@));
                assert(b@->NumericArray_0 =~= models(y@));
            }
            compare_lists(x, y)
        },
        (WolframValue::Association(x), WolframValue::Association(y)) => x.compare(y),
        _ => KeyOrder::Equal,
    }
}

/// The lexicographic order of two lists of values.
pub fn compare_lists(a: &Vec<WolframValue>, b: &Vec<WolframValue>) -> (r: KeyOrder)
    ensures
        r == order_list(models(a@), models(b@)),
    decreases a,
{
    let ghost ma = models(a@);
    let ghost mb = models(b@);
    let mut i: usize = 0;
    assert(ma.subrange(0, ma.len() as int) =~= ma);
    assert(mb.subrange(0, mb.len() as int) =~= mb);
    while i < a.len() && i < b.len()
        invariant
            i <= a@.len(),
            i <= b@.len(),
            ma == models(a@),
            mb == models(b@),
            order_list(ma, mb) == order_list(
                ma.subrange(i as int, ma.len() as int),
                mb.subrange(i as int, mb.len() as int),
            ),
        decreases a@.len() - i,
    {
        let ghost ra = ma.subrange(i as int, ma.len() as int);
        let ghost rb = mb.subrange(i as int, mb.len() as int);
        assert(ra.drop_first() =~= ma.subrange(i + 1, ma.len() as int));
        assert(rb.drop_first() =~= mb.subrange(i + 1, mb.len() as int));
        assert(ra[0] == a@[i as int].model() && rb[0] == b@[i as int].model());
        let step = compare_values(&a[i], &b[i]);
        if step != KeyOrder::Equal {
            return step;
        }
        i += 1;
    }
    if i < b.len() {
        KeyOrder::Less
    } else if i < a.len() {
        KeyOrder::Greater
    } else {
        KeyOrder::Equal
    }
}

/// The order of two entries: by key, then relation, then value.
pub fn compare_pairs(a: &WolframPair, b: &WolframPair) -> (r: KeyOrder)
    ensures
        r == order_entry(a@, b@),
    decreases a,
{
    let first = compare_values(&a.key, &b.key);
    if first != KeyOrder::Equal {
        return first;
    }
    let second = compare_rules(a.rule, b.rule);
    if second != KeyOrder::Equal {
        return second;
    }
    compare_values(&a.value, &b.value)
}

} // verus!
