//! The mathematical model of a value: the tree that contracts speak of, and
//! the total order that gives association keys their canonical sequence.

use crate::associations::WolframRule;
use vstd::prelude::*;
use vstd::utf8::encode_utf8;

verus! {

/// A value as a mathematical tree.
#[verifier::ext_equal]
pub enum Expr {
    /// The no-value marker.
    Skip,
    /// A call expression: a head applied to an ordered list of arguments.
    Function { head: Box<Expr>, args: Seq<Expr> },
    /// A truth value.
    Boolean(bool),
    /// A text.
    String(Seq<char>),
    /// A binary payload.
    Bytes(Seq<u8>),
    /// A symbol; an empty namespace is the implicit system context.
    Symbol { namespace: Seq<char>, name: Seq<char> },
    /// An integer in the signed 8-bit range.
    Integer8(i8),
    /// An integer in the signed 16-bit range.
    Integer16(i16),
    /// An integer in the signed 32-bit range.
    Integer32(i32),
    /// An integer in the signed 64-bit range.
    Integer64(i64),
    /// An integer of any size.
    BigInteger(int),
    /// The eight bytes of a binary64 number, least significant first.
    Decimal64(Seq<u8>),
    /// A decimal number kept as its text.
    BigDecimal(Seq<char>),
    /// Reserved.
    PackedArray(Seq<Expr>),
    /// Reserved.
    NumericArray(Seq<Expr>),
    /// A key-unique mapping, its entries in ascending key order.
    Association(Seq<Entry>),
    /// The bare immediate relation.
    Rule,
    /// The bare delayed relation.
    RuleDelayed,
}

/// One entry of an association.
#[verifier::ext_equal]
pub struct Entry {
    pub key: Expr,
    pub rule: WolframRule,
    pub value: Expr,
}

/// The outcome of comparing two values.
#[derive(Copy, Clone, Debug, PartialEq, Eq, Structural)]
pub enum KeyOrder {
    Less,
    Equal,
    Greater,
}

impl KeyOrder {
    /// Lexicographic composition: the first difference decides.
    pub open spec fn then_by(self, next: KeyOrder) -> KeyOrder {
        if self == KeyOrder::Equal {
            next
        } else {
            self
        }
    }

    /// The outcome with the two sides exchanged.
    pub open spec fn flip(self) -> KeyOrder {
        match self {
            KeyOrder::Less => KeyOrder::Greater,
            KeyOrder::Equal => KeyOrder::Equal,
            KeyOrder::Greater => KeyOrder::Less,
        }
    }
}

/// The order of two integers.
pub open spec fn order_int(a: int, b: int) -> KeyOrder {
    if a < b {
        KeyOrder::Less
    } else if a == b {
        KeyOrder::Equal
    } else {
        KeyOrder::Greater
    }
}

/// The order of two truth values: false comes first.
pub open spec fn order_bool(a: bool, b: bool) -> KeyOrder {
    order_int(if a { 1 } else { 0 }, if b { 1 } else { 0 })
}

/// The order of two relations: `Rule` comes first.
pub open spec fn order_rule(a: WolframRule, b: WolframRule) -> KeyOrder {
    order_int(a.tag() as int, b.tag() as int)
}

/// The lexicographic order of two byte sequences; a proper prefix comes first.
pub open spec fn order_bytes(a: Seq<u8>, b: Seq<u8>) -> KeyOrder
    decreases a.len(),
{
    if a.len() == 0 {
        if b.len() == 0 {
            KeyOrder::Equal
        } else {
            KeyOrder::Less
        }
    } else if b.len() == 0 {
        KeyOrder::Greater
    } else {
        order_int(a[0] as int, b[0] as int).then_by(order_bytes(a.drop_first(), b.drop_first()))
    }
}

/// The order of two texts: that of their UTF-8 bytes.
pub open spec fn order_text(a: Seq<char>, b: Seq<char>) -> KeyOrder {
    order_bytes(encode_utf8(a), encode_utf8(b))
}

impl Expr {
    /// The position of a value's variant in the fixed order of variants.
    pub open spec fn rank(self) -> int {
        match self {
            Expr::Skip => 0,
            Expr::Function { .. } => 1,
            Expr::Boolean(_) => 2,
            Expr::String(_) => 3,
            Expr::Bytes(_) => 4,
            Expr::Symbol { .. } => 5,
            Expr::Integer8(_) => 6,
            Expr::Integer16(_) => 7,
            Expr::Integer32(_) => 8,
            Expr::Integer64(_) => 9,
            Expr::BigInteger(_) => 10,
            Expr::Decimal64(_) => 11,
            Expr::BigDecimal(_) => 12,
            Expr::PackedArray(_) => 13,
            Expr::NumericArray(_) => 14,
            Expr::Association(_) => 15,
            Expr::Rule => 16,
            Expr::RuleDelayed => 17,
        }
    }
}

/// The total order of values: first by variant, in the order of declaration,
/// then by contents within a variant.
pub open spec fn order_expr(a: Expr, b: Expr) -> KeyOrder
    decreases a,
{
    if a.rank() != b.rank() {
        order_int(a.rank(), b.rank())
    } else {
        match (a, b) {
            (Expr::Function { head: h1, args: r1 }, Expr::Function { head: h2, args: r2 }) => {
                order_expr(*h1, *h2).then_by(order_list(r1, r2))
            },
            (Expr::Boolean(x), Expr::Boolean(y)) => order_bool(x, y),
            (Expr::String(x), Expr::String(y)) => order_text(x, y),
            (Expr::Bytes(x), Expr::Bytes(y)) => order_bytes(x, y),
            (
                Expr::Symbol { namespace: n1, name: s1 },
                Expr::Symbol { namespace: n2, name: s2 },
            ) => order_text(n1, n2).then_by(order_text(s1, s2)),
            (Expr::Integer8(x), Expr::Integer8(y)) => order_int(x as int, y as int),
            (Expr::Integer16(x), Expr::Integer16(y)) => order_int(x as int, y as int),
            (Expr::Integer32(x), Expr::Integer32(y)) => order_int(x as int, y as int),
            (Expr::Integer64(x), Expr::Integer64(y)) => order_int(x as int, y as int),
            (Expr::BigInteger(x), Expr::BigInteger(y)) => order_int(x, y),
            (Expr::Decimal64(x), Expr::Decimal64(y)) => order_bytes(x, y),
            (Expr::BigDecimal(x), Expr::BigDecimal(y)) => order_text(x, y),
            (Expr::PackedArray(x), Expr::PackedArray(y)) => order_list(x, y),
            (Expr::NumericArray(x), Expr::NumericArray(y)) => order_list(x, y),
            (Expr::Association(x), Expr::Association(y)) => order_entries(x, y),
            _ => KeyOrder::Equal,
        }
    }
}

/// The lexicographic order of two lists of values.
pub open spec fn order_list(a: Seq<Expr>, b: Seq<Expr>) -> KeyOrder
    decreases a,
{
    if a.len() == 0 {
        if b.len() == 0 {
            KeyOrder::Equal
        } else {
            KeyOrder::Less
        }
    } else if b.len() == 0 {
        KeyOrder::Greater
    } else {
        order_expr(a[0], b[0]).then_by(order_list(a.drop_first(), b.drop_first()))
    }
}

/// The order of two entries: by key, then relation, then value.
pub open spec fn order_entry(a: Entry, b: Entry) -> KeyOrder
    decreases a,
{
    order_expr(a.key, b.key).then_by(order_rule(a.rule, b.rule)).then_by(order_expr(a.value, b.value))
}

/// The lexicographic order of two lists of entries.
pub open spec fn order_entries(a: Seq<Entry>, b: Seq<Entry>) -> KeyOrder
    decreases a,
{
    if a.len() == 0 {
        if b.len() == 0 {
            KeyOrder::Equal
        } else {
            KeyOrder::Less
        }
    } else if b.len() == 0 {
        KeyOrder::Greater
    } else {
        order_entry(a[0], b[0]).then_by(order_entries(a.drop_first(), b.drop_first()))
    }
}

} // verus!
