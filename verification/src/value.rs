//! The value model: the closed set of variants that the encoders accept.

use crate::associations::{WolframAssociation, WolframRule};
use crate::integers::BigInteger;
use crate::model::{Entry, Expr};
use crate::symbols::WolframSymbol;
use vstd::prelude::*;

verus! {

/// A value of the Wolfram Language.
#[derive(Debug, PartialEq, Eq)]
pub enum WolframValue {
    /// The no-value marker; it encodes to nothing.
    Skip,
    /// A call expression; the head may be any value.
    Function(Box<WolframFunction>),
    /// A truth value; it encodes as the symbol `True` or `False`.
    Boolean(bool),
    /// A text.
    String(String),
    /// A binary payload.
    Bytes(Vec<u8>),
    /// A symbol.
    Symbol(Box<WolframSymbol>),
    /// An integer in the range -128 to 127.
    Integer8(i8),
    /// An integer in the range -32768 to 32767.
    Integer16(i16),
    /// An integer in the range -2147483648 to 2147483647.
    Integer32(i32),
    /// An integer in the range -9223372036854775808 to 9223372036854775807.
    Integer64(i64),
    /// An integer of any size.
    BigInteger(BigInteger),
    /// The bit pattern of a binary64 number, least significant byte first.
    Decimal64([u8; 8]),
    /// A decimal number of any precision, kept as its text.
    BigDecimal(String),
    /// Reserved: no operation accepts it.
    PackedArray(Vec<WolframValue>),
    /// Reserved: no operation accepts it.
    NumericArray(Vec<WolframValue>),
    /// A key-unique mapping.
    Association(WolframAssociation),
    /// The bare relation `->`.
    Rule,
    /// The bare relation `:>`.
    RuleDelayed,
}

/// A call expression `head[rest...]`.
#[derive(Debug, PartialEq, Eq)]
pub struct WolframFunction {
    /// The value that is applied.
    pub head: WolframValue,
    /// The arguments, in order.
    pub rest: Vec<WolframValue>,
}

/// A key, the relation, and the value it is tied to.
#[derive(Debug, PartialEq, Eq)]
pub struct WolframPair {
    /// The relation.
    pub rule: WolframRule,
    /// The key.
    pub key: WolframValue,
    /// The value.
    pub value: WolframValue,
}

impl WolframValue {
    /// The mathematical tree that this value stands for.
    pub open spec fn model(&self) -> Expr
        decreases self,
    {
        match self {
            WolframValue::Skip => Expr::Skip,
            WolframValue::Function(f) => Expr::Function {
                head: Box::new(f.head.model()),
                args: Seq::new(
                    f.rest@.len(),
                    |i: int|
                        if 0 <= i < f.rest@.len() {
                            f.rest@[i].model()
                        } else {
                            Expr::Skip
                        },
                ),
            },
            WolframValue::Boolean(b) => Expr::Boolean(*b),
            WolframValue::String(s) => Expr::String(s@),
            WolframValue::Bytes(b) => Expr::Bytes(b@),
            WolframValue::Symbol(s) => Expr::Symbol {
                namespace: s.namespace_text(),
                name: s.name_text(),
            },
            WolframValue::Integer8(n) => Expr::Integer8(*n),
            WolframValue::Integer16(n) => Expr::Integer16(*n),
            WolframValue::Integer32(n) => Expr::Integer32(*n),
            WolframValue::Integer64(n) => Expr::Integer64(*n),
            WolframValue::BigInteger(n) => Expr::BigInteger(n.value()),
            WolframValue::Decimal64(d) => Expr::Decimal64(d@),
            WolframValue::BigDecimal(s) => Expr::BigDecimal(s@),
            WolframValue::PackedArray(v) => Expr::PackedArray(
                Seq::new(
                    v@.len(),
                    |i: int|
                        if 0 <= i < v@.len() {
                            v@[i].model()
                        } else {
                            Expr::Skip
                        },
                ),
            ),
            WolframValue::NumericArray(v) => Expr::NumericArray(
                Seq::new(
                    v@.len(),
                    |i: int|
                        if 0 <= i < v@.len() {
                            v@[i].model()
                        } else {
                            Expr::Skip
                        },
                ),
            ),
            WolframValue::Association(a) => Expr::Association(a.entries()),
            WolframValue::Rule => Expr::Rule,
            WolframValue::RuleDelayed => Expr::RuleDelayed,
        }
    }
}

impl WolframFunction {
    /// The mathematical tree that this call stands for.
    pub open spec fn model(&self) -> Expr {
        Expr::Function { head: Box::new(self.head.model()), args: models(self.rest@) }
    }
}

impl WolframPair {
    /// The entry that this pair stands for.
    pub open spec fn model(&self) -> Entry {
        Entry { key: self.key.model(), rule: self.rule, value: self.value.model() }
    }
}

impl View for WolframValue {
    type V = Expr;

    open spec fn view(&self) -> Expr {
        self.model()
    }
}

impl View for WolframFunction {
    type V = Expr;

    open spec fn view(&self) -> Expr {
        self.model()
    }
}

impl View for WolframPair {
    type V = Entry;

    open spec fn view(&self) -> Entry {
        self.model()
    }
}

/// The trees that a sequence of values stands for.
pub open spec fn models(values: Seq<WolframValue>) -> Seq<Expr> {
    Seq::new(values.len(), |i: int| values[i].model())
}

/// A copy of each value of a list, in order.
pub fn clone_values(values: &Vec<WolframValue>) -> (r: Vec<WolframValue>)
    ensures
        models(r@) == models(values@),
    decreases values,
{
    let mut r: Vec<WolframValue> = Vec::new();
    let mut i: usize = 0;
    while i < values.len()
        invariant
            i <= values@.len(),
            r@.len() == i,
            forall|j: int| 0 <= j < i ==> r@[j].model() == values@[j].model(),
        decreases values@.len() - i,
    {
        r.push(values[i].duplicate());
        i += 1;
    }
    assert(models(r@) =~= models(values@));
    r
}

impl WolframFunction {
    /// The call as a value.
    pub fn into_value(self) -> (r: WolframValue)
        ensures
            r@ == self@,
    {
        let ghost args = models(self.rest@);
        let r = WolframValue::Function(Box::new(self));
        assert(r@->args =~= args);
        r
    }
}

impl WolframValue {
    /// A copy of the value.
    pub fn duplicate(&self) -> (r: WolframValue)
        ensures
            r@ == self@,
        decreases self,
    {
        match self {
            WolframValue::Skip => WolframValue::Skip,
            WolframValue::Function(f) => {
                let head = f.head.duplicate();
                let rest = clone_values(&f.rest);
                let r = WolframValue::Function(Box::new(WolframFunction { head, rest }));
                assert(r@->args =~= models(rest@));
                assert(self@->args =~= models(f.rest@));
                r
            },
            WolframValue::Boolean(b) => WolframValue::Boolean(*b),
            WolframValue::String(s) => WolframValue::String(s.clone()),
            WolframValue::Bytes(b) => WolframValue::Bytes(b.clone()),
            WolframValue::Symbol(s) => WolframValue::Symbol(Box::new((**s).clone())),
            WolframValue::Integer8(n) => WolframValue::Integer8(*n),
            WolframValue::Integer16(n) => WolframValue::Integer16(*n),
            WolframValue::Integer32(n) => WolframValue::Integer32(*n),
            WolframValue::Integer64(n) => WolframValue::Integer64(*n),
            WolframValue::BigInteger(n) => WolframValue::BigInteger(n.clone()),
            WolframValue::Decimal64(d) => WolframValue::Decimal64(*d),
            WolframValue::BigDecimal(s) => WolframValue::BigDecimal(s.clone()),
            WolframValue::PackedArray(v) => {
                let items = clone_values(v);
                let r = WolframValue::PackedArray(items);
                assert(r@->PackedArray_0 =~= models(items@));
                assert(self@->PackedArray_0 =~= models(v@));
                r
            },
            WolframValue::NumericArray(v) => {
                let items = clone_values(v);
                let r = WolframValue::NumericArray(items);
                assert(r@->NumericArray_0 =~= models(items@));
                assert(self@->NumericArray_0 =~= models(v@));
                r
            },
            WolframValue::Association(a) => WolframValue::Association(a.duplicate()),
            WolframValue::Rule => WolframValue::Rule,
            WolframValue::RuleDelayed => WolframValue::RuleDelayed,
        }
    }
}

impl Clone for WolframValue {
    fn clone(&self) -> (r: WolframValue)
        ensures
            r@ == self@,
    {
        self.duplicate()
    }
}

impl Clone for WolframFunction {
    fn clone(&self) -> (r: WolframFunction)
        ensures
            r@ == self@,
    {
        WolframFunction { head: self.head.duplicate(), rest: clone_values(&self.rest) }
    }
}

impl Clone for WolframPair {
    fn clone(&self) -> (r: WolframPair)
        ensures
            r@ == self@,
    {
        WolframPair {
            rule: self.rule,
            key: self.key.duplicate(),
            value: self.value.duplicate(),
        }
    }
}

} // verus!
