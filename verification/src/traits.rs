//! Conversion of native values into the value model.

use crate::binary::{encodable, wxf};
use crate::builders::{convert_all, converted, list_of};
use crate::compress::wxf_compressed;
use crate::error::{IoFailure, WolframError};
use crate::model::Expr;
use crate::notation::{decimals_known, has_reserved, notation};
use crate::numbers::narrowed;
use crate::symbols::WolframSymbol;
use crate::text::char_text;
use crate::value::{models, WolframFunction, WolframValue};
use std::collections::VecDeque;
use vstd::prelude::*;

verus! {

/// What can be turned into a value.
pub trait ToWolfram {
    /// The value that `self` stands for.
    spec fn wolfram(&self) -> Expr;

    /// Converts to a value.
    fn to_wolfram(&self) -> (v: WolframValue)
        ensures
            v@ == self.wolfram(),
    ;

    /// Converts to a value and gives its text.
    fn to_wolfram_string(&self) -> (r: Result<String, WolframError>)
        ensures
            match r {
                Ok(s) => !has_reserved(self.wolfram()) && decimals_known(
                    self.wolfram(),
                    Seq::empty(),
                ) && s@ == notation(self.wolfram(), Seq::empty()),
                Err(WolframError::NotImplemented) => has_reserved(self.wolfram()),
                Err(WolframError::MissingDecimal) => !has_reserved(self.wolfram())
                    && !decimals_known(self.wolfram(), Seq::empty()),
                Err(_) => false,
            },
    {
        self.to_wolfram().to_string()
    }

    /// Converts to a value and gives its uncompressed encoding.
    fn to_wolfram_bytes(&self) -> (r: Result<Vec<u8>, WolframError>)
        ensures
            match r {
                Ok(bytes) => encodable(self.wolfram()) && bytes@ == wxf(self.wolfram()),
                Err(e) => !encodable(self.wolfram()) && e == WolframError::NotImplemented,
            },
    {
        self.to_wolfram().to_bytes()
    }

    /// Converts to a value and gives its compressed encoding.
    fn to_wolfram_solid(&self) -> (r: Result<Vec<u8>, WolframError>)
        ensures
            match r {
                Ok(bytes) => encodable(self.wolfram()) && wxf_compressed(self.wolfram()) == Some(
                    bytes@,
                ),
                Err(WolframError::NotImplemented) => !encodable(self.wolfram()),
                Err(WolframError::IOError(IoFailure::Other)) => encodable(self.wolfram())
                    && wxf_compressed(self.wolfram()) is None,
                Err(_) => false,
            },
    {
        self.to_wolfram().to_compressed()
    }
}

impl ToWolfram for WolframValue {
    open spec fn wolfram(&self) -> Expr {
        self@
    }

    fn to_wolfram(&self) -> (v: WolframValue) {
        self.duplicate()
    }
}

impl ToWolfram for WolframFunction {
    open spec fn wolfram(&self) -> Expr {
        self@
    }

    fn to_wolfram(&self) -> (v: WolframValue) {
        self.clone().into_value()
    }
}

impl ToWolfram for WolframSymbol {
    open spec fn wolfram(&self) -> Expr {
        Expr::Symbol { namespace: self.namespace_text(), name: self.name_text() }
    }

    fn to_wolfram(&self) -> (v: WolframValue) {
        WolframValue::Symbol(Box::new(self.clone()))
    }
}

impl ToWolfram for bool {
    open spec fn wolfram(&self) -> Expr {
        Expr::Boolean(*self)
    }

    fn to_wolfram(&self) -> (v: WolframValue) {
        WolframValue::Boolean(*self)
    }
}

impl ToWolfram for String {
    open spec fn wolfram(&self) -> Expr {
        Expr::String(self@)
    }

    fn to_wolfram(&self) -> (v: WolframValue) {
        WolframValue::String(self.clone())
    }
}

impl ToWolfram for &str {
    open spec fn wolfram(&self) -> Expr {
        Expr::String(self@)
    }

    fn to_wolfram(&self) -> (v: WolframValue) {
        WolframValue::String((*self).to_owned())
    }
}

impl ToWolfram for char {
    open spec fn wolfram(&self) -> Expr {
        Expr::String(seq![*self])
    }

    fn to_wolfram(&self) -> (v: WolframValue) {
        WolframValue::String(char_text(*self))
    }
}

impl ToWolfram for i8 {
    open spec fn wolfram(&self) -> Expr {
        narrowed(*self as int)
    }

    fn to_wolfram(&self) -> (v: WolframValue) {
        WolframValue::narrow_signed(*self as i128)
    }
}

impl ToWolfram for i16 {
    open spec fn wolfram(&self) -> Expr {
        narrowed(*self as int)
    }

    fn to_wolfram(&self) -> (v: WolframValue) {
        WolframValue::narrow_signed(*self as i128)
    }
}

impl ToWolfram for i32 {
    open spec fn wolfram(&self) -> Expr {
        narrowed(*self as int)
    }

    fn to_wolfram(&self) -> (v: WolframValue) {
        WolframValue::narrow_signed(*self as i128)
    }
}

impl ToWolfram for i64 {
    open spec fn wolfram(&self) -> Expr {
        narrowed(*self as int)
    }

    fn to_wolfram(&self) -> (v: WolframValue) {
        WolframValue::narrow_signed(*self as i128)
    }
}

impl ToWolfram for i128 {
    open spec fn wolfram(&self) -> Expr {
        narrowed(*self as int)
    }

    fn to_wolfram(&self) -> (v: WolframValue) {
        WolframValue::narrow_signed(*self)
    }
}

impl ToWolfram for isize {
    open spec fn wolfram(&self) -> Expr {
        narrowed(*self as int)
    }

    fn to_wolfram(&self) -> (v: WolframValue) {
        WolframValue::narrow_signed(*self as i128)
    }
}

impl ToWolfram for u8 {
    open spec fn wolfram(&self) -> Expr {
        narrowed(*self as int)
    }

    fn to_wolfram(&self) -> (v: WolframValue) {
        WolframValue::narrow_unsigned(*self as u128)
    }
}

impl ToWolfram for u16 {
    open spec fn wolfram(&self) -> Expr {
        narrowed(*self as int)
    }

    fn to_wolfram(&self) -> (v: WolframValue) {
        WolframValue::narrow_unsigned(*self as u128)
    }
}

impl ToWolfram for u32 {
    open spec fn wolfram(&self) -> Expr {
        narrowed(*self as int)
    }

    fn to_wolfram(&self) -> (v: WolframValue) {
        WolframValue::narrow_unsigned(*self as u128)
    }
}

impl ToWolfram for u64 {
    open spec fn wolfram(&self) -> Expr {
        narrowed(*self as int)
    }

    fn to_wolfram(&self) -> (v: WolframValue) {
        WolframValue::narrow_unsigned(*self as u128)
    }
}

impl ToWolfram for u128 {
    open spec fn wolfram(&self) -> Expr {
        narrowed(*self as int)
    }

    fn to_wolfram(&self) -> (v: WolframValue) {
        WolframValue::narrow_unsigned(*self)
    }
}

impl ToWolfram for usize {
    open spec fn wolfram(&self) -> Expr {
        narrowed(*self as int)
    }

    fn to_wolfram(&self) -> (v: WolframValue) {
        WolframValue::narrow_unsigned(*self as u128)
    }
}

impl<T: ToWolfram> ToWolfram for Vec<T> {
    open spec fn wolfram(&self) -> Expr {
        list_of(converted(self@))
    }

    fn to_wolfram(&self) -> (v: WolframValue) {
        proof {
            reveal_strlit("List");
        }
        let rest = convert_all(self);
        let head = WolframValue::system_known("List");
        (WolframFunction { head, rest }).into_value()
    }
}

impl<T: ToWolfram> ToWolfram for VecDeque<T> {
    open spec fn wolfram(&self) -> Expr {
        list_of(converted(self@))
    }

    fn to_wolfram(&self) -> (v: WolframValue) {
        proof {
            reveal_strlit("List");
        }
        let mut rest: Vec<WolframValue> = Vec::new();
        let mut i: usize = 0;
        while i < self.len()
            invariant
                i <= self@.len(),
                rest@.len() == i,
                forall|j: int| 0 <= j < i ==> rest@[j].model() == self@[j].wolfram(),
            decreases self@.len() - i,
        {
            rest.push(self[i].to_wolfram());
            i += 1;
        }
        assert(models(rest@) =~= converted(self@));
        let head = WolframValue::system_known("List");
        (WolframFunction { head, rest }).into_value()
    }
}

} // verus!
