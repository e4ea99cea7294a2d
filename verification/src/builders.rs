//! Constructors of values: symbols, calls, lists and rules.

use crate::associations::{entries_of, WolframAssociation};
use crate::canonical::{canonical_of, lemma_canonical_step};
use crate::error::WolframError;
use crate::model::{Entry, Expr};
use crate::numbers::system_symbol_of;
use crate::symbols::{valid_name, WolframSymbol};
use crate::traits::ToWolfram;
use crate::value::{models, WolframFunction, WolframPair, WolframValue};
use vstd::prelude::*;

verus! {

/// The value of a symbol.
pub open spec fn symbol_of(namespace: Seq<char>, name: Seq<char>) -> Expr {
    Expr::Symbol { namespace, name }
}

/// The call of a head with arguments.
pub open spec fn call_of(head: Expr, args: Seq<Expr>) -> Expr {
    Expr::Function { head: Box::new(head), args }
}

/// The list of items: the call of the system symbol `List`.
pub open spec fn list_of(items: Seq<Expr>) -> Expr {
    call_of(system_symbol_of("List"@), items)
}

/// The values that a sequence of convertible items becomes.
pub open spec fn converted<T: ToWolfram>(items: Seq<T>) -> Seq<Expr> {
    Seq::new(items.len(), |i: int| items[i].wolfram())
}

/// Converts each item of a list, in order.
pub fn convert_all<T: ToWolfram>(items: &Vec<T>) -> (r: Vec<WolframValue>)
    ensures
        models(r@) == converted(items@),
{
    let mut r: Vec<WolframValue> = Vec::new();
    let mut i: usize = 0;
    while i < items.len()
        invariant
            i <= items@.len(),
            r@.len() == i,
            forall|j: int| 0 <= j < i ==> r@[j].model() == items@[j].wolfram(),
        decreases items@.len() - i,
    {
        r.push(items[i].to_wolfram());
        i += 1;
    }
    assert(models(r@) =~= converted(items@));
    r
}

impl WolframFunction {
    /// The call of `head` with the given arguments.
    pub fn new<V: ToWolfram>(head: V, arguments: Vec<WolframValue>) -> (r: WolframFunction)
        ensures
            r@ == call_of(head.wolfram(), models(arguments@)),
    {
        WolframFunction { head: head.to_wolfram(), rest: arguments }
    }

    /// The call of the symbol `name` of the context `namespace`. Fails with
    /// `InvalidSymbol` where `WolframSymbol::new` does.
    pub fn namespace(namespace: &str, name: &str, arguments: Vec<WolframValue>) -> (r: Result<
        WolframFunction,
        WolframError,
    >)
        ensures
            match r {
                Ok(f) => valid_name(namespace@) && valid_name(name@) && f@ == call_of(
                    symbol_of(namespace@, name@),
                    models(arguments@),
                ),
                Err(WolframError::InvalidSymbol(t)) => if valid_name(namespace@) {
                    !valid_name(name@) && t@ == name@
                } else {
                    t@ == namespace@
                },
                Err(_) => false,
            },
    {
        match WolframSymbol::new(namespace, name) {
            Ok(s) => Ok(WolframFunction { head: WolframValue::Symbol(Box::new(s)), rest: arguments }),
            Err(e) => Err(e),
        }
    }

    /// The call of the symbol `name` of the context `Global`.
    pub fn global(name: &str, arguments: Vec<WolframValue>) -> (r: Result<
        WolframFunction,
        WolframError,
    >)
        ensures
            match r {
                Ok(f) => valid_name(name@) && f@ == call_of(
                    symbol_of("Global"@, name@),
                    models(arguments@),
                ),
                Err(WolframError::InvalidSymbol(t)) => !valid_name(name@) && t@ == name@,
                Err(_) => false,
            },
    {
        match WolframSymbol::global(name) {
            Ok(s) => Ok(WolframFunction { head: WolframValue::Symbol(Box::new(s)), rest: arguments }),
            Err(e) => Err(e),
        }
    }

    /// The call of the symbol `name` of the implicit system context.
    pub fn system(name: &str, arguments: Vec<WolframValue>) -> (r: Result<
        WolframFunction,
        WolframError,
    >)
        ensures
            match r {
                Ok(f) => valid_name(name@) && f@ == call_of(
                    system_symbol_of(name@),
                    models(arguments@),
                ),
                Err(WolframError::InvalidSymbol(t)) => !valid_name(name@) && t@ == name@,
                Err(_) => false,
            },
    {
        match WolframSymbol::system(name) {
            Ok(s) => {
                assert(s.namespace_text() =~= Seq::<char>::empty());
                Ok(WolframFunction { head: WolframValue::Symbol(Box::new(s)), rest: arguments })
            },
            Err(e) => Err(e),
        }
    }

    /// The head of the call.
    pub fn get_head(&self) -> (r: &WolframValue)
        ensures
            r == &self.head,
    {
        &self.head
    }

    /// The head of the call, to be changed in place.
    pub fn mut_head(&mut self) -> (r: &mut WolframValue)
        ensures
            *r == old(self).head,
            final(self).head == *final(r),
            final(self).rest == old(self).rest,
    {
        &mut self.head
    }

    /// The arguments of the call, to be changed in place.
    pub fn mut_rest(&mut self) -> (r: &mut Vec<WolframValue>)
        ensures
            *r == old(self).rest,
            final(self).rest == *final(r),
            final(self).head == old(self).head,
    {
        &mut self.rest
    }

    /// Replaces the head of the call.
    pub fn set_head<V: ToWolfram>(&mut self, head: V)
        ensures
            final(self).head@ == head.wolfram(),
            final(self).rest == old(self).rest,
    {
        self.head = head.to_wolfram();
    }

    /// The call with another head.
    pub fn with_head(self, head: WolframValue) -> (r: WolframFunction)
        ensures
            r.head == head,
            r.rest == self.rest,
    {
        WolframFunction { head, rest: self.rest }
    }

    /// The arguments of the call.
    pub fn get_rest(&self) -> (r: &[WolframValue])
        ensures
            r@ == self.rest@,
    {
        self.rest.as_slice()
    }

    /// Adds an argument at the end of the call.
    pub fn add_rest(&mut self, rest: WolframValue)
        ensures
            final(self).rest@ == old(self).rest@.push(rest),
            final(self).head == old(self).head,
    {
        self.rest.push(rest);
    }
}

impl WolframValue {
    /// The symbol `name` of the implicit system context.
    pub fn system_symbol(name: &str) -> (r: Result<WolframValue, WolframError>)
        ensures
            match r {
                Ok(v) => valid_name(name@) && v@ == system_symbol_of(name@),
                Err(WolframError::InvalidSymbol(t)) => !valid_name(name@) && t@ == name@,
                Err(_) => false,
            },
    {
        match WolframSymbol::system(name) {
            Ok(s) => {
                assert(s.namespace_text() =~= Seq::<char>::empty());
                Ok(WolframValue::Symbol(Box::new(s)))
            },
            Err(e) => Err(e),
        }
    }

    /// The symbol `name` of the context `Global`.
    pub fn global_symbol(name: &str) -> (r: Result<WolframValue, WolframError>)
        ensures
            match r {
                Ok(v) => valid_name(name@) && v@ == symbol_of("Global"@, name@),
                Err(WolframError::InvalidSymbol(t)) => !valid_name(name@) && t@ == name@,
                Err(_) => false,
            },
    {
        match WolframSymbol::global(name) {
            Ok(s) => Ok(WolframValue::Symbol(Box::new(s))),
            Err(e) => Err(e),
        }
    }

    /// The call of the system symbol `head` with the converted arguments.
    pub fn function<T: ToWolfram>(head: &str, args: Vec<T>) -> (r: Result<
        WolframValue,
        WolframError,
    >)
        ensures
            match r {
                Ok(v) => valid_name(head@) && v@ == call_of(
                    system_symbol_of(head@),
                    converted(args@),
                ),
                Err(WolframError::InvalidSymbol(t)) => !valid_name(head@) && t@ == head@,
                Err(_) => false,
            },
    {
        let rest = convert_all(&args);
        match WolframFunction::system(head, rest) {
            Ok(f) => Ok(f.into_value()),
            Err(e) => Err(e),
        }
    }

    /// The list of the converted items.
    pub fn list<T: ToWolfram>(items: Vec<T>) -> (r: WolframValue)
        ensures
            r@ == list_of(converted(items@)),
    {
        proof {
            reveal_strlit("List");
        }
        let rest = convert_all(&items);
        let head = WolframValue::system_known("List");
        (WolframFunction { head, rest }).into_value()
    }

    /// The rule that ties a key to a value: the call of the system symbol
    /// `Rule`, or of `RuleDelayed` where `delayed` is set.
    pub fn pair<K: ToWolfram, V: ToWolfram>(key: K, value: V, delayed: bool) -> (r: WolframValue)
        ensures
            r@ == call_of(
                system_symbol_of(
                    if delayed {
                        "RuleDelayed"@
                    } else {
                        "Rule"@
                    },
                ),
                seq![key.wolfram(), value.wolfram()],
            ),
    {
        proof {
            reveal_strlit("Rule");
            reveal_strlit("RuleDelayed");
        }
        let head = WolframValue::system_known(
            if delayed {
                "RuleDelayed"
            } else {
                "Rule"
            },
        );
        let mut rest: Vec<WolframValue> = Vec::new();
        rest.push(key.to_wolfram());
        rest.push(value.to_wolfram());
        assert(models(rest@) =~= seq![key.wolfram(), value.wolfram()]);
        (WolframFunction { head, rest }).into_value()
    }

    /// The association of the given pairs: where a key occurs more than
    /// once, its last pair stays.
    pub fn association(pairs: &Vec<WolframPair>) -> (r: WolframValue)
        ensures
            r@ == Expr::Association(canonical_of(entries_of(pairs@))),
    {
        let mut body = WolframAssociation::new();
        let mut i: usize = 0;
        proof {
            assert(entries_of(pairs@).subrange(0, 0) =~= Seq::<Entry>::empty());
            lemma_canonical_step(entries_of(pairs@).subrange(0, 0));
        }
        while i < pairs.len()
            invariant
                i <= pairs@.len(),
                body.entries() == canonical_of(entries_of(pairs@).subrange(0, i as int)),
            decreases pairs@.len() - i,
        {
            let p = &pairs[i];
            proof {
                let next = entries_of(pairs@).subrange(0, i + 1);
                assert(next.drop_last() =~= entries_of(pairs@).subrange(0, i as int));
                assert(next.last() == p@);
                lemma_canonical_step(next);
            }
            body = body.insert(p.key.duplicate(), p.rule, p.value.duplicate());
            i += 1;
        }
        assert(entries_of(pairs@).subrange(0, i as int) =~= entries_of(pairs@));
        WolframValue::Association(body)
    }

    /// Numeric arrays are reserved: the call always fails.
    pub fn numeric_array() -> (r: Result<WolframValue, WolframError>)
        ensures
            r == Err::<WolframValue, WolframError>(WolframError::NotImplemented),
    {
        Err(WolframError::NotImplemented)
    }

    /// Packed arrays are reserved: the call always fails.
    pub fn packed_array() -> (r: Result<WolframValue, WolframError>)
        ensures
            r == Err::<WolframValue, WolframError>(WolframError::NotImplemented),
    {
        Err(WolframError::NotImplemented)
    }
}

/// The call `DateObject[input]` of the system context, the input as a text.
pub fn date_object(input: &str) -> (r: WolframValue)
    ensures
        r@ == call_of(system_symbol_of("DateObject"@), seq![Expr::String(input@)]),
{
    proof {
        reveal_strlit("DateObject");
    }
    let head = WolframValue::system_known("DateObject");
    let mut rest: Vec<WolframValue> = Vec::new();
    rest.push(WolframValue::String(input.to_owned()));
    assert(models(rest@) =~= seq![Expr::String(input@)]);
    (WolframFunction { head, rest }).into_value()
}

} // verus!
