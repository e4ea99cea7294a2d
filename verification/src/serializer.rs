//! The object mapping protocol: how the shapes of structured data become
//! values, leaf by leaf and aggregate by aggregate.

use crate::associations::{WolframAssociation, WolframRule};
use crate::binary32::widened;
use crate::builders::{call_of, list_of, symbol_of};
use crate::canonical::placed;
use crate::error::WolframError;
use crate::model::{Entry, Expr};
use crate::numbers::{binary64_value, narrowed, system_symbol_of};
use crate::symbols::valid_name;
use crate::text::char_text;
use crate::value::{models, WolframFunction, WolframValue};
use vstd::prelude::*;
use vstd::string::StringExecFns;

verus! {

/// The entry point of the protocol.
#[derive(Copy, Clone, Debug, PartialEq, Eq, Hash)]
pub struct WolframSerializer {}

impl Default for WolframSerializer {
    fn default() -> (r: WolframSerializer) {
        WolframSerializer {  }
    }
}

/// A sequence or tuple in the making.
#[derive(Clone, Debug, PartialEq, Eq)]
pub struct SerializerAsList {
    /// The elements so far.
    pub body: Vec<WolframValue>,
    /// The serializer that began the aggregate.
    pub config: WolframSerializer,
}

/// A map in the making: the entries so far, and the key that waits for its
/// value.
#[derive(Clone, Debug, PartialEq, Eq)]
pub struct SerializerAsAssociation {
    /// The key of the entry that was begun; the no-value marker between
    /// entries.
    pub key: WolframValue,
    /// The entries so far.
    pub body: WolframAssociation,
    /// The serializer that began the aggregate.
    pub config: WolframSerializer,
}

/// A named tuple, record or variant in the making.
#[derive(Clone, Debug, PartialEq, Eq)]
pub struct SerializeAsFunction {
    /// The context of the head.
    pub name_space: String,
    /// The name of the head.
    pub name: String,
    /// The arguments so far.
    pub body: Vec<WolframValue>,
    /// The serializer that began the aggregate.
    pub config: WolframSerializer,
}

/// The named call that ends a named aggregate, or the error of a head that
/// is no valid symbol.
fn named_call(name_space: &str, name: &str, body: Vec<WolframValue>) -> (r: Result<
    WolframValue,
    WolframError,
>)
    ensures
        match r {
            Ok(v) => valid_name(name_space@) && valid_name(name@) && v@ == call_of(
                symbol_of(name_space@, name@),
                models(body@),
            ),
            Err(WolframError::InvalidSymbol(t)) => if valid_name(name_space@) {
                !valid_name(name@) && t@ == name@
            } else {
                t@ == name_space@
            },
            Err(_) => false,
        },
{
    match WolframFunction::namespace(name_space, name, body) {
        Ok(f) => Ok(f.into_value()),
        Err(e) => Err(e),
    }
}

impl WolframSerializer {
    /// A truth value becomes a `Boolean`.
    pub fn serialize_bool(&self, v: bool) -> (r: Result<WolframValue, WolframError>)
        ensures
            r is Ok,
            r->Ok_0@ == Expr::Boolean(v),
    {
        Ok(WolframValue::Boolean(v))
    }

    /// An integer becomes the smallest integer variant that holds it.
    pub fn serialize_i8(&self, v: i8) -> (r: Result<WolframValue, WolframError>)
        ensures
            r is Ok,
            r->Ok_0@ == narrowed(v as int),
    {
        Ok(WolframValue::narrow_signed(v as i128))
    }

    /// An integer becomes the smallest integer variant that holds it.
    pub fn serialize_i16(&self, v: i16) -> (r: Result<WolframValue, WolframError>)
        ensures
            r is Ok,
            r->Ok_0@ == narrowed(v as int),
    {
        Ok(WolframValue::narrow_signed(v as i128))
    }

    /// An integer becomes the smallest integer variant that holds it.
    pub fn serialize_i32(&self, v: i32) -> (r: Result<WolframValue, WolframError>)
        ensures
            r is Ok,
            r->Ok_0@ == narrowed(v as int),
    {
        Ok(WolframValue::narrow_signed(v as i128))
    }

    /// An integer becomes the smallest integer variant that holds it.
    pub fn serialize_i64(&self, v: i64) -> (r: Result<WolframValue, WolframError>)
        ensures
            r is Ok,
            r->Ok_0@ == narrowed(v as int),
    {
        Ok(WolframValue::narrow_signed(v as i128))
    }

    /// An integer becomes the smallest integer variant that holds it.
    pub fn serialize_i128(&self, v: i128) -> (r: Result<WolframValue, WolframError>)
        ensures
            r is Ok,
            r->Ok_0@ == narrowed(v as int),
    {
        Ok(WolframValue::narrow_signed(v))
    }

    /// An integer becomes the smallest integer variant that holds it.
    pub fn serialize_u8(&self, v: u8) -> (r: Result<WolframValue, WolframError>)
        ensures
            r is Ok,
            r->Ok_0@ == narrowed(v as int),
    {
        Ok(WolframValue::narrow_unsigned(v as u128))
    }

    /// An integer becomes the smallest integer variant that holds it.
    pub fn serialize_u16(&self, v: u16) -> (r: Result<WolframValue, WolframError>)
        ensures
            r is Ok,
            r->Ok_0@ == narrowed(v as int),
    {
        Ok(WolframValue::narrow_unsigned(v as u128))
    }

    /// An integer becomes the smallest integer variant that holds it.
    pub fn serialize_u32(&self, v: u32) -> (r: Result<WolframValue, WolframError>)
        ensures
            r is Ok,
            r->Ok_0@ == narrowed(v as int),
    {
        Ok(WolframValue::narrow_unsigned(v as u128))
    }

    /// An integer becomes the smallest integer variant that holds it.
    pub fn serialize_u64(&self, v: u64) -> (r: Result<WolframValue, WolframError>)
        ensures
            r is Ok,
            r->Ok_0@ == narrowed(v as int),
    {
        Ok(WolframValue::narrow_unsigned(v as u128))
    }

    /// An integer becomes the smallest integer variant that holds it.
    pub fn serialize_u128(&self, v: u128) -> (r: Result<WolframValue, WolframError>)
        ensures
            r is Ok,
            r->Ok_0@ == narrowed(v as int),
    {
        Ok(WolframValue::narrow_unsigned(v))
    }

    /// A binary32 number, given by its bits, becomes what the binary64
    /// number of the same value becomes.
    pub fn serialize_f32(&self, bits: u32) -> (r: Result<WolframValue, WolframError>)
        ensures
            r is Ok,
            r->Ok_0@ == binary64_value(widened(bits)),
    {
        Ok(WolframValue::from_binary32(bits))
    }

    /// A binary64 number, given by its bits, becomes what `binary64_value`
    /// says: a symbol for an infinity or a not-a-number, else its bytes.
    pub fn serialize_f64(&self, bits: u64) -> (r: Result<WolframValue, WolframError>)
        ensures
            r is Ok,
            r->Ok_0@ == binary64_value(bits),
    {
        Ok(WolframValue::from_binary64(bits))
    }

    /// A character becomes the text of that one character.
    pub fn serialize_char(&self, v: char) -> (r: Result<WolframValue, WolframError>)
        ensures
            r is Ok,
            r->Ok_0@ == Expr::String(seq![v]),
    {
        Ok(WolframValue::String(char_text(v)))
    }

    /// A text becomes a `String`.
    pub fn serialize_str(&self, v: &str) -> (r: Result<WolframValue, WolframError>)
        ensures
            r is Ok,
            r->Ok_0@ == Expr::String(v@),
    {
        Ok(WolframValue::String(v.to_owned()))
    }

    /// Bytes become a `Bytes`.
    pub fn serialize_bytes(&self, v: &[u8]) -> (r: Result<WolframValue, WolframError>)
        ensures
            r is Ok,
            r->Ok_0@ == Expr::Bytes(v@),
    {
        let mut bytes: Vec<u8> = Vec::new();
        crate::text::push_bytes(&mut bytes, v);
        assert(bytes@ =~= v@);
        Ok(WolframValue::Bytes(bytes))
    }

    /// An absent optional becomes the system symbol `None`.
    pub fn serialize_none(&self) -> (r: Result<WolframValue, WolframError>)
        ensures
            r is Ok,
            r->Ok_0@ == system_symbol_of("None"@),
    {
        proof {
            reveal_strlit("None");
        }
        Ok(WolframValue::system_known("None"))
    }

    /// A present optional becomes the value it wraps.
    pub fn serialize_some(&self, value: WolframValue) -> (r: Result<WolframValue, WolframError>)
        ensures
            r == Ok::<WolframValue, WolframError>(value),
    {
        Ok(value)
    }

    /// The unit becomes the system symbol `Null`.
    pub fn serialize_unit(&self) -> (r: Result<WolframValue, WolframError>)
        ensures
            r is Ok,
            r->Ok_0@ == system_symbol_of("Null"@),
    {
        proof {
            reveal_strlit("Null");
        }
        Ok(WolframValue::system_known("Null"))
    }

    /// A named unit type becomes the call of the `Global` symbol of its name
    /// without arguments.
    pub fn serialize_unit_struct(&self, name: &str) -> (r: Result<WolframValue, WolframError>)
        ensures
            match r {
                Ok(v) => valid_name(name@) && v@ == call_of(
                    symbol_of("Global"@, name@),
                    Seq::empty(),
                ),
                Err(WolframError::InvalidSymbol(t)) => !valid_name(name@) && t@ == name@,
                Err(_) => false,
            },
    {
        proof {
            reveal_strlit("Global");
        }
        let body: Vec<WolframValue> = Vec::new();
        assert(models(body@) =~= Seq::empty());
        named_call("Global", name, body)
    }

    /// A unit variant becomes the call of the symbol `variant` of the
    /// context `name`, without arguments.
    pub fn serialize_unit_variant(&self, name: &str, index: u32, variant: &str) -> (r: Result<
        WolframValue,
        WolframError,
    >)
        ensures
            match r {
                Ok(v) => valid_name(name@) && valid_name(variant@) && v@ == call_of(
                    symbol_of(name@, variant@),
                    Seq::empty(),
                ),
                Err(WolframError::InvalidSymbol(t)) => if valid_name(name@) {
                    !valid_name(variant@) && t@ == variant@
                } else {
                    t@ == name@
                },
                Err(_) => false,
            },
    {
        let body: Vec<WolframValue> = Vec::new();
        assert(models(body@) =~= Seq::empty());
        named_call(name, variant, body)
    }

    /// A named wrapper of one value becomes the call of the `Global` symbol
    /// of its name with that value.
    pub fn serialize_newtype_struct(&self, name: &str, value: WolframValue) -> (r: Result<
        WolframValue,
        WolframError,
    >)
        ensures
            match r {
                Ok(v) => valid_name(name@) && v@ == call_of(
                    symbol_of("Global"@, name@),
                    seq![value@],
                ),
                Err(WolframError::InvalidSymbol(t)) => !valid_name(name@) && t@ == name@,
                Err(_) => false,
            },
    {
        proof {
            reveal_strlit("Global");
        }
        let mut body: Vec<WolframValue> = Vec::new();
        body.push(value);
        assert(models(body@) =~= seq![value@]);
        named_call("Global", name, body)
    }

    /// A variant that wraps one value becomes the call of the symbol
    /// `variant` of the context `name` with that value.
    pub fn serialize_newtype_variant(
        &self,
        name: &str,
        index: u32,
        variant: &str,
        value: WolframValue,
    ) -> (r: Result<WolframValue, WolframError>)
        ensures
            match r {
                Ok(v) => valid_name(name@) && valid_name(variant@) && v@ == call_of(
                    symbol_of(name@, variant@),
                    seq![value@],
                ),
                Err(WolframError::InvalidSymbol(t)) => if valid_name(name@) {
                    !valid_name(variant@) && t@ == variant@
                } else {
                    t@ == name@
                },
                Err(_) => false,
            },
    {
        let mut body: Vec<WolframValue> = Vec::new();
        body.push(value);
        assert(models(body@) =~= seq![value@]);
        named_call(name, variant, body)
    }

    /// Begins a sequence: the builder holds no element yet. The length is a
    /// hint that the result does not depend on.
    pub fn serialize_seq(&self, len: Option<usize>) -> (r: Result<SerializerAsList, WolframError>)
        ensures
            r is Ok,
            r->Ok_0.body@ == Seq::<WolframValue>::empty(),
            r->Ok_0.config == *self,
    {
        Ok(SerializerAsList { body: Vec::new(), config: *self })
    }

    /// Begins a tuple: the builder holds no element yet. The length is a
    /// hint that the result does not depend on.
    pub fn serialize_tuple(&self, len: usize) -> (r: Result<SerializerAsList, WolframError>)
        ensures
            r is Ok,
            r->Ok_0.body@ == Seq::<WolframValue>::empty(),
            r->Ok_0.config == *self,
    {
        Ok(SerializerAsList { body: Vec::new(), config: *self })
    }

    /// Begins a named tuple, whose head is the `Global` symbol of its name.
    pub fn serialize_tuple_struct(&self, name: &str, len: usize) -> (r: Result<
        SerializeAsFunction,
        WolframError,
    >)
        ensures
            r is Ok,
            r->Ok_0.name_space@ == "Global"@,
            r->Ok_0.name@ == name@,
            r->Ok_0.body@ == Seq::<WolframValue>::empty(),
            r->Ok_0.config == *self,
    {
        Ok(
            SerializeAsFunction {
                name_space: String::from_str("Global"),
                name: String::from_str(name),
                body: Vec::new(),
                config: *self,
            },
        )
    }

    /// Begins a tuple variant, whose head is the symbol `variant` of the
    /// context `name`.
    pub fn serialize_tuple_variant(&self, name: &str, index: u32, variant: &str, len: usize) -> (r:
        Result<SerializeAsFunction, WolframError>)
        ensures
            r is Ok,
            r->Ok_0.name_space@ == name@,
            r->Ok_0.name@ == variant@,
            r->Ok_0.body@ == Seq::<WolframValue>::empty(),
            r->Ok_0.config == *self,
    {
        Ok(
            SerializeAsFunction {
                name_space: String::from_str(name),
                name: String::from_str(variant),
                body: Vec::new(),
                config: *self,
            },
        )
    }

    /// Begins a map: the builder holds no entry and no waiting key. The
    /// length is a hint that the result does not depend on.
    pub fn serialize_map(&self, len: Option<usize>) -> (r: Result<
        SerializerAsAssociation,
        WolframError,
    >)
        ensures
            r is Ok,
            r->Ok_0.key@ == Expr::Skip,
            r->Ok_0.body.entries() == Seq::<Entry>::empty(),
            r->Ok_0.config == *self,
    {
        Ok(
            SerializerAsAssociation {
                key: WolframValue::Skip,
                body: WolframAssociation::new(),
                config: *self,
            },
        )
    }

    /// Begins a record, whose head is the `Global` symbol of its name.
    pub fn serialize_struct(&self, name: &str, len: usize) -> (r: Result<
        SerializeAsFunction,
        WolframError,
    >)
        ensures
            r is Ok,
            r->Ok_0.name_space@ == "Global"@,
            r->Ok_0.name@ == name@,
            r->Ok_0.body@ == Seq::<WolframValue>::empty(),
            r->Ok_0.config == *self,
    {
        self.serialize_tuple_struct(name, len)
    }

    /// Begins a record variant, whose head is the symbol `variant` of the
    /// context `name`.
    pub fn serialize_struct_variant(&self, name: &str, index: u32, variant: &str, len: usize) -> (r:
        Result<SerializeAsFunction, WolframError>)
        ensures
            r is Ok,
            r->Ok_0.name_space@ == name@,
            r->Ok_0.name@ == variant@,
            r->Ok_0.body@ == Seq::<WolframValue>::empty(),
            r->Ok_0.config == *self,
    {
        self.serialize_tuple_variant(name, index, variant, len)
    }

    /// The protocol makes values, not text.
    pub fn is_human_readable(&self) -> (r: bool)
        ensures
            !r,
    {
        false
    }
}

impl SerializerAsList {
    /// Adds an element at the end.
    pub fn serialize_element(&mut self, value: WolframValue) -> (r: Result<(), WolframError>)
        ensures
            r is Ok,
            final(self).body@ == old(self).body@.push(value),
            final(self).config == old(self).config,
    {
        self.body.push(value);
        Ok(())
    }

    /// Ends the aggregate: the list of the elements, in order.
    pub fn end(self) -> (r: Result<WolframValue, WolframError>)
        ensures
            r is Ok,
            r->Ok_0@ == list_of(models(self.body@)),
    {
        proof {
            reveal_strlit("List");
        }
        let head = WolframValue::system_known("List");
        Ok((WolframFunction { head, rest: self.body }).into_value())
    }
}

impl SerializerAsAssociation {
    /// Keeps the key of the entry that begins.
    pub fn serialize_key(&mut self, key: WolframValue) -> (r: Result<(), WolframError>)
        ensures
            r is Ok,
            final(self).key == key,
            final(self).body == old(self).body,
            final(self).config == old(self).config,
    {
        self.key = key;
        Ok(())
    }

    /// Ties the kept key to the value by `Rule`, and keeps the no-value
    /// marker in its place.
    pub fn serialize_value(&mut self, value: WolframValue) -> (r: Result<(), WolframError>)
        ensures
            r is Ok,
            final(self).key@ == Expr::Skip,
            final(self).body.entries() == placed(
                old(self).body.entries(),
                Entry { key: old(self).key@, rule: WolframRule::Rule, value: value@ },
            ),
            final(self).config == old(self).config,
    {
        let mut key = WolframValue::Skip;
        core::mem::swap(&mut self.key, &mut key);
        let mut body = WolframAssociation::new();
        core::mem::swap(&mut self.body, &mut body);
        self.body = body.insert(key, WolframRule::Rule, value);
        Ok(())
    }

    /// Ends the aggregate: the association of the entries.
    pub fn end(self) -> (r: Result<WolframValue, WolframError>)
        ensures
            r is Ok,
            r->Ok_0@ == Expr::Association(self.body.entries()),
    {
        Ok(WolframValue::Association(self.body))
    }
}

impl SerializeAsFunction {
    /// Adds the value of an unnamed field at the end.
    pub fn serialize_field(&mut self, value: WolframValue) -> (r: Result<(), WolframError>)
        ensures
            r is Ok,
            final(self).body@ == old(self).body@.push(value),
            final(self).name_space == old(self).name_space,
            final(self).name == old(self).name,
            final(self).config == old(self).config,
    {
        self.body.push(value);
        Ok(())
    }

    /// Adds a named field at the end, as the rule from the name, a text, to
    /// the value.
    pub fn serialize_named_field(&mut self, key: &str, value: WolframValue) -> (r: Result<
        (),
        WolframError,
    >)
        ensures
            r is Ok,
            models(final(self).body@) == models(old(self).body@).push(
                call_of(system_symbol_of("Rule"@), seq![Expr::String(key@), value@]),
            ),
            final(self).name_space == old(self).name_space,
            final(self).name == old(self).name,
            final(self).config == old(self).config,
    {
        let pair = WolframValue::pair(WolframValue::String(key.to_owned()), value, false);
        self.body.push(pair);
        assert(models(self.body@) =~= models(old(self).body@).push(pair@));
        Ok(())
    }

    /// Ends the aggregate: the call of the head with the fields, in order.
    /// Fails with `InvalidSymbol` where the context or the name is no valid
    /// symbol.
    pub fn end(self) -> (r: Result<WolframValue, WolframError>)
        ensures
            match r {
                Ok(v) => valid_name(self.name_space@) && valid_name(self.name@) && v@ == call_of(
                    symbol_of(self.name_space@, self.name@),
                    models(self.body@),
                ),
                Err(WolframError::InvalidSymbol(t)) => if valid_name(self.name_space@) {
                    !valid_name(self.name@) && t@ == self.name@
                } else {
                    t@ == self.name_space@
                },
                Err(_) => false,
            },
    {
        named_call(self.name_space.as_str(), self.name.as_str(), self.body)
    }
}

} // verus!
