//! Generic document values, as the parsers of JSON, YAML, TOML and pickle
//! data give them, and their conversion into the value model.

use crate::associations::{WolframAssociation, WolframRule};
use crate::builders::{call_of, date_object, list_of};
use crate::canonical::{canonical_of, lemma_canonical_step};
use crate::integers::BigInteger;
use crate::model::{Entry, Expr};
use crate::numbers::{binary64_value, narrowed, system_symbol_of};
use crate::traits::ToWolfram;
use crate::value::{models, WolframFunction, WolframValue};
use vstd::prelude::*;

verus! {

/// A value of a parsed document.
#[derive(Debug, PartialEq, Eq)]
pub enum Document {
    /// The absent value of the format.
    Null,
    /// A value that the parser could not make sense of.
    Bad,
    /// A truth value.
    Boolean(bool),
    /// A signed integer.
    Integer(i64),
    /// An unsigned integer.
    Unsigned(u64),
    /// An integer of any size.
    Big(BigInteger),
    /// A binary64 number, by its bits.
    Decimal(u64),
    /// A text.
    Text(String),
    /// A binary payload.
    Bytes(Vec<u8>),
    /// A date or time, in the text of the format.
    Date(String),
    /// An array, tuple or set.
    List(Vec<Document>),
    /// An object, table or dictionary, its entries in source order.
    Table(Vec<DocumentEntry>),
}

/// One entry of a table.
#[derive(Debug, PartialEq, Eq)]
pub struct DocumentEntry {
    /// The key.
    pub key: Document,
    /// The value.
    pub value: Document,
}

/// The entries that the entries of a table become, in source order.
pub open spec fn table_entries(entries: Seq<DocumentEntry>) -> Seq<Entry>
    decreases entries,
{
    Seq::new(
        entries.len(),
        |i: int|
            if 0 <= i < entries.len() {
                Entry {
                    key: entries[i].key.value(),
                    rule: WolframRule::Rule,
                    value: entries[i].value.value(),
                }
            } else {
                arbitrary()
            },
    )
}

/// The values that the items of a list become, in order.
pub open spec fn item_values(items: Seq<Document>) -> Seq<Expr> {
    Seq::new(items.len(), |i: int| items[i].value())
}

/// A list becomes the list of the values of its items.
pub proof fn lemma_list_value(d: Document)
    requires
        d is List,
    ensures
        d.value() == list_of(item_values(d->List_0@)),
{
    assert(d.value()->args =~= item_values(d->List_0@));
}

/// The system symbol `None`, or `Null` where `null` is set.
fn named_symbol(null: bool) -> (r: WolframValue)
    ensures
        r@ == system_symbol_of(
            if null {
                "Null"@
            } else {
                "None"@
            },
        ),
{
    proof {
        reveal_strlit("None");
        reveal_strlit("Null");
    }
    WolframValue::system_known(
        if null {
            "Null"
        } else {
            "None"
        },
    )
}

/// The list of the given values.
fn list_value(rest: Vec<WolframValue>) -> (r: WolframValue)
    ensures
        r@ == list_of(models(rest@)),
{
    proof {
        reveal_strlit("List");
    }
    let head = WolframValue::system_known("List");
    (WolframFunction { head, rest }).into_value()
}

impl Document {
    /// The value that a document becomes: the absent value the symbol
    /// `None`, a bad value the symbol `Null`, a number per the numeric rules,
    /// a date a `DateObject`, a list a `List`, a table the association of
    /// its entries under `Rule`, a later entry replacing an earlier one with
    /// the same key.
    pub open spec fn value(&self) -> Expr
        decreases self,
    {
        match self {
            Document::Null => system_symbol_of("None"@),
            Document::Bad => system_symbol_of("Null"@),
            Document::Boolean(b) => Expr::Boolean(*b),
            Document::Integer(v) => narrowed(*v as int),
            Document::Unsigned(v) => narrowed(*v as int),
            Document::Big(b) => Expr::BigInteger(b.value()),
            Document::Decimal(bits) => binary64_value(*bits),
            Document::Text(s) => Expr::String(s@),
            Document::Bytes(b) => Expr::Bytes(b@),
            Document::Date(s) => call_of(system_symbol_of("DateObject"@), seq![Expr::String(s@)]),
            Document::List(items) => list_of(
                Seq::new(
                    items@.len(),
                    |i: int|
                        if 0 <= i < items@.len() {
                            items@[i].value()
                        } else {
                            Expr::Skip
                        },
                ),
            ),
            Document::Table(entries) => Expr::Association(canonical_of(table_entries(entries@))),
        }
    }

    /// The document of a number that a parser offers in up to three forms:
    /// the unsigned form is taken where there is one, else the signed, else
    /// the binary64 bits, and zero where there is none.
    pub fn number(unsigned: Option<u64>, signed: Option<i64>, bits: Option<u64>) -> (r: Document)
        ensures
            r == match (unsigned, signed, bits) {
                (Some(u), _, _) => Document::Unsigned(u),
                (None, Some(i), _) => Document::Integer(i),
                (None, None, Some(b)) => Document::Decimal(b),
                (None, None, None) => Document::Decimal(0),
            },
    {
        match unsigned {
            Some(u) => Document::Unsigned(u),
            None => match signed {
                Some(i) => Document::Integer(i),
                None => match bits {
                    Some(b) => Document::Decimal(b),
                    None => Document::Decimal(0),
                },
            },
        }
    }

    /// Converts the items of a list, in order.
    fn convert_items(items: &Vec<Document>) -> (r: Vec<WolframValue>)
        ensures
            r@.len() == items@.len(),
            forall|i: int| 0 <= i < items@.len() ==> (#[trigger] r@[i])@ == items@[i].value(),
        decreases items,
    {
        let mut r: Vec<WolframValue> = Vec::new();
        let mut i: usize = 0;
        while i < items.len()
            invariant
                i <= items@.len(),
                r@.len() == i,
                forall|j: int| 0 <= j < i ==> (#[trigger] r@[j])@ == items@[j].value(),
            decreases items@.len() - i,
        {
            r.push(items[i].convert());
            i += 1;
        }
        r
    }

    /// Converts the document into a value.
    pub fn convert(&self) -> (r: WolframValue)
        ensures
            r@ == self.value(),
        decreases self,
    {
        match self {
            Document::Null => named_symbol(false),
            Document::Bad => named_symbol(true),
            Document::Boolean(b) => WolframValue::Boolean(*b),
            Document::Integer(v) => WolframValue::narrow_signed(*v as i128),
            Document::Unsigned(v) => WolframValue::narrow_unsigned(*v as u128),
            Document::Big(b) => WolframValue::BigInteger(b.clone()),
            Document::Decimal(bits) => WolframValue::from_binary64(*bits),
            Document::Text(s) => WolframValue::String(s.clone()),
            Document::Bytes(b) => WolframValue::Bytes(b.clone()),
            Document::Date(s) => date_object(s.as_str()),
            Document::List(items) => {
                let rest = Self::convert_items(items);
                proof {
                    lemma_list_value(*self);
                    assert(models(rest@) =~= item_values(items@));
                }
                list_value(rest)
            },
            Document::Table(entries) => {
                let body = Self::convert_table(entries);
                WolframValue::Association(body)
            },
        }
    }

    /// Converts the entries of a table, a later entry replacing an earlier
    /// one with the same key.
    fn convert_table(entries: &Vec<DocumentEntry>) -> (r: WolframAssociation)
        ensures
            r.entries() == canonical_of(table_entries(entries@)),
        decreases entries,
    {
        let ghost list = table_entries(entries@);
        let mut body = WolframAssociation::new();
        let mut i: usize = 0;
        proof {
            assert(list.subrange(0, 0) =~= Seq::<Entry>::empty());
            lemma_canonical_step(list.subrange(0, 0));
        }
        while i < entries.len()
            invariant
                i <= entries@.len(),
                list == table_entries(entries@),
                body.entries() == canonical_of(list.subrange(0, i as int)),
            decreases entries@.len() - i,
        {
            let e = &entries[i];
            proof {
                let next = list.subrange(0, i + 1);
                assert(next.drop_last() =~= list.subrange(0, i as int));
                assert(next.last() == list[i as int]);
                lemma_canonical_step(next);
            }
            let key = e.key.convert();
            let value = e.value.convert();
            body = body.insert(key, WolframRule::Rule, value);
            i += 1;
        }
        assert(list.subrange(0, i as int) =~= list);
        body
    }

    /// The value of the documents of one source: the symbol `None` where
    /// there is no document, the document itself where there is one, and the
    /// list of the documents where there are more.
    pub fn convert_all(documents: &Vec<Document>) -> (r: WolframValue)
        ensures
            r@ == if documents@.len() == 0 {
                system_symbol_of("None"@)
            } else if documents@.len() == 1 {
                documents@[0].value()
            } else {
                list_of(item_values(documents@))
            },
    {
        if documents.len() == 0 {
            named_symbol(false)
        } else if documents.len() == 1 {
            documents[0].convert()
        } else {
            let rest = Self::convert_items(documents);
            assert(models(rest@) =~= item_values(documents@));
            list_value(rest)
        }
    }
}

impl ToWolfram for Document {
    open spec fn wolfram(&self) -> Expr {
        self.value()
    }

    fn to_wolfram(&self) -> (v: WolframValue) {
        self.convert()
    }
}

} // verus!
