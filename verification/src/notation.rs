//! The textual notation of values: Wolfram input syntax.

use crate::integers::decimal_text;
use crate::model::{Entry, Expr};
use crate::symbols::qualified_name;
use vstd::prelude::*;

verus! {

/// The text of one binary64 number: its bit pattern, least significant byte
/// first, and the shortest decimal text that reads back as that number.
#[derive(Clone, Debug, PartialEq, Eq)]
pub struct DecimalText {
    /// The eight bytes of the number.
    pub pattern: [u8; 8],
    /// The decimal text of the number.
    pub text: String,
}

impl View for DecimalText {
    type V = (Seq<u8>, Seq<char>);

    open spec fn view(&self) -> (Seq<u8>, Seq<char>) {
        (self.pattern@, self.text@)
    }
}

/// The table that a list of decimal texts stands for.
pub open spec fn decimal_table(decimals: Seq<DecimalText>) -> Seq<(Seq<u8>, Seq<char>)> {
    Seq::new(decimals.len(), |i: int| decimals[i]@)
}

/// The text that a table gives for a bit pattern: that of the first entry
/// with the pattern.
pub open spec fn decimal_lookup(table: Seq<(Seq<u8>, Seq<char>)>, pattern: Seq<u8>) -> Option<
    Seq<char>,
>
    decreases table.len(),
{
    if table.len() == 0 {
        None
    } else if table[0].0 == pattern {
        Some(table[0].1)
    } else {
        decimal_lookup(table.drop_first(), pattern)
    }
}

/// The quoted and escaped form of a text, as the standard library's `Debug`
/// formatting of `str` writes it.
pub uninterp spec fn quoted(s: Seq<char>) -> Seq<char>;

/// Calls the standard library's `Debug` formatting of `str`, which puts the
/// text between double quotes and escapes what cannot stand there as it is.
/// The contract only names the result.
#[verifier::external_body]
pub(crate) fn quote_text(s: &str) -> (r: String)
    ensures
        r@ == quoted(s@),
{
    format!("{:?}", s)
}

/// Tells whether a value holds a reserved array.
pub open spec fn has_reserved(e: Expr) -> bool
    decreases e,
{
    match e {
        Expr::Function { head, args } => has_reserved(*head) || exists|i: int|
            0 <= i < args.len() && has_reserved(#[trigger] args[i]),
        Expr::PackedArray(_) => true,
        Expr::NumericArray(_) => true,
        Expr::Association(entries) => exists|i: int|
            0 <= i < entries.len() && (has_reserved((#[trigger] entries[i]).key) || has_reserved(
                entries[i].value,
            )),
        _ => false,
    }
}

/// Tells whether the table gives a text for each binary64 number of a value.
pub open spec fn decimals_known(e: Expr, table: Seq<(Seq<u8>, Seq<char>)>) -> bool
    decreases e,
{
    match e {
        Expr::Function { head, args } => decimals_known(*head, table) && forall|i: int|
            0 <= i < args.len() ==> decimals_known(#[trigger] args[i], table),
        Expr::Decimal64(d) => decimal_lookup(table, d) is Some,
        Expr::PackedArray(items) => forall|i: int|
            0 <= i < items.len() ==> decimals_known(#[trigger] items[i], table),
        Expr::NumericArray(items) => forall|i: int|
            0 <= i < items.len() ==> decimals_known(#[trigger] items[i], table),
        Expr::Association(entries) => forall|i: int|
            0 <= i < entries.len() ==> decimals_known((#[trigger] entries[i]).key, table)
                && decimals_known(entries[i].value, table),
        _ => true,
    }
}

/// What holds of a call holds of its head and of each of its arguments.
pub proof fn lemma_call_parts(head: Expr, args: Seq<Expr>, table: Seq<(Seq<u8>, Seq<char>)>)
    ensures
        !has_reserved(Expr::Function { head: Box::new(head), args }) ==> !has_reserved(head)
            && forall|i: int| 0 <= i < args.len() ==> !has_reserved(#[trigger] args[i]),
        decimals_known(Expr::Function { head: Box::new(head), args }, table) ==> decimals_known(
            head,
            table,
        ) && forall|i: int| 0 <= i < args.len() ==> decimals_known(#[trigger] args[i], table),
{
    let call = Expr::Function { head: Box::new(head), args };
    assert(call->args == args);
    assert(*call->head == head);
}

/// Tells whether a head is a symbol named `List`, whatever its namespace.
pub open spec fn is_list_head(head: Expr) -> bool {
    head is Symbol && head->name == "List"@
}

/// The text of a relation.
pub open spec fn rule_text(delayed: bool) -> Seq<char> {
    if delayed {
        ":>"@
    } else {
        "->"@
    }
}

/// The text of a value: a call of a symbol named `List` in braces, any
/// other call as head and bracketed arguments, a text quoted, bytes as `ByteArray`, a symbol under
/// its full name, an integer in decimal, a binary64 number as its decimal
/// text and a backtick, an association between `<|` and `|>`.
pub open spec fn notation(e: Expr, table: Seq<(Seq<u8>, Seq<char>)>) -> Seq<char>
    decreases e,
{
    match e {
        Expr::Skip => Seq::empty(),
        Expr::Function { head, args } => if is_list_head(*head) {
            "{"@ + notation_list(args, table) + "}"@
        } else {
            notation(*head, table) + "["@ + notation_list(args, table) + "]"@
        },
        Expr::Boolean(b) => if b {
            "True"@
        } else {
            "False"@
        },
        Expr::String(s) => quoted(s),
        Expr::Bytes(b) => "ByteArray[{"@ + byte_list(b) + "}]"@,
        Expr::Symbol { namespace, name } => qualified_name(namespace, name),
        Expr::Integer8(n) => decimal_text(n as int),
        Expr::Integer16(n) => decimal_text(n as int),
        Expr::Integer32(n) => decimal_text(n as int),
        Expr::Integer64(n) => decimal_text(n as int),
        Expr::BigInteger(v) => decimal_text(v),
        Expr::Decimal64(d) => match decimal_lookup(table, d) {
            Some(t) => t + "`"@,
            None => Seq::empty(),
        },
        Expr::BigDecimal(s) => s,
        Expr::PackedArray(_) => Seq::empty(),
        Expr::NumericArray(_) => Seq::empty(),
        Expr::Association(entries) => "<|"@ + notation_entries(entries, table) + "|>"@,
        Expr::Rule => rule_text(false),
        Expr::RuleDelayed => rule_text(true),
    }
}

/// The texts of the values of a list, parted by commas.
pub open spec fn notation_list(list: Seq<Expr>, table: Seq<(Seq<u8>, Seq<char>)>) -> Seq<char>
    decreases list,
{
    if list.len() == 0 {
        Seq::empty()
    } else if list.len() == 1 {
        notation(list[0], table)
    } else {
        notation_list(list.drop_last(), table) + ","@ + notation(list.last(), table)
    }
}

/// The text of an entry: key, relation, value.
pub open spec fn notation_entry(entry: Entry, table: Seq<(Seq<u8>, Seq<char>)>) -> Seq<char>
    decreases entry,
{
    notation(entry.key, table) + rule_text(entry.rule is RuleDelayed) + notation(
        entry.value,
        table,
    )
}

/// The texts of the entries of an association, parted by commas.
pub open spec fn notation_entries(entries: Seq<Entry>, table: Seq<(Seq<u8>, Seq<char>)>) -> Seq<
    char,
>
    decreases entries,
{
    if entries.len() == 0 {
        Seq::empty()
    } else if entries.len() == 1 {
        notation_entry(entries[0], table)
    } else {
        notation_entries(entries.drop_last(), table) + ","@ + notation_entry(
            entries.last(),
            table,
        )
    }
}

/// The decimal texts of bytes, parted by commas.
pub open spec fn byte_list(bytes: Seq<u8>) -> Seq<char>
    decreases bytes.len(),
{
    if bytes.len() == 0 {
        Seq::empty()
    } else if bytes.len() == 1 {
        decimal_text(bytes[0] as int)
    } else {
        byte_list(bytes.drop_last()) + ","@ + decimal_text(bytes.last() as int)
    }
}

/// The bit patterns of the binary64 numbers of a value, in the order in
/// which the value holds them.
pub open spec fn decimal_leaves(e: Expr) -> Seq<Seq<u8>>
    decreases e,
{
    match e {
        Expr::Function { head, args } => decimal_leaves(*head) + decimal_leaves_list(args),
        Expr::Decimal64(d) => seq![d],
        Expr::PackedArray(items) => decimal_leaves_list(items),
        Expr::NumericArray(items) => decimal_leaves_list(items),
        Expr::Association(entries) => decimal_leaves_entries(entries),
        _ => Seq::empty(),
    }
}

/// The bit patterns of the binary64 numbers of the values of a list.
pub open spec fn decimal_leaves_list(list: Seq<Expr>) -> Seq<Seq<u8>>
    decreases list,
{
    if list.len() == 0 {
        Seq::empty()
    } else {
        decimal_leaves_list(list.drop_last()) + decimal_leaves(list.last())
    }
}

/// The bit patterns of the binary64 numbers of the entries of an
/// association.
pub open spec fn decimal_leaves_entries(entries: Seq<Entry>) -> Seq<Seq<u8>>
    decreases entries,
{
    if entries.len() == 0 {
        Seq::empty()
    } else {
        decimal_leaves_entries(entries.drop_last()) + decimal_leaves(entries.last().key)
            + decimal_leaves(entries.last().value)
    }
}

/// Tells whether a table gives a text for each of the patterns.
pub open spec fn covers(table: Seq<(Seq<u8>, Seq<char>)>, patterns: Seq<Seq<u8>>) -> bool {
    forall|i: int| 0 <= i < patterns.len() ==> decimal_lookup(table, #[trigger] patterns[i]) is Some
}

proof fn lemma_covers_parts(table: Seq<(Seq<u8>, Seq<char>)>, a: Seq<Seq<u8>>, b: Seq<Seq<u8>>)
    requires
        covers(table, a + b),
    ensures
        covers(table, a),
        covers(table, b),
{
    assert forall|i: int| 0 <= i < a.len() implies decimal_lookup(table, #[trigger] a[i]) is Some by {
        assert((a + b)[i] == a[i]);
    }
    assert forall|i: int| 0 <= i < b.len() implies decimal_lookup(table, #[trigger] b[i]) is Some by {
        assert((a + b)[a.len() + i] == b[i]);
    }
}

/// A table that gives a text for each binary64 pattern of a value covers
/// the value.
pub proof fn lemma_leaves_cover(e: Expr, table: Seq<(Seq<u8>, Seq<char>)>)
    requires
        covers(table, decimal_leaves(e)),
    ensures
        decimals_known(e, table),
    decreases e,
{
    match e {
        Expr::Function { head, args } => {
            lemma_covers_parts(table, decimal_leaves(*head), decimal_leaves_list(args));
            lemma_leaves_cover(*head, table);
            lemma_leaves_cover_list(args, table);
        },
        Expr::Decimal64(d) => {
            assert(decimal_leaves(e)[0] == d);
        },
        Expr::PackedArray(items) => lemma_leaves_cover_list(items, table),
        Expr::NumericArray(items) => lemma_leaves_cover_list(items, table),
        Expr::Association(entries) => lemma_leaves_cover_entries(entries, table),
        _ => {},
    }
}

proof fn lemma_leaves_cover_list(list: Seq<Expr>, table: Seq<(Seq<u8>, Seq<char>)>)
    requires
        covers(table, decimal_leaves_list(list)),
    ensures
        forall|i: int| 0 <= i < list.len() ==> decimals_known(#[trigger] list[i], table),
    decreases list,
{
    if list.len() > 0 {
        let init = list.drop_last();
        lemma_covers_parts(table, decimal_leaves_list(init), decimal_leaves(list.last()));
        lemma_leaves_cover_list(init, table);
        lemma_leaves_cover(list.last(), table);
        assert forall|i: int| 0 <= i < list.len() implies decimals_known(
            #[trigger] list[i],
            table,
        ) by {
            if i < init.len() {
                assert(init[i] == list[i]);
            }
        }
    }
}

proof fn lemma_leaves_cover_entries(entries: Seq<Entry>, table: Seq<(Seq<u8>, Seq<char>)>)
    requires
        covers(table, decimal_leaves_entries(entries)),
    ensures
        forall|i: int|
            0 <= i < entries.len() ==> decimals_known((#[trigger] entries[i]).key, table)
                && decimals_known(entries[i].value, table),
    decreases entries,
{
    if entries.len() > 0 {
        let init = entries.drop_last();
        let last = entries.last();
        lemma_covers_parts(
            table,
            decimal_leaves_entries(init) + decimal_leaves(last.key),
            decimal_leaves(last.value),
        );
        lemma_covers_parts(table, decimal_leaves_entries(init), decimal_leaves(last.key));
        lemma_leaves_cover_entries(init, table);
        lemma_leaves_cover(last.key, table);
        lemma_leaves_cover(last.value, table);
        assert forall|i: int| 0 <= i < entries.len() implies decimals_known(
            (#[trigger] entries[i]).key,
            table,
        ) && decimals_known(entries[i].value, table) by {
            if i < init.len() {
                assert(init[i] == entries[i]);
            }
        }
    }
}

} // verus!
