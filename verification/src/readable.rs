//! The textual encoder: a buffer that values are written to in Wolfram
//! input syntax.

use crate::associations::{WolframAssociation, WolframRule};
use crate::error::WolframError;
use crate::integers::{ascii_text, decimal_ascii, decimal_text, BigInteger};
use crate::model::{Entry, Expr};
use crate::notation::{
    byte_list, decimal_leaves, decimal_leaves_entries, decimal_leaves_list, decimal_lookup,
    decimal_table, decimals_known, has_reserved, is_list_head,
    lemma_call_parts, notation, notation_entries, notation_entry, notation_list, quote_text, rule_text, DecimalText,
};
use crate::text::{same_bytes, same_text};
use crate::value::{models, WolframFunction, WolframValue};
use vstd::prelude::*;
use vstd::string::StringExecFns;

verus! {

/// The text of one ASCII digit or of the minus sign.
fn ascii_str(b: u8) -> (s: &'static str)
    requires
        b == 45 || 48 <= b <= 57,
    ensures
        s@ == seq![b as char],
{
    proof {
        reveal_strlit("-");
        reveal_strlit("0");
        reveal_strlit("1");
        reveal_strlit("2");
        reveal_strlit("3");
        reveal_strlit("4");
        reveal_strlit("5");
        reveal_strlit("6");
        reveal_strlit("7");
        reveal_strlit("8");
        reveal_strlit("9");
    }
    let s = if b == 45 {
        "-"
    } else if b == 48 {
        "0"
    } else if b == 49 {
        "1"
    } else if b == 50 {
        "2"
    } else if b == 51 {
        "3"
    } else if b == 52 {
        "4"
    } else if b == 53 {
        "5"
    } else if b == 54 {
        "6"
    } else if b == 55 {
        "7"
    } else if b == 56 {
        "8"
    } else {
        "9"
    };
    assert(s@ =~= seq![b as char]);
    s
}

/// Appends the decimal text of an integer.
pub fn push_decimal(out: &mut String, v: i128)
    ensures
        final(out)@ == old(out)@ + decimal_text(v as int),
{
    let n = BigInteger::from_i128(v);
    push_big(out, &n);
}

/// Appends the decimal text of an integer of any size.
pub fn push_big(out: &mut String, n: &BigInteger)
    ensures
        final(out)@ == old(out)@ + decimal_text(n.value()),
{
    let bytes = n.to_decimal_bytes();
    let mut i: usize = 0;
    assert(out@ =~= old(out)@ + ascii_text(bytes@.subrange(0, 0)));
    while i < bytes.len()
        invariant
            i <= bytes@.len(),
            decimal_ascii(bytes@),
            out@ == old(out)@ + ascii_text(bytes@.subrange(0, i as int)),
        decreases bytes@.len() - i,
    {
        out.append(ascii_str(bytes[i]));
        assert(out@ =~= old(out)@ + ascii_text(bytes@.subrange(0, i + 1)));
        i += 1;
    }
    assert(bytes@.subrange(0, i as int) =~= bytes@);
}

/// Finds the text that a list of decimal texts gives for a bit pattern.
pub fn find_decimal<'a>(decimals: &'a Vec<DecimalText>, pattern: &[u8; 8]) -> (r: Option<&'a str>)
    ensures
        match r {
            Some(t) => decimal_lookup(decimal_table(decimals@), pattern@) == Some(t@),
            None => decimal_lookup(decimal_table(decimals@), pattern@) is None,
        },
{
    let ghost table = decimal_table(decimals@);
    let mut i: usize = 0;
    assert(table.subrange(0, table.len() as int) =~= table);
    while i < decimals.len()
        invariant
            i <= decimals@.len(),
            table == decimal_table(decimals@),
            decimal_lookup(table, pattern@) == decimal_lookup(
                table.subrange(i as int, table.len() as int),
                pattern@,
            ),
        decreases decimals@.len() - i,
    {
        let ghost rest = table.subrange(i as int, table.len() as int);
        assert(rest[0] == decimals@[i as int]@);
        assert(rest.drop_first() =~= table.subrange(i + 1, table.len() as int));
        if same_bytes(decimals[i].pattern.as_slice(), pattern.as_slice()) {
            return Some(decimals[i].text.as_str());
        }
        i += 1;
    }
    None
}

/// Tells whether a value of a list holds a reserved array.
fn any_reserved(values: &Vec<WolframValue>) -> (r: bool)
    ensures
        r == exists|i: int| 0 <= i < values@.len() && has_reserved(#[trigger] models(values@)[i]),
    decreases values,
{
    let mut i: usize = 0;
    while i < values.len()
        invariant
            i <= values@.len(),
            forall|j: int| 0 <= j < i ==> !has_reserved(#[trigger] models(values@)[j]),
        decreases values@.len() - i,
    {
        if holds_reserved(&values[i]) {
            assert(has_reserved(models(values@)[i as int]));
            return true;
        }
        i += 1;
    }
    false
}

/// Tells whether a key or a value of an association holds a reserved array.
fn entries_reserved(a: &WolframAssociation) -> (r: bool)
    ensures
        r == exists|i: int|
            0 <= i < a.entries().len() && (has_reserved((#[trigger] a.entries()[i]).key)
                || has_reserved(a.entries()[i].value)),
    decreases a,
{
    let n = a.len();
    let mut i: usize = 0;
    while i < n
        invariant
            i <= n,
            n == a.entries().len(),
            forall|j: int|
                0 <= j < i ==> !(has_reserved((#[trigger] a.entries()[j]).key) || has_reserved(
                    a.entries()[j].value,
                )),
        decreases n - i,
    {
        let p = a.get(i);
        if holds_reserved(&p.key) || holds_reserved(&p.value) {
            assert(has_reserved(a.entries()[i as int].key) || has_reserved(
                a.entries()[i as int].value,
            ));
            return true;
        }
        i += 1;
    }
    false
}

/// Tells whether a value holds a reserved array.
pub fn holds_reserved(value: &WolframValue) -> (r: bool)
    ensures
        r == has_reserved(value@),
    decreases value,
{
    match value {
        WolframValue::Function(f) => {
            assert(value@->args =~= models(f.rest@));
            assert(*value@->head == f.head@);
            let head = holds_reserved(&f.head);
            let rest = any_reserved(&f.rest);
            head || rest
        },
        WolframValue::PackedArray(_) => true,
        WolframValue::NumericArray(_) => true,
        WolframValue::Association(a) => entries_reserved(a),
        _ => false,
    }
}

/// Tells whether the list of decimal texts covers each value of a list.
fn all_known(values: &Vec<WolframValue>, decimals: &Vec<DecimalText>) -> (r: bool)
    ensures
        r == forall|i: int|
            0 <= i < values@.len() ==> decimals_known(
                #[trigger] models(values@)[i],
                decimal_table(decimals@),
            ),
    decreases values,
{
    let mut i: usize = 0;
    while i < values.len()
        invariant
            i <= values@.len(),
            forall|j: int|
                0 <= j < i ==> decimals_known(
                    #[trigger] models(values@)[j],
                    decimal_table(decimals@),
                ),
        decreases values@.len() - i,
    {
        if !knows_decimals(&values[i], decimals) {
            assert(!decimals_known(models(values@)[i as int], decimal_table(decimals@)));
            return false;
        }
        i += 1;
    }
    true
}

/// Tells whether the list of decimal texts covers each entry of an
/// association.
fn entries_known(a: &WolframAssociation, decimals: &Vec<DecimalText>) -> (r: bool)
    ensures
        r == forall|i: int|
            0 <= i < a.entries().len() ==> decimals_known(
                (#[trigger] a.entries()[i]).key,
                decimal_table(decimals@),
            ) && decimals_known(a.entries()[i].value, decimal_table(decimals@)),
    decreases a,
{
    let n = a.len();
    let mut i: usize = 0;
    while i < n
        invariant
            i <= n,
            n == a.entries().len(),
            forall|j: int|
                0 <= j < i ==> decimals_known(
                    (#[trigger] a.entries()[j]).key,
                    decimal_table(decimals@),
                ) && decimals_known(a.entries()[j].value, decimal_table(decimals@)),
        decreases n - i,
    {
        let p = a.get(i);
        if !knows_decimals(&p.key, decimals) || !knows_decimals(&p.value, decimals) {
            assert(!(decimals_known(a.entries()[i as int].key, decimal_table(decimals@))
                && decimals_known(a.entries()[i as int].value, decimal_table(decimals@))));
            return false;
        }
        i += 1;
    }
    true
}

/// Tells whether the list of decimal texts gives a text for each binary64
/// number of a value.
pub fn knows_decimals(value: &WolframValue, decimals: &Vec<DecimalText>) -> (r: bool)
    ensures
        r == decimals_known(value@, decimal_table(decimals@)),
    decreases value,
{
    match value {
        WolframValue::Function(f) => {
            assert(value@->args =~= models(f.rest@));
            assert(*value@->head == f.head@);
            let head = knows_decimals(&f.head, decimals);
            let rest = all_known(&f.rest, decimals);
            head && rest
        },
        WolframValue::Decimal64(d) => find_decimal(decimals, d).is_some(),
        WolframValue::PackedArray(v) => {
            assert(value@->PackedArray_0 =~= models(v@));
            all_known(v, decimals)
        },
        WolframValue::NumericArray(v) => {
            assert(value@->NumericArray_0 =~= models(v@));
            all_known(v, decimals)
        },
        WolframValue::Association(a) => entries_known(a, decimals),
        _ => true,
    }
}

/// The settings of the textual encoder.
#[derive(Copy, Clone, Debug, PartialEq, Eq, Hash)]
pub struct ReadableWriter {
    /// Whether a new line is followed by indentation.
    pub pretty: bool,
    /// The text of one level of indentation.
    pub indent_string: &'static str,
}

impl Default for ReadableWriter {
    fn default() -> (r: ReadableWriter)
        ensures
            r.pretty,
            r.indent_string@ == "    "@,
    {
        ReadableWriter { pretty: true, indent_string: "    " }
    }
}

/// A text repeated a number of times.
pub open spec fn repeated(s: Seq<char>, n: nat) -> Seq<char>
    decreases n,
{
    if n == 0 {
        Seq::empty()
    } else {
        repeated(s, (n - 1) as nat) + s
    }
}

/// The text that a buffer collects, with the current depth of indentation.
pub struct ReadableBuffer {
    /// The text written so far.
    pub buffer: String,
    /// The number of levels that a new line is indented by.
    pub indent_level: usize,
    /// The settings.
    pub config: ReadableWriter,
}

/// Appends the texts of the values of a list, parted by commas.
fn write_list(buffer: &mut ReadableBuffer, values: &Vec<WolframValue>, decimals: &Vec<DecimalText>)
    requires
        forall|i: int| 0 <= i < values@.len() ==> !has_reserved(#[trigger] models(values@)[i]),
        forall|i: int|
            0 <= i < values@.len() ==> decimals_known(
                #[trigger] models(values@)[i],
                decimal_table(decimals@),
            ),
    ensures
        final(buffer).buffer@ == old(buffer).buffer@ + notation_list(
            models(values@),
            decimal_table(decimals@),
        ),
        final(buffer).indent_level == old(buffer).indent_level,
        final(buffer).config == old(buffer).config,
    decreases values,
{
    let ghost list = models(values@);
    let ghost table = decimal_table(decimals@);
    let mut i: usize = 0;
    assert(list.subrange(0, 0) =~= Seq::<Expr>::empty());
    assert(buffer.buffer@ =~= old(buffer).buffer@ + notation_list(list.subrange(0, 0), table));
    while i < values.len()
        invariant
            i <= values@.len(),
            list == models(values@),
            table == decimal_table(decimals@),
            forall|j: int| 0 <= j < values@.len() ==> !has_reserved(#[trigger] list[j]),
            forall|j: int| 0 <= j < values@.len() ==> decimals_known(#[trigger] list[j], table),
            buffer.buffer@ == old(buffer).buffer@ + notation_list(list.subrange(0, i as int), table),
            buffer.indent_level == old(buffer).indent_level,
            buffer.config == old(buffer).config,
        decreases values@.len() - i,
    {
        if i > 0 {
            buffer.buffer.append(",");
        }
        assert(!has_reserved(list[i as int]) && decimals_known(list[i as int], table));
        buffer.write_value(&values[i], decimals);
        proof {
            let next = list.subrange(0, i + 1);
            assert(next.drop_last() =~= list.subrange(0, i as int));
            assert(next.last() == list[i as int]);
            assert(next[0] == list[0]);
            assert(buffer.buffer@ =~= old(buffer).buffer@ + notation_list(next, table));
        }
        i += 1;
    }
    assert(list.subrange(0, i as int) =~= list);
}

/// Appends the texts of the entries of an association, parted by commas.
fn write_entries(buffer: &mut ReadableBuffer, a: &WolframAssociation, decimals: &Vec<DecimalText>)
    requires
        forall|i: int|
            0 <= i < a.entries().len() ==> !has_reserved((#[trigger] a.entries()[i]).key)
                && !has_reserved(a.entries()[i].value),
        forall|i: int|
            0 <= i < a.entries().len() ==> decimals_known(
                (#[trigger] a.entries()[i]).key,
                decimal_table(decimals@),
            ) && decimals_known(a.entries()[i].value, decimal_table(decimals@)),
    ensures
        final(buffer).buffer@ == old(buffer).buffer@ + notation_entries(
            a.entries(),
            decimal_table(decimals@),
        ),
        final(buffer).indent_level == old(buffer).indent_level,
        final(buffer).config == old(buffer).config,
    decreases a,
{
    let ghost list = a.entries();
    let ghost table = decimal_table(decimals@);
    let n = a.len();
    let mut i: usize = 0;
    assert(list.subrange(0, 0) =~= Seq::<Entry>::empty());
    assert(buffer.buffer@ =~= old(buffer).buffer@ + notation_entries(list.subrange(0, 0), table));
    while i < n
        invariant
            i <= n,
            n == list.len(),
            list == a.entries(),
            table == decimal_table(decimals@),
            forall|j: int|
                0 <= j < list.len() ==> !has_reserved((#[trigger] list[j]).key) && !has_reserved(
                    list[j].value,
                ),
            forall|j: int|
                0 <= j < list.len() ==> decimals_known((#[trigger] list[j]).key, table)
                    && decimals_known(list[j].value, table),
            buffer.buffer@ == old(buffer).buffer@ + notation_entries(
                list.subrange(0, i as int),
                table,
            ),
            buffer.indent_level == old(buffer).indent_level,
            buffer.config == old(buffer).config,
        decreases n - i,
    {
        if i > 0 {
            buffer.buffer.append(",");
        }
        let ghost before = buffer.buffer@;
        let p = a.get(i);
        assert(!has_reserved(list[i as int].key) && !has_reserved(list[i as int].value));
        assert(decimals_known(list[i as int].key, table) && decimals_known(
            list[i as int].value,
            table,
        ));
        buffer.write_value(&p.key, decimals);
        buffer.buffer.append(p.rule.to_str());
        buffer.write_value(&p.value, decimals);
        proof {
            let next = list.subrange(0, i + 1);
            assert(next.drop_last() =~= list.subrange(0, i as int));
            assert(next.last() == list[i as int]);
            assert(next[0] == list[0]);
            assert(buffer.buffer@ =~= before + notation_entry(list[i as int], table));
            assert(buffer.buffer@ =~= old(buffer).buffer@ + notation_entries(next, table));
        }
        i += 1;
    }
    assert(list.subrange(0, i as int) =~= list);
}

/// Appends the decimal texts of bytes, parted by commas.
fn write_byte_list(out: &mut String, bytes: &Vec<u8>)
    ensures
        final(out)@ == old(out)@ + byte_list(bytes@),
{
    let mut i: usize = 0;
    assert(bytes@.subrange(0, 0) =~= Seq::<u8>::empty());
    assert(out@ =~= old(out)@ + byte_list(bytes@.subrange(0, 0)));
    while i < bytes.len()
        invariant
            i <= bytes@.len(),
            out@ == old(out)@ + byte_list(bytes@.subrange(0, i as int)),
        decreases bytes@.len() - i,
    {
        if i > 0 {
            out.append(",");
        }
        push_decimal(out, bytes[i] as i128);
        proof {
            let next = bytes@.subrange(0, i + 1);
            assert(next.drop_last() =~= bytes@.subrange(0, i as int));
            assert(next.last() == bytes@[i as int]);
            assert(next[0] == bytes@[0]);
            assert(out@ =~= old(out)@ + byte_list(next));
        }
        i += 1;
    }
    assert(bytes@.subrange(0, i as int) =~= bytes@);
}

/// Tells whether a value is a symbol named `List`, whatever its namespace.
fn heads_list(head: &WolframValue) -> (r: bool)
    ensures
        r == is_list_head(head@),
{
    match head {
        WolframValue::Symbol(s) => same_text(s.name(), "List"),
        _ => false,
    }
}

impl ReadableBuffer {
    /// An empty buffer at depth zero.
    pub fn new(config: ReadableWriter) -> (r: ReadableBuffer)
        ensures
            r.buffer@ == Seq::<char>::empty(),
            r.indent_level == 0,
            r.config == config,
    {
        ReadableBuffer { buffer: String::new(), indent_level: 0, config }
    }

    /// Appends the text of a value. The value holds no reserved array, and
    /// the list of decimal texts covers its binary64 numbers.
    pub fn write_value(&mut self, value: &WolframValue, decimals: &Vec<DecimalText>)
        requires
            !has_reserved(value@),
            decimals_known(value@, decimal_table(decimals@)),
        ensures
            final(self).buffer@ == old(self).buffer@ + notation(value@, decimal_table(decimals@)),
            final(self).indent_level == old(self).indent_level,
            final(self).config == old(self).config,
        decreases value, 1int,
    {
        let ghost table = decimal_table(decimals@);
        match value {
            WolframValue::Skip => {
                assert(self.buffer@ =~= old(self).buffer@ + notation(value@, table));
            },
            WolframValue::Function(f) => {
                assert(value@ == f@) by {
                    assert(value@->args =~= models(f.rest@));
                }
                self.write_function(f, decimals);
            },
            WolframValue::Boolean(b) => {
                if *b {
                    self.buffer.append("True");
                } else {
                    self.buffer.append("False");
                }
            },
            WolframValue::String(s) => {
                let q = quote_text(s.as_str());
                self.buffer.append(q.as_str());
            },
            WolframValue::Bytes(b) => {
                self.buffer.append("ByteArray[{");
                write_byte_list(&mut self.buffer, b);
                self.buffer.append("}]");
                assert(self.buffer@ =~= old(self).buffer@ + notation(value@, table));
            },
            WolframValue::Symbol(s) => {
                let name = s.qualified();
                self.buffer.append(name.as_str());
            },
            WolframValue::Integer8(n) => push_decimal(&mut self.buffer, *n as i128),
            WolframValue::Integer16(n) => push_decimal(&mut self.buffer, *n as i128),
            WolframValue::Integer32(n) => push_decimal(&mut self.buffer, *n as i128),
            WolframValue::Integer64(n) => push_decimal(&mut self.buffer, *n as i128),
            WolframValue::BigInteger(n) => push_big(&mut self.buffer, n),
            WolframValue::Decimal64(d) => {
                match find_decimal(decimals, d) {
                    Some(t) => {
                        self.buffer.append(t);
                        self.buffer.append("`");
                        assert(self.buffer@ =~= old(self).buffer@ + notation(value@, table));
                    },
                    None => {},
                }
            },
            WolframValue::BigDecimal(s) => {
                self.buffer.append(s.as_str());
            },
            WolframValue::PackedArray(_) => {},
            WolframValue::NumericArray(_) => {},
            WolframValue::Association(a) => {
                self.buffer.append("<|");
                write_entries(self, a, decimals);
                self.buffer.append("|>");
                assert(self.buffer@ =~= old(self).buffer@ + notation(value@, table));
            },
            WolframValue::Rule => {
                self.buffer.append("->");
            },
            WolframValue::RuleDelayed => {
                self.buffer.append(":>");
            },
        }
    }

    /// Appends the text of a call: the arguments in braces where the head is
    /// a symbol named `List`, in whatever namespace; else the head followed
    /// by the bracketed arguments.
    pub fn write_function(&mut self, function: &WolframFunction, decimals: &Vec<DecimalText>)
        requires
            !has_reserved(function@),
            decimals_known(function@, decimal_table(decimals@)),
        ensures
            final(self).buffer@ == old(self).buffer@ + notation(
                function@,
                decimal_table(decimals@),
            ),
            final(self).indent_level == old(self).indent_level,
            final(self).config == old(self).config,
        decreases function, 0int,
    {
        let ghost table = decimal_table(decimals@);
        proof {
            lemma_call_parts(function.head@, models(function.rest@), table);
        }
        if heads_list(&function.head) {
            self.buffer.append("{");
            write_list(self, &function.rest, decimals);
            self.buffer.append("}");
        } else {
            self.write_value(&function.head, decimals);
            self.buffer.append("[");
            write_list(self, &function.rest, decimals);
            self.buffer.append("]");
        }
        assert(self.buffer@ =~= old(self).buffer@ + notation(function@, table));
    }

    /// Appends a line break and, where the settings ask for it, the
    /// indentation of the current depth.
    pub fn write_new_line(&mut self)
        ensures
            final(self).buffer@ == old(self).buffer@ + "\n"@ + if old(self).config.pretty {
                repeated(old(self).config.indent_string@, old(self).indent_level as nat)
            } else {
                Seq::<char>::empty()
            },
            final(self).indent_level == old(self).indent_level,
            final(self).config == old(self).config,
    {
        self.buffer.append("\n");
        if self.config.pretty {
            let ghost start = self.buffer@;
            let mut i: usize = 0;
            assert(self.buffer@ =~= start + repeated(self.config.indent_string@, 0));
            while i < self.indent_level
                invariant
                    i <= self.indent_level,
                    self.indent_level == old(self).indent_level,
                    self.config == old(self).config,
                    self.buffer@ == start + repeated(self.config.indent_string@, i as nat),
                decreases self.indent_level - i,
            {
                self.buffer.append(self.config.indent_string);
                assert(self.buffer@ =~= start + repeated(
                    self.config.indent_string@,
                    (i + 1) as nat,
                ));
                i += 1;
            }
            assert(self.buffer@ =~= old(self).buffer@ + "\n"@ + repeated(
                old(self).config.indent_string@,
                old(self).indent_level as nat,
            ));
        } else {
            assert(self.buffer@ =~= old(self).buffer@ + "\n"@ + Seq::<char>::empty());
        }
    }

    /// Goes one level deeper.
    pub fn indent(&mut self)
        requires
            old(self).indent_level < usize::MAX,
        ensures
            final(self).indent_level == old(self).indent_level + 1,
            final(self).buffer == old(self).buffer,
            final(self).config == old(self).config,
    {
        self.indent_level += 1;
    }

    /// Comes one level back.
    pub fn dedent(&mut self)
        requires
            old(self).indent_level > 0,
        ensures
            final(self).indent_level == old(self).indent_level - 1,
            final(self).buffer == old(self).buffer,
            final(self).config == old(self).config,
    {
        self.indent_level -= 1;
    }
}

impl WolframFunction {
    /// The text of the call in Wolfram input syntax, with the given texts
    /// for its binary64 numbers; it fails as the text of a value does.
    pub fn to_string_with(&self, decimals: &Vec<DecimalText>) -> (r: Result<String, WolframError>)
        ensures
            match r {
                Ok(s) => !has_reserved(self@) && decimals_known(self@, decimal_table(decimals@))
                    && s@ == notation(self@, decimal_table(decimals@)),
                Err(WolframError::NotImplemented) => has_reserved(self@),
                Err(WolframError::MissingDecimal) => !has_reserved(self@) && !decimals_known(
                    self@,
                    decimal_table(decimals@),
                ),
                Err(_) => false,
            },
    {
        self.clone().into_value().to_string_with(decimals)
    }
}

impl WolframRule {
    /// The text of the relation: `->` for `Rule`, `:>` for `RuleDelayed`.
    pub fn to_str(&self) -> (r: &'static str)
        ensures
            r@ == rule_text(*self is RuleDelayed),
    {
        match self {
            WolframRule::Rule => "->",
            WolframRule::RuleDelayed => ":>",
        }
    }
}

impl WolframValue {
    /// The text of the value in Wolfram input syntax, with the given texts
    /// for its binary64 numbers. A value that holds a reserved array is
    /// refused with `NotImplemented`; one with a binary64 number that the
    /// list does not cover, with `MissingDecimal`.
    pub fn to_string_with(&self, decimals: &Vec<DecimalText>) -> (r: Result<String, WolframError>)
        ensures
            match r {
                Ok(s) => !has_reserved(self@) && decimals_known(self@, decimal_table(decimals@))
                    && s@ == notation(self@, decimal_table(decimals@)),
                Err(WolframError::NotImplemented) => has_reserved(self@),
                Err(WolframError::MissingDecimal) => !has_reserved(self@) && !decimals_known(
                    self@,
                    decimal_table(decimals@),
                ),
                Err(_) => false,
            },
    {
        if holds_reserved(self) {
            Err(WolframError::NotImplemented)
        } else if !knows_decimals(self, decimals) {
            Err(WolframError::MissingDecimal)
        } else {
            let mut buffer = ReadableBuffer::new(ReadableWriter { pretty: false, indent_string: "    " });
            buffer.write_value(self, decimals);
            assert(buffer.buffer@ =~= notation(self@, decimal_table(decimals@)));
            Ok(buffer.buffer)
        }
    }

    /// The text of a value without binary64 numbers.
    pub fn to_string(&self) -> (r: Result<String, WolframError>)
        ensures
            match r {
                Ok(s) => !has_reserved(self@) && decimals_known(self@, Seq::empty()) && s@
                    == notation(self@, Seq::empty()),
                Err(WolframError::NotImplemented) => has_reserved(self@),
                Err(WolframError::MissingDecimal) => !has_reserved(self@) && !decimals_known(
                    self@,
                    Seq::empty(),
                ),
                Err(_) => false,
            },
    {
        let decimals: Vec<DecimalText> = Vec::new();
        assert(decimal_table(decimals@) =~= Seq::empty());
        self.to_string_with(&decimals)
    }
}

/// The bit patterns that a list of byte arrays stands for.
pub open spec fn patterns_of(patterns: Seq<[u8; 8]>) -> Seq<Seq<u8>> {
    Seq::new(patterns.len(), |i: int| patterns[i]@)
}

/// Appends the binary64 patterns of the values of a list.
fn collect_list(values: &Vec<WolframValue>, out: &mut Vec<[u8; 8]>)
    ensures
        patterns_of(final(out)@) == patterns_of(old(out)@) + decimal_leaves_list(models(values@)),
    decreases values,
{
    let ghost list = models(values@);
    let mut i: usize = 0;
    assert(list.subrange(0, 0) =~= Seq::<Expr>::empty());
    assert(patterns_of(out@) =~= patterns_of(old(out)@) + decimal_leaves_list(
        list.subrange(0, 0),
    ));
    while i < values.len()
        invariant
            i <= values@.len(),
            list == models(values@),
            patterns_of(out@) == patterns_of(old(out)@) + decimal_leaves_list(
                list.subrange(0, i as int),
            ),
        decreases values@.len() - i,
    {
        collect_patterns(&values[i], out);
        proof {
            let next = list.subrange(0, i + 1);
            assert(next.drop_last() =~= list.subrange(0, i as int));
            assert(next.last() == list[i as int]);
            assert(patterns_of(out@) =~= patterns_of(old(out)@) + decimal_leaves_list(next));
        }
        i += 1;
    }
    assert(list.subrange(0, i as int) =~= list);
}

/// Appends the binary64 patterns of the entries of an association.
fn collect_entries(a: &WolframAssociation, out: &mut Vec<[u8; 8]>)
    ensures
        patterns_of(final(out)@) == patterns_of(old(out)@) + decimal_leaves_entries(a.entries()),
    decreases a,
{
    let ghost list = a.entries();
    let n = a.len();
    let mut i: usize = 0;
    assert(list.subrange(0, 0) =~= Seq::<Entry>::empty());
    assert(patterns_of(out@) =~= patterns_of(old(out)@) + decimal_leaves_entries(
        list.subrange(0, 0),
    ));
    while i < n
        invariant
            i <= n,
            n == list.len(),
            list == a.entries(),
            patterns_of(out@) == patterns_of(old(out)@) + decimal_leaves_entries(
                list.subrange(0, i as int),
            ),
        decreases n - i,
    {
        let p = a.get(i);
        collect_patterns(&p.key, out);
        collect_patterns(&p.value, out);
        proof {
            let next = list.subrange(0, i + 1);
            assert(next.drop_last() =~= list.subrange(0, i as int));
            assert(next.last() == list[i as int]);
            assert(patterns_of(out@) =~= patterns_of(old(out)@) + decimal_leaves_entries(next));
        }
        i += 1;
    }
    assert(list.subrange(0, i as int) =~= list);
}

/// Appends the binary64 patterns of a value, in the order in which the
/// value holds them.
pub fn collect_patterns(value: &WolframValue, out: &mut Vec<[u8; 8]>)
    ensures
        patterns_of(final(out)@) == patterns_of(old(out)@) + decimal_leaves(value@),
    decreases value,
{
    match value {
        WolframValue::Function(f) => {
            assert(value@->args =~= models(f.rest@));
            assert(*value@->head == f.head@);
            collect_patterns(&f.head, out);
            collect_list(&f.rest, out);
            assert(patterns_of(out@) =~= patterns_of(old(out)@) + decimal_leaves(value@));
        },
        WolframValue::Decimal64(d) => {
            out.push(*d);
            assert(patterns_of(out@) =~= patterns_of(old(out)@) + decimal_leaves(value@));
        },
        WolframValue::PackedArray(v) => {
            assert(value@->PackedArray_0 =~= models(v@));
            collect_list(v, out);
        },
        WolframValue::NumericArray(v) => {
            assert(value@->NumericArray_0 =~= models(v@));
            collect_list(v, out);
        },
        WolframValue::Association(a) => collect_entries(a, out),
        _ => {
            assert(patterns_of(out@) =~= patterns_of(old(out)@) + decimal_leaves(value@));
        },
    }
}

impl WolframValue {
    /// The bit patterns of the binary64 numbers of the value: the numbers
    /// that `to_string_with` needs a text for.
    pub fn decimal_patterns(&self) -> (r: Vec<[u8; 8]>)
        ensures
            patterns_of(r@) == decimal_leaves(self@),
    {
        let mut out: Vec<[u8; 8]> = Vec::new();
        collect_patterns(self, &mut out);
        assert(patterns_of(out@) =~= decimal_leaves(self@));
        out
    }
}

} // verus!
