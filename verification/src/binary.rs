//! The binary encoder: the Wolfram Exchange Format.

use crate::associations::WolframAssociation;
use crate::error::WolframError;
use crate::integers::decimal_bytes;
use crate::model::{Entry, Expr};
use crate::symbols::qualified_name;
use crate::text::push_bytes;
use crate::value::{models, WolframValue};
use crate::varint::{encode_length, varint};
use vstd::prelude::*;
use vstd::utf8::encode_utf8;

verus! {

/// The `width` low bytes of a number, least significant first.
pub open spec fn le_bytes(u: nat, width: nat) -> Seq<u8>
    decreases width,
{
    if width == 0 {
        Seq::empty()
    } else {
        seq![(u % 256) as u8] + le_bytes(u / 256, (width - 1) as nat)
    }
}

/// The two's complement of a signed number: a negative number is raised by
/// `modulus`, which is two to the number of bits.
pub open spec fn twos_complement(v: int, modulus: nat) -> nat {
    if v < 0 {
        (v + modulus) as nat
    } else {
        v as nat
    }
}

/// A length prefix followed by the bytes it counts.
pub open spec fn framed(payload: Seq<u8>) -> Seq<u8> {
    varint(payload.len()) + payload
}

/// The encoding of a symbol under its full name.
pub open spec fn wxf_symbol(full_name: Seq<char>) -> Seq<u8> {
    seq![115u8] + framed(encode_utf8(full_name))
}

/// Tells whether a value has an encoding: it holds no reserved array and no
/// decimal of arbitrary precision.
pub open spec fn encodable(e: Expr) -> bool
    decreases e,
{
    match e {
        Expr::Function { head, args } => encodable(*head) && encodable_list(args),
        Expr::BigDecimal(_) => false,
        Expr::PackedArray(_) => false,
        Expr::NumericArray(_) => false,
        Expr::Association(entries) => encodable_entries(entries),
        _ => true,
    }
}

/// Tells whether each value of a list has an encoding.
pub open spec fn encodable_list(list: Seq<Expr>) -> bool
    decreases list,
{
    forall|i: int| 0 <= i < list.len() ==> encodable(#[trigger] list[i])
}

/// Tells whether the key and the value of each entry have an encoding.
pub open spec fn encodable_entries(entries: Seq<Entry>) -> bool
    decreases entries,
{
    forall|i: int|
        0 <= i < entries.len() ==> encodable((#[trigger] entries[i]).key) && encodable(
            entries[i].value,
        )
}

/// The encoding of a value without the stream header: a tag byte and the
/// payload of the variant.
pub open spec fn wxf_body(e: Expr) -> Seq<u8>
    decreases e,
{
    match e {
        Expr::Skip => Seq::empty(),
        Expr::Function { head, args } => seq![102u8] + varint(args.len()) + wxf_body(*head)
            + wxf_list(args),
        Expr::Boolean(b) => wxf_symbol(
            if b {
                "True"@
            } else {
                "False"@
            },
        ),
        Expr::String(s) => seq![83u8] + framed(encode_utf8(s)),
        Expr::Bytes(b) => seq![66u8] + framed(b),
        Expr::Symbol { namespace, name } => wxf_symbol(qualified_name(namespace, name)),
        Expr::Integer8(n) => seq![67u8] + le_bytes(twos_complement(n as int, 0x100), 1),
        Expr::Integer16(n) => seq![106u8] + le_bytes(twos_complement(n as int, 0x1_0000), 2),
        Expr::Integer32(n) => seq![105u8] + le_bytes(twos_complement(n as int, 0x1_0000_0000), 4),
        Expr::Integer64(n) => seq![76u8] + le_bytes(
            twos_complement(n as int, 0x1_0000_0000_0000_0000),
            8,
        ),
        Expr::BigInteger(v) => seq![73u8] + framed(decimal_bytes(v)),
        Expr::Decimal64(d) => seq![114u8] + d,
        Expr::BigDecimal(_) => Seq::empty(),
        Expr::PackedArray(_) => Seq::empty(),
        Expr::NumericArray(_) => Seq::empty(),
        Expr::Association(entries) => seq![65u8] + varint(entries.len()) + wxf_entries(entries),
        Expr::Rule => seq![45u8],
        Expr::RuleDelayed => seq![58u8],
    }
}

/// The encodings of the values of a list, one after the other.
pub open spec fn wxf_list(list: Seq<Expr>) -> Seq<u8>
    decreases list,
{
    if list.len() == 0 {
        Seq::empty()
    } else {
        wxf_list(list.drop_last()) + wxf_body(list.last())
    }
}

/// The encoding of one entry: the tag of its relation, its key, its value.
pub open spec fn wxf_entry(entry: Entry) -> Seq<u8>
    decreases entry,
{
    seq![entry.rule.tag()] + wxf_body(entry.key) + wxf_body(entry.value)
}

/// The encodings of the entries of an association, one after the other.
pub open spec fn wxf_entries(entries: Seq<Entry>) -> Seq<u8>
    decreases entries,
{
    if entries.len() == 0 {
        Seq::empty()
    } else {
        wxf_entries(entries.drop_last()) + wxf_entry(entries.last())
    }
}

/// The stream header of an uncompressed encoding: `8:`.
pub open spec fn wxf_header() -> Seq<u8> {
    seq![56u8, 58u8]
}

/// The whole uncompressed encoding of a value.
pub open spec fn wxf(e: Expr) -> Seq<u8> {
    wxf_header() + wxf_body(e)
}

/// Appends the `width` low bytes of a number, least significant first.
fn push_le(out: &mut Vec<u8>, value: u64, width: usize)
    ensures
        final(out)@ == old(out)@ + le_bytes(value as nat, width as nat),
{
    let mut rest = value;
    let mut i: usize = 0;
    assert(out@ + le_bytes(rest as nat, (width - i) as nat) =~= old(out)@ + le_bytes(
        value as nat,
        width as nat,
    ));
    while i < width
        invariant
            i <= width,
            out@ + le_bytes(rest as nat, (width - i) as nat) == old(out)@ + le_bytes(
                value as nat,
                width as nat,
            ),
        decreases width - i,
    {
        let ghost before = out@;
        out.push((rest % 256) as u8);
        assert(before + le_bytes(rest as nat, (width - i) as nat) =~= out@ + le_bytes(
            (rest / 256) as nat,
            (width - i - 1) as nat,
        ));
        rest = rest / 256;
        i += 1;
    }
    assert(out@ + le_bytes(rest as nat, 0) =~= out@);
}

/// Appends a length prefix and the bytes it counts.
fn push_framed(out: &mut Vec<u8>, payload: &[u8])
    ensures
        final(out)@ == old(out)@ + framed(payload@),
{
    let prefix = encode_length(payload.len());
    push_bytes(out, prefix.as_slice());
    push_bytes(out, payload);
    assert(out@ =~= old(out)@ + framed(payload@));
}

/// Appends the encoding of a symbol under its full name.
fn push_symbol(out: &mut Vec<u8>, full_name: &str)
    ensures
        final(out)@ == old(out)@ + wxf_symbol(full_name@),
{
    out.push(115u8);
    push_framed(out, full_name.as_bytes());
    assert(out@ =~= old(out)@ + wxf_symbol(full_name@));
}

/// Tells whether each value of a list has an encoding.
fn all_encodable(values: &Vec<WolframValue>) -> (r: bool)
    ensures
        r == encodable_list(models(values@)),
    decreases values,
{
    let mut i: usize = 0;
    while i < values.len()
        invariant
            i <= values@.len(),
            forall|j: int| 0 <= j < i ==> encodable(#[trigger] models(values@)[j]),
        decreases values@.len() - i,
    {
        if !values[i].is_encodable() {
            assert(!encodable(models(values@)[i as int]));
            return false;
        }
        i += 1;
    }
    true
}

/// Appends the encodings of the values of a list, one after the other.
fn write_list(values: &Vec<WolframValue>, out: &mut Vec<u8>)
    requires
        encodable_list(models(values@)),
    ensures
        final(out)@ == old(out)@ + wxf_list(models(values@)),
    decreases values,
{
    let ghost list = models(values@);
    let mut i: usize = 0;
    assert(list.subrange(0, 0) =~= Seq::<Expr>::empty());
    assert(out@ =~= old(out)@ + wxf_list(list.subrange(0, 0)));
    while i < values.len()
        invariant
            i <= values@.len(),
            list == models(values@),
            encodable_list(list),
            out@ == old(out)@ + wxf_list(list.subrange(0, i as int)),
        decreases values@.len() - i,
    {
        let ghost before = out@;
        assert(encodable(list[i as int]));
        values[i].write_body(out);
        proof {
            let next = list.subrange(0, i + 1);
            assert(next.drop_last() =~= list.subrange(0, i as int));
            assert(next.last() == list[i as int]);
            assert(out@ =~= old(out)@ + wxf_list(next));
        }
        i += 1;
    }
    assert(list.subrange(0, i as int) =~= list);
}

/// Tells whether the key and the value of each entry have an encoding.
fn entries_encodable(a: &WolframAssociation) -> (r: bool)
    ensures
        r == encodable_entries(a.entries()),
    decreases a,
{
    let n = a.len();
    let mut i: usize = 0;
    while i < n
        invariant
            i <= n,
            n == a.entries().len(),
            forall|j: int|
                0 <= j < i ==> encodable((#[trigger] a.entries()[j]).key) && encodable(
                    a.entries()[j].value,
                ),
        decreases n - i,
    {
        let p = a.get(i);
        if !p.key.is_encodable() || !p.value.is_encodable() {
            assert(!(encodable(a.entries()[i as int].key) && encodable(
                a.entries()[i as int].value,
            )));
            return false;
        }
        i += 1;
    }
    true
}

/// Appends the encodings of the entries of an association, in key order.
fn write_entries(a: &WolframAssociation, out: &mut Vec<u8>)
    requires
        encodable_entries(a.entries()),
    ensures
        final(out)@ == old(out)@ + wxf_entries(a.entries()),
    decreases a,
{
    let n = a.len();
    let ghost entries = a.entries();
    let mut i: usize = 0;
    assert(entries.subrange(0, 0) =~= Seq::<Entry>::empty());
    assert(out@ =~= old(out)@ + wxf_entries(entries.subrange(0, 0)));
    while i < n
        invariant
            i <= n,
            n == entries.len(),
            entries == a.entries(),
            encodable_entries(entries),
            out@ == old(out)@ + wxf_entries(entries.subrange(0, i as int)),
        decreases n - i,
    {
        let p = a.get(i);
        let ghost before = out@;
        assert(encodable(entries[i as int].key) && encodable(entries[i as int].value));
        out.push(p.rule.as_byte());
        p.key.write_body(out);
        p.value.write_body(out);
        proof {
            let next = entries.subrange(0, i + 1);
            assert(next.drop_last() =~= entries.subrange(0, i as int));
            assert(next.last() == entries[i as int]);
            assert(out@ =~= before + wxf_entry(entries[i as int]));
            assert(wxf_entries(next) == wxf_entries(next.drop_last()) + wxf_entry(next.last()));
            assert(out@ =~= old(out)@ + wxf_entries(next));
        }
        i += 1;
    }
    assert(entries.subrange(0, i as int) =~= entries);
}

impl WolframValue {
    /// Tells whether the value has an encoding.
    pub fn is_encodable(&self) -> (r: bool)
        ensures
            r == encodable(self@),
        decreases self,
    {
        match self {
            WolframValue::Function(f) => {
                assert(self@->args =~= models(f.rest@));
                assert(*self@->head == f.head@);
                let head = f.head.is_encodable();
                let rest = all_encodable(&f.rest);
                head && rest
            },
            WolframValue::BigDecimal(_) => false,
            WolframValue::PackedArray(_) => false,
            WolframValue::NumericArray(_) => false,
            WolframValue::Association(a) => entries_encodable(a),
            _ => true,
        }
    }

    /// Appends the encoding of the value, without the stream header.
    pub fn write_body(&self, out: &mut Vec<u8>)
        requires
            encodable(self@),
        ensures
            final(out)@ == old(out)@ + wxf_body(self@),
        decreases self,
    {
        match self {
            WolframValue::Skip => {
                assert(out@ =~= old(out)@ + wxf_body(self@));
            },
            WolframValue::Function(f) => {
                assert(self@->args =~= models(f.rest@));
                out.push(102u8);
                let prefix = encode_length(f.rest.len());
                push_bytes(out, prefix.as_slice());
                f.head.write_body(out);
                write_list(&f.rest, out);
                assert(out@ =~= old(out)@ + wxf_body(self@));
            },
            WolframValue::Boolean(b) => {
                push_symbol(
                    out,
                    if *b {
                        "True"
                    } else {
                        "False"
                    },
                );
            },
            WolframValue::String(s) => {
                out.push(83u8);
                push_framed(out, s.as_str().as_bytes());
                assert(out@ =~= old(out)@ + wxf_body(self@));
            },
            WolframValue::Bytes(b) => {
                out.push(66u8);
                push_framed(out, b.as_slice());
                assert(out@ =~= old(out)@ + wxf_body(self@));
            },
            WolframValue::Symbol(s) => {
                let name = s.qualified();
                push_symbol(out, name.as_str());
            },
            WolframValue::Integer8(n) => {
                out.push(67u8);
                let u: i64 = if *n < 0 {
                    *n as i64 + 0x100
                } else {
                    *n as i64
                };
                push_le(out, u as u64, 1);
                assert(out@ =~= old(out)@ + wxf_body(self@));
            },
            WolframValue::Integer16(n) => {
                out.push(106u8);
                let u: i64 = if *n < 0 {
                    *n as i64 + 0x1_0000
                } else {
                    *n as i64
                };
                push_le(out, u as u64, 2);
                assert(out@ =~= old(out)@ + wxf_body(self@));
            },
            WolframValue::Integer32(n) => {
                out.push(105u8);
                let u: i64 = if *n < 0 {
                    *n as i64 + 0x1_0000_0000
                } else {
                    *n as i64
                };
                push_le(out, u as u64, 4);
                assert(out@ =~= old(out)@ + wxf_body(self@));
            },
            WolframValue::Integer64(n) => {
                out.push(76u8);
                let u: i128 = if *n < 0 {
                    *n as i128 + 0x1_0000_0000_0000_0000
                } else {
                    *n as i128
                };
                push_le(out, u as u64, 8);
                assert(out@ =~= old(out)@ + wxf_body(self@));
            },
            WolframValue::BigInteger(n) => {
                out.push(73u8);
                let digits = n.to_decimal_bytes();
                push_framed(out, digits.as_slice());
                assert(out@ =~= old(out)@ + wxf_body(self@));
            },
            WolframValue::Decimal64(d) => {
                out.push(114u8);
                push_bytes(out, d.as_slice());
                assert(out@ =~= old(out)@ + wxf_body(self@));
            },
            WolframValue::BigDecimal(_) => {},
            WolframValue::PackedArray(_) => {},
            WolframValue::NumericArray(_) => {},
            WolframValue::Association(a) => {
                out.push(65u8);
                let prefix = encode_length(a.len());
                push_bytes(out, prefix.as_slice());
                write_entries(a, out);
                assert(out@ =~= old(out)@ + wxf_body(self@));
            },
            WolframValue::Rule => {
                out.push(45u8);
                assert(out@ =~= old(out)@ + wxf_body(self@));
            },
            WolframValue::RuleDelayed => {
                out.push(58u8);
                assert(out@ =~= old(out)@ + wxf_body(self@));
            },
        }
    }

    /// Appends the encoding of the value, without the stream header. A value
    /// without an encoding is refused with `NotImplemented`, and nothing is
    /// appended.
    pub fn write_bytes(&self, out: &mut Vec<u8>) -> (r: Result<(), WolframError>)
        ensures
            encodable(self@) ==> r is Ok && final(out)@ == old(out)@ + wxf_body(self@),
            !encodable(self@) ==> r == Err::<(), WolframError>(WolframError::NotImplemented)
                && final(out)@ == old(out)@,
    {
        if self.is_encodable() {
            self.write_body(out);
            Ok(())
        } else {
            Err(WolframError::NotImplemented)
        }
    }

    /// The whole uncompressed encoding of the value: the header `8:` and the
    /// encoded value. A value without an encoding is refused with
    /// `NotImplemented`.
    pub fn to_bytes(&self) -> (r: Result<Vec<u8>, WolframError>)
        ensures
            match r {
                Ok(bytes) => encodable(self@) && bytes@ == wxf(self@),
                Err(e) => !encodable(self@) && e == WolframError::NotImplemented,
            },
    {
        if self.is_encodable() {
            let mut out: Vec<u8> = Vec::new();
            out.push(56u8);
            out.push(58u8);
            self.write_body(&mut out);
            assert(out@ =~= wxf(self@));
            Ok(out)
        } else {
            Err(WolframError::NotImplemented)
        }
    }
}

} // verus!
