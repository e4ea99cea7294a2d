//! Laws that relate the encoders: equal mappings have equal encodings, and
//! what the text shows is what the bytes hold.

use crate::associations::ascending;
use crate::binary::{framed, wxf, wxf_body};
use crate::canonical::{canonical_of, entry_map, lemma_canonical_entries, lemma_insertion_order};
use crate::integers::decimal_text;
use crate::model::{Entry, Expr};
use crate::notation::notation;
use crate::numbers::narrowed;
use vstd::prelude::*;
use vstd::utf8::encode_utf8;

verus! {

/// Two associations that hold the same mapping have the same bytes and the
/// same text, whatever the order in which their entries were put in.
pub proof fn lemma_equal_mappings_encode_alike(
    a: Seq<Entry>,
    b: Seq<Entry>,
    table: Seq<(Seq<u8>, Seq<char>)>,
)
    requires
        ascending(a),
        ascending(b),
        entry_map(a) == entry_map(b),
    ensures
        wxf(Expr::Association(a)) == wxf(Expr::Association(b)),
        notation(Expr::Association(a), table) == notation(Expr::Association(b), table),
{
    lemma_canonical_entries(a, b);
}

/// The association built from a sequence of entries does not depend on their
/// order: two sequences that stand for the same mapping give the same bytes
/// and the same text.
pub proof fn lemma_insertion_order_is_irrelevant(
    a: Seq<Entry>,
    b: Seq<Entry>,
    table: Seq<(Seq<u8>, Seq<char>)>,
)
    requires
        entry_map(a) == entry_map(b),
    ensures
        wxf(Expr::Association(canonical_of(a))) == wxf(Expr::Association(canonical_of(b))),
        notation(Expr::Association(canonical_of(a)), table) == notation(
            Expr::Association(canonical_of(b)),
            table,
        ),
{
    lemma_insertion_order(a, b);
}

/// A symbol and a truth value are encoded under the name that their text
/// shows: the bytes are the symbol tag, the length of the text in UTF-8, and
/// the text in UTF-8.
pub proof fn lemma_symbol_text_is_encoded(e: Expr, table: Seq<(Seq<u8>, Seq<char>)>)
    requires
        e is Symbol || e is Boolean,
    ensures
        wxf_body(e) == seq![115u8] + framed(encode_utf8(notation(e, table))),
{
}

/// An integer is shown in decimal whatever variant holds it, and the tag of
/// its bytes is that of the smallest variant whose range holds it.
pub proof fn lemma_integer_text_and_tag(v: int, table: Seq<(Seq<u8>, Seq<char>)>)
    ensures
        notation(narrowed(v), table) == decimal_text(v),
        wxf_body(narrowed(v))[0] == if -0x80 <= v <= 0x7f {
            67u8
        } else if -0x8000 <= v <= 0x7fff {
            106u8
        } else if -0x8000_0000 <= v <= 0x7fff_ffff {
            105u8
        } else if -0x8000_0000_0000_0000 <= v <= 0x7fff_ffff_ffff_ffff {
            76u8
        } else {
            73u8
        },
{
}

} // verus!
