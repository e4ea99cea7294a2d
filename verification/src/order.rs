//! The laws of the order of values: it is a strict total order, so a set of
//! keys has exactly one ascending sequence.

use crate::model::{
    order_bytes, order_entries, order_entry, order_expr, order_list, order_text, Entry, Expr,
    KeyOrder,
};
use vstd::prelude::*;
use vstd::utf8::{encode_utf8, encode_utf8_decode_utf8};

verus! {

proof fn lemma_split<T>(a: Seq<T>)
    requires
        a.len() > 0,
    ensures
        a =~= seq![a[0]] + a.drop_first(),
{
}

/// Two byte sequences compare equal exactly when they are the same.
pub proof fn lemma_order_bytes_equal(a: Seq<u8>, b: Seq<u8>)
    ensures
        order_bytes(a, b) == KeyOrder::Equal <==> a == b,
    decreases a.len(),
{
    if a.len() > 0 && b.len() > 0 {
        lemma_order_bytes_equal(a.drop_first(), b.drop_first());
        lemma_split(a);
        lemma_split(b);
    } else if a.len() == 0 && b.len() == 0 {
        assert(a =~= b);
    }
}

/// Exchanging the sides of a byte comparison exchanges `Less` and `Greater`.
pub proof fn lemma_order_bytes_flip(a: Seq<u8>, b: Seq<u8>)
    ensures
        order_bytes(b, a) == order_bytes(a, b).flip(),
    decreases a.len(),
{
    if a.len() > 0 && b.len() > 0 {
        lemma_order_bytes_flip(a.drop_first(), b.drop_first());
    }
}

/// The order of byte sequences is transitive.
pub proof fn lemma_order_bytes_transitive(a: Seq<u8>, b: Seq<u8>, c: Seq<u8>)
    requires
        order_bytes(a, b) == KeyOrder::Less,
        order_bytes(b, c) == KeyOrder::Less,
    ensures
        order_bytes(a, c) == KeyOrder::Less,
    decreases a.len(),
{
    if a.len() > 0 && b.len() > 0 && c.len() > 0 {
        let (ta, tb, tc) = (a.drop_first(), b.drop_first(), c.drop_first());
        lemma_order_bytes_equal(ta, tb);
        lemma_order_bytes_equal(tb, tc);
        if order_bytes(ta, tb) == KeyOrder::Less && order_bytes(tb, tc) == KeyOrder::Less {
            lemma_order_bytes_transitive(ta, tb, tc);
        }
    }
}

/// Two texts compare equal exactly when they are the same.
pub proof fn lemma_order_text_equal(a: Seq<char>, b: Seq<char>)
    ensures
        order_text(a, b) == KeyOrder::Equal <==> a == b,
{
    lemma_order_bytes_equal(encode_utf8(a), encode_utf8(b));
    encode_utf8_decode_utf8(a);
    encode_utf8_decode_utf8(b);
}

/// Exchanging the sides of a text comparison exchanges `Less` and `Greater`.
pub proof fn lemma_order_text_flip(a: Seq<char>, b: Seq<char>)
    ensures
        order_text(b, a) == order_text(a, b).flip(),
{
    lemma_order_bytes_flip(encode_utf8(a), encode_utf8(b));
}

/// The order of texts is transitive.
pub proof fn lemma_order_text_transitive(a: Seq<char>, b: Seq<char>, c: Seq<char>)
    requires
        order_text(a, b) == KeyOrder::Less,
        order_text(b, c) == KeyOrder::Less,
    ensures
        order_text(a, c) == KeyOrder::Less,
{
    lemma_order_bytes_transitive(encode_utf8(a), encode_utf8(b), encode_utf8(c));
}

/// Two values compare equal exactly when they are the same value.
pub proof fn lemma_order_expr_equal(a: Expr, b: Expr)
    ensures
        order_expr(a, b) == KeyOrder::Equal <==> a == b,
    decreases a,
{
    if a.rank() == b.rank() {
        match (a, b) {
            (Expr::Function { head: h1, args: r1 }, Expr::Function { head: h2, args: r2 }) => {
                lemma_order_expr_equal(*h1, *h2);
                lemma_order_list_equal(r1, r2);
            },
            (Expr::String(x), Expr::String(y)) => lemma_order_text_equal(x, y),
            (Expr::Bytes(x), Expr::Bytes(y)) => lemma_order_bytes_equal(x, y),
            (
                Expr::Symbol { namespace: n1, name: s1 },
                Expr::Symbol { namespace: n2, name: s2 },
            ) => {
                lemma_order_text_equal(n1, n2);
                lemma_order_text_equal(s1, s2);
            },
            (Expr::Decimal64(x), Expr::Decimal64(y)) => lemma_order_bytes_equal(x, y),
            (Expr::BigDecimal(x), Expr::BigDecimal(y)) => lemma_order_text_equal(x, y),
            (Expr::PackedArray(x), Expr::PackedArray(y)) => lemma_order_list_equal(x, y),
            (Expr::NumericArray(x), Expr::NumericArray(y)) => lemma_order_list_equal(x, y),
            (Expr::Association(x), Expr::Association(y)) => lemma_order_entries_equal(x, y),
            _ => {},
        }
    }
}

/// Two lists of values compare equal exactly when they are the same list.
pub proof fn lemma_order_list_equal(a: Seq<Expr>, b: Seq<Expr>)
    ensures
        order_list(a, b) == KeyOrder::Equal <==> a == b,
    decreases a,
{
    if a.len() > 0 && b.len() > 0 {
        lemma_order_expr_equal(a[0], b[0]);
        lemma_order_list_equal(a.drop_first(), b.drop_first());
        lemma_split(a);
        lemma_split(b);
    } else if a.len() == 0 && b.len() == 0 {
        assert(a =~= b);
    }
}

/// Two entries compare equal exactly when they are the same entry.
pub proof fn lemma_order_entry_equal(a: Entry, b: Entry)
    ensures
        order_entry(a, b) == KeyOrder::Equal <==> a == b,
    decreases a,
{
    lemma_order_expr_equal(a.key, b.key);
    lemma_order_expr_equal(a.value, b.value);
}

/// Two lists of entries compare equal exactly when they are the same list.
pub proof fn lemma_order_entries_equal(a: Seq<Entry>, b: Seq<Entry>)
    ensures
        order_entries(a, b) == KeyOrder::Equal <==> a == b,
    decreases a,
{
    if a.len() > 0 && b.len() > 0 {
        lemma_order_entry_equal(a[0], b[0]);
        lemma_order_entries_equal(a.drop_first(), b.drop_first());
        lemma_split(a);
        lemma_split(b);
    } else if a.len() == 0 && b.len() == 0 {
        assert(a =~= b);
    }
}

/// Exchanging the sides of a comparison exchanges `Less` and `Greater`.
pub proof fn lemma_order_expr_flip(a: Expr, b: Expr)
    ensures
        order_expr(b, a) == order_expr(a, b).flip(),
    decreases a,
{
    if a.rank() == b.rank() {
        match (a, b) {
            (Expr::Function { head: h1, args: r1 }, Expr::Function { head: h2, args: r2 }) => {
                lemma_order_expr_flip(*h1, *h2);
                lemma_order_list_flip(r1, r2);
            },
            (Expr::String(x), Expr::String(y)) => lemma_order_text_flip(x, y),
            (Expr::Bytes(x), Expr::Bytes(y)) => lemma_order_bytes_flip(x, y),
            (
                Expr::Symbol { namespace: n1, name: s1 },
                Expr::Symbol { namespace: n2, name: s2 },
            ) => {
                lemma_order_text_flip(n1, n2);
                lemma_order_text_flip(s1, s2);
            },
            (Expr::Decimal64(x), Expr::Decimal64(y)) => lemma_order_bytes_flip(x, y),
            (Expr::BigDecimal(x), Expr::BigDecimal(y)) => lemma_order_text_flip(x, y),
            (Expr::PackedArray(x), Expr::PackedArray(y)) => lemma_order_list_flip(x, y),
            (Expr::NumericArray(x), Expr::NumericArray(y)) => lemma_order_list_flip(x, y),
            (Expr::Association(x), Expr::Association(y)) => lemma_order_entries_flip(x, y),
            _ => {},
        }
    }
}

/// Exchanging the sides of a list comparison exchanges `Less` and `Greater`.
pub proof fn lemma_order_list_flip(a: Seq<Expr>, b: Seq<Expr>)
    ensures
        order_list(b, a) == order_list(a, b).flip(),
    decreases a,
{
    if a.len() > 0 && b.len() > 0 {
        lemma_order_expr_flip(a[0], b[0]);
        lemma_order_list_flip(a.drop_first(), b.drop_first());
    }
}

/// Exchanging the sides of an entry comparison exchanges `Less` and `Greater`.
pub proof fn lemma_order_entry_flip(a: Entry, b: Entry)
    ensures
        order_entry(b, a) == order_entry(a, b).flip(),
    decreases a,
{
    lemma_order_expr_flip(a.key, b.key);
    lemma_order_expr_flip(a.value, b.value);
}

/// Exchanging the sides of a comparison of entry lists exchanges `Less` and
/// `Greater`.
pub proof fn lemma_order_entries_flip(a: Seq<Entry>, b: Seq<Entry>)
    ensures
        order_entries(b, a) == order_entries(a, b).flip(),
    decreases a,
{
    if a.len() > 0 && b.len() > 0 {
        lemma_order_entry_flip(a[0], b[0]);
        lemma_order_entries_flip(a.drop_first(), b.drop_first());
    }
}

/// The order of values is transitive.
pub proof fn lemma_order_expr_transitive(a: Expr, b: Expr, c: Expr)
    requires
        order_expr(a, b) == KeyOrder::Less,
        order_expr(b, c) == KeyOrder::Less,
    ensures
        order_expr(a, c) == KeyOrder::Less,
    decreases a,
{
    if a.rank() == b.rank() && b.rank() == c.rank() {
        match (a, b, c) {
            (
                Expr::Function { head: h1, args: r1 },
                Expr::Function { head: h2, args: r2 },
                Expr::Function { head: h3, args: r3 },
            ) => {
                lemma_order_expr_equal(*h1, *h2);
                lemma_order_expr_equal(*h2, *h3);
                if order_expr(*h1, *h2) == KeyOrder::Less && order_expr(*h2, *h3)
                    == KeyOrder::Less {
                    lemma_order_expr_transitive(*h1, *h2, *h3);
                }
                if order_list(r1, r2) == KeyOrder::Less && order_list(r2, r3) == KeyOrder::Less {
                    lemma_order_list_transitive(r1, r2, r3);
                }
            },
            (Expr::String(x), Expr::String(y), Expr::String(z)) => {
                lemma_order_text_transitive(x, y, z)
            },
            (Expr::Bytes(x), Expr::Bytes(y), Expr::Bytes(z)) => {
                lemma_order_bytes_transitive(x, y, z)
            },
            (
                Expr::Symbol { namespace: n1, name: s1 },
                Expr::Symbol { namespace: n2, name: s2 },
                Expr::Symbol { namespace: n3, name: s3 },
            ) => {
                lemma_order_text_equal(n1, n2);
                lemma_order_text_equal(n2, n3);
                if order_text(n1, n2) == KeyOrder::Less && order_text(n2, n3) == KeyOrder::Less {
                    lemma_order_text_transitive(n1, n2, n3);
                }
                if order_text(s1, s2) == KeyOrder::Less && order_text(s2, s3) == KeyOrder::Less {
                    lemma_order_text_transitive(s1, s2, s3);
                }
            },
            (Expr::Decimal64(x), Expr::Decimal64(y), Expr::Decimal64(z)) => {
                lemma_order_bytes_transitive(x, y, z)
            },
            (Expr::BigDecimal(x), Expr::BigDecimal(y), Expr::BigDecimal(z)) => {
                lemma_order_text_transitive(x, y, z)
            },
            (Expr::PackedArray(x), Expr::PackedArray(y), Expr::PackedArray(z)) => {
                lemma_order_list_transitive(x, y, z)
            },
            (Expr::NumericArray(x), Expr::NumericArray(y), Expr::NumericArray(z)) => {
                lemma_order_list_transitive(x, y, z)
            },
            (Expr::Association(x), Expr::Association(y), Expr::Association(z)) => {
                lemma_order_entries_transitive(x, y, z)
            },
            _ => {},
        }
    }
}

/// The order of lists of values is transitive.
pub proof fn lemma_order_list_transitive(a: Seq<Expr>, b: Seq<Expr>, c: Seq<Expr>)
    requires
        order_list(a, b) == KeyOrder::Less,
        order_list(b, c) == KeyOrder::Less,
    ensures
        order_list(a, c) == KeyOrder::Less,
    decreases a,
{
    if a.len() > 0 && b.len() > 0 && c.len() > 0 {
        let (ta, tb, tc) = (a.drop_first(), b.drop_first(), c.drop_first());
        lemma_order_expr_equal(a[0], b[0]);
        lemma_order_expr_equal(b[0], c[0]);
        if order_expr(a[0], b[0]) == KeyOrder::Less && order_expr(b[0], c[0]) == KeyOrder::Less {
            lemma_order_expr_transitive(a[0], b[0], c[0]);
        }
        if order_list(ta, tb) == KeyOrder::Less && order_list(tb, tc) == KeyOrder::Less {
            lemma_order_list_transitive(ta, tb, tc);
        }
    }
}

/// The order of entries is transitive.
pub proof fn lemma_order_entry_transitive(a: Entry, b: Entry, c: Entry)
    requires
        order_entry(a, b) == KeyOrder::Less,
        order_entry(b, c) == KeyOrder::Less,
    ensures
        order_entry(a, c) == KeyOrder::Less,
    decreases a,
{
    lemma_order_expr_equal(a.key, b.key);
    lemma_order_expr_equal(b.key, c.key);
    if order_expr(a.key, b.key) == KeyOrder::Less && order_expr(b.key, c.key) == KeyOrder::Less {
        lemma_order_expr_transitive(a.key, b.key, c.key);
    }
    if order_expr(a.value, b.value) == KeyOrder::Less && order_expr(b.value, c.value)
        == KeyOrder::Less {
        lemma_order_expr_transitive(a.value, b.value, c.value);
    }
}

/// The order of lists of entries is transitive.
pub proof fn lemma_order_entries_transitive(a: Seq<Entry>, b: Seq<Entry>, c: Seq<Entry>)
    requires
        order_entries(a, b) == KeyOrder::Less,
        order_entries(b, c) == KeyOrder::Less,
    ensures
        order_entries(a, c) == KeyOrder::Less,
    decreases a,
{
    if a.len() > 0 && b.len() > 0 && c.len() > 0 {
        let (ta, tb, tc) = (a.drop_first(), b.drop_first(), c.drop_first());
        lemma_order_entry_equal(a[0], b[0]);
        lemma_order_entry_equal(b[0], c[0]);
        if order_entry(a[0], b[0]) == KeyOrder::Less && order_entry(b[0], c[0]) == KeyOrder::Less {
            lemma_order_entry_transitive(a[0], b[0], c[0]);
        }
        if order_entries(ta, tb) == KeyOrder::Less && order_entries(tb, tc) == KeyOrder::Less {
            lemma_order_entries_transitive(ta, tb, tc);
        }
    }
}

} // verus!
