//! The mapping that a sequence of entries stands for, and the law that makes
//! the ascending sequence of a mapping unique.

use crate::associations::{ascending, key_before, WolframRule};
use crate::model::{order_expr, Entry, Expr, KeyOrder};
use crate::order::{lemma_order_expr_equal, lemma_order_expr_flip, lemma_order_expr_transitive};
use vstd::prelude::*;

verus! {

/// The mapping that a sequence of entries stands for: each key is tied to
/// the relation and value of the last entry that holds it.
pub open spec fn entry_map(entries: Seq<Entry>) -> Map<Expr, (WolframRule, Expr)>
    decreases entries.len(),
{
    if entries.len() == 0 {
        Map::empty()
    } else {
        entry_map(entries.drop_last()).insert(
            entries.last().key,
            (entries.last().rule, entries.last().value),
        )
    }
}

/// A key lies in the mapping exactly when some entry holds it.
pub proof fn lemma_entry_map_domain(entries: Seq<Entry>, key: Expr)
    ensures
        entry_map(entries).dom().contains(key) <==> exists|i: int|
            0 <= i < entries.len() && (#[trigger] entries[i]).key == key,
    decreases entries.len(),
{
    if entries.len() > 0 {
        let init = entries.drop_last();
        lemma_entry_map_domain(init, key);
        if entry_map(entries).dom().contains(key) {
            if entries.last().key == key {
                assert(entries[entries.len() - 1].key == key);
            } else {
                let i = choose|i: int| 0 <= i < init.len() && (#[trigger] init[i]).key == key;
                assert(entries[i].key == key);
            }
        }
        if exists|i: int| 0 <= i < entries.len() && (#[trigger] entries[i]).key == key {
            let i = choose|i: int| 0 <= i < entries.len() && (#[trigger] entries[i]).key == key;
            if i < init.len() {
                assert(init[i].key == key);
            }
        }
    }
}

/// Ascending entries hold each key once.
pub proof fn lemma_ascending_distinct(entries: Seq<Entry>, i: int, j: int)
    requires
        ascending(entries),
        0 <= i < entries.len(),
        0 <= j < entries.len(),
        entries[i].key == entries[j].key,
    ensures
        i == j,
{
    lemma_order_expr_equal(entries[i].key, entries[j].key);
    if i < j {
        assert(key_before(entries, i, j));
    } else if j < i {
        assert(key_before(entries, j, i));
    }
}

/// Ascending entries without their last entry are ascending.
proof fn lemma_ascending_prefix(entries: Seq<Entry>)
    requires
        ascending(entries),
        entries.len() > 0,
    ensures
        ascending(entries.drop_last()),
{
    let init = entries.drop_last();
    assert forall|x: int, y: int| 0 <= x < y < init.len() implies #[trigger] key_before(
        init,
        x,
        y,
    ) by {
        assert(key_before(entries, x, y));
    }
}

/// In the mapping of ascending entries, the key of each entry is tied to
/// that entry's relation and value.
pub proof fn lemma_entry_map_lookup(entries: Seq<Entry>, i: int)
    requires
        ascending(entries),
        0 <= i < entries.len(),
    ensures
        entry_map(entries).dom().contains(entries[i].key),
        entry_map(entries)[entries[i].key] == (entries[i].rule, entries[i].value),
    decreases entries.len(),
{
    let init = entries.drop_last();
    if i < entries.len() - 1 {
        lemma_ascending_prefix(entries);
        lemma_entry_map_lookup(init, i);
        assert(init[i] == entries[i]);
        if entries[i].key == entries.last().key {
            lemma_ascending_distinct(entries, i, entries.len() - 1);
        }
    }
}

/// Ascending entries without their last entry are ascending, do not hold its
/// key, and stand for the mapping without that key.
proof fn lemma_drop_last(entries: Seq<Entry>)
    requires
        ascending(entries),
        entries.len() > 0,
    ensures
        ascending(entries.drop_last()),
        entry_map(entries.drop_last()) == entry_map(entries).remove(entries.last().key),
{
    let init = entries.drop_last();
    lemma_ascending_prefix(entries);
    lemma_entry_map_domain(init, entries.last().key);
    if entry_map(init).dom().contains(entries.last().key) {
        let i = choose|i: int| 0 <= i < init.len() && (#[trigger] init[i]).key == entries.last().key;
        assert(init[i] == entries[i]);
        lemma_ascending_distinct(entries, i, entries.len() - 1);
    }
    assert(entry_map(init) =~= entry_map(entries).remove(entries.last().key));
}

/// The last of ascending entries holds the greatest key.
proof fn lemma_last_is_greatest(entries: Seq<Entry>, i: int)
    requires
        ascending(entries),
        0 <= i < entries.len(),
    ensures
        order_expr(entries[i].key, entries.last().key) != KeyOrder::Greater,
{
    if i == entries.len() - 1 {
        lemma_order_expr_equal(entries[i].key, entries.last().key);
    } else {
        assert(key_before(entries, i, entries.len() - 1));
    }
}

/// A mapping has one ascending sequence of entries: two ascending sequences
/// that stand for the same mapping are the same sequence.
pub proof fn lemma_canonical_entries(a: Seq<Entry>, b: Seq<Entry>)
    requires
        ascending(a),
        ascending(b),
        entry_map(a) == entry_map(b),
    ensures
        a == b,
    decreases a.len(),
{
    if a.len() == 0 {
        if b.len() > 0 {
            lemma_entry_map_lookup(b, 0);
        }
        assert(a =~= b);
    } else if b.len() == 0 {
        lemma_entry_map_lookup(a, 0);
    } else {
        let la = a.len() - 1;
        let lb = b.len() - 1;
        lemma_entry_map_lookup(a, la);
        lemma_entry_map_lookup(b, lb);
        lemma_entry_map_domain(a, b[lb].key);
        lemma_entry_map_domain(b, a[la].key);
        let i = choose|i: int| 0 <= i < a.len() && (#[trigger] a[i]).key == b[lb].key;
        let j = choose|j: int| 0 <= j < b.len() && (#[trigger] b[j]).key == a[la].key;
        lemma_last_is_greatest(a, i);
        lemma_last_is_greatest(b, j);
        lemma_order_expr_flip(a[la].key, b[lb].key);
        lemma_order_expr_equal(a[la].key, b[lb].key);
        assert(a[la].key == b[lb].key);
        assert(a[la] == b[lb]);
        lemma_drop_last(a);
        lemma_drop_last(b);
        lemma_canonical_entries(a.drop_last(), b.drop_last());
        assert(a =~= a.drop_last().push(a[la]));
        assert(b =~= b.drop_last().push(b[lb]));
    }
}

/// Tells whether an entry may stand at a position of ascending entries:
/// after the smaller keys and before the greater.
pub open spec fn fits_at(entries: Seq<Entry>, i: int, e: Entry) -> bool {
    &&& 0 <= i <= entries.len()
    &&& forall|j: int| 0 <= j < i ==> #[trigger] key_before(entries.push(e), j, entries.len() as int)
    &&& i < entries.len() ==> order_expr(e.key, entries[i].key) == KeyOrder::Less
}

proof fn lemma_insert_ascending(entries: Seq<Entry>, i: int, e: Entry)
    requires
        ascending(entries),
        fits_at(entries, i, e),
    ensures
        ascending(entries.insert(i, e)),
{
    let n = entries.insert(i, e);
    let last = entries.len() as int;
    assert forall|x: int, y: int| 0 <= x < y < n.len() implies #[trigger] key_before(n, x, y) by {
        if y < i {
            assert(key_before(entries, x, y));
        } else if y == i {
            assert(key_before(entries.push(e), x, last));
        } else if x == i {
            if y - 1 > i {
                assert(key_before(entries, i, y - 1));
                lemma_order_expr_transitive(e.key, entries[i].key, entries[y - 1].key);
            }
        } else if x < i {
            assert(key_before(entries, x, y - 1));
        } else {
            assert(key_before(entries, x - 1, y - 1));
        }
    }
}

proof fn lemma_insert_domain(entries: Seq<Entry>, i: int, e: Entry, k: Expr)
    requires
        0 <= i <= entries.len(),
    ensures
        entry_map(entries.insert(i, e)).dom().contains(k) <==> (k == e.key || entry_map(
            entries,
        ).dom().contains(k)),
{
    let n = entries.insert(i, e);
    lemma_entry_map_domain(n, k);
    lemma_entry_map_domain(entries, k);
    if entry_map(n).dom().contains(k) && k != e.key {
        let x = choose|x: int| 0 <= x < n.len() && (#[trigger] n[x]).key == k;
        if x < i {
            assert(entries[x].key == k);
        } else {
            assert(entries[x - 1].key == k);
        }
    }
    if entry_map(entries).dom().contains(k) {
        let x = choose|x: int| 0 <= x < entries.len() && (#[trigger] entries[x]).key == k;
        if x < i {
            assert(n[x].key == k);
        } else {
            assert(n[x + 1].key == k);
        }
    }
    if k == e.key {
        assert(n[i].key == k);
    }
}

proof fn lemma_insert_value(entries: Seq<Entry>, i: int, e: Entry, k: Expr)
    requires
        ascending(entries),
        ascending(entries.insert(i, e)),
        0 <= i <= entries.len(),
        entry_map(entries.insert(i, e)).dom().contains(k),
    ensures
        entry_map(entries.insert(i, e))[k] == entry_map(entries).insert(
            e.key,
            (e.rule, e.value),
        )[k],
{
    let n = entries.insert(i, e);
    lemma_entry_map_domain(n, k);
    let x = choose|x: int| 0 <= x < n.len() && (#[trigger] n[x]).key == k;
    lemma_entry_map_lookup(n, x);
    if x != i {
        if k == e.key {
            lemma_ascending_distinct(n, x, i);
        }
        if x < i {
            lemma_entry_map_lookup(entries, x);
        } else {
            lemma_entry_map_lookup(entries, x - 1);
        }
    }
}

/// Putting an entry between ascending entries, after the smaller keys and
/// before the greater, keeps them ascending and adds its key to the mapping.
pub proof fn lemma_insert_entry(entries: Seq<Entry>, i: int, e: Entry)
    requires
        ascending(entries),
        fits_at(entries, i, e),
    ensures
        ascending(entries.insert(i, e)),
        entry_map(entries.insert(i, e)) == entry_map(entries).insert(e.key, (e.rule, e.value)),
{
    lemma_insert_ascending(entries, i, e);
    let m1 = entry_map(entries.insert(i, e));
    let m2 = entry_map(entries).insert(e.key, (e.rule, e.value));
    assert forall|k: Expr| m1.dom().contains(k) <==> m2.dom().contains(k) by {
        lemma_insert_domain(entries, i, e, k);
    }
    assert forall|k: Expr| m1.dom().contains(k) implies m1[k] == m2[k] by {
        lemma_insert_value(entries, i, e, k);
    }
    assert(m1 =~= m2);
}

/// Replacing an entry of ascending entries by one with the same key keeps
/// them ascending and ties the key to the new relation and value.
pub proof fn lemma_replace_entry(entries: Seq<Entry>, i: int, e: Entry)
    requires
        ascending(entries),
        0 <= i < entries.len(),
        entries[i].key == e.key,
    ensures
        ascending(entries.update(i, e)),
        entry_map(entries.update(i, e)) == entry_map(entries).insert(e.key, (e.rule, e.value)),
{
    let n = entries.update(i, e);
    assert forall|x: int, y: int| 0 <= x < y < n.len() implies #[trigger] key_before(n, x, y) by {
        assert(key_before(entries, x, y));
    }
    let m1 = entry_map(n);
    let m2 = entry_map(entries).insert(e.key, (e.rule, e.value));
    lemma_entry_map_lookup(n, i);
    assert forall|k: Expr| m1.dom().contains(k) <==> m2.dom().contains(k) by {
        lemma_entry_map_domain(n, k);
        lemma_entry_map_domain(entries, k);
        if m1.dom().contains(k) {
            let x = choose|x: int| 0 <= x < n.len() && (#[trigger] n[x]).key == k;
            assert(entries[x].key == k);
        }
        if m2.dom().contains(k) && k != e.key {
            let x = choose|x: int| 0 <= x < entries.len() && (#[trigger] entries[x]).key == k;
            assert(n[x].key == k);
        } else if k == e.key {
            assert(n[i].key == k);
        }
    }
    assert forall|k: Expr| m1.dom().contains(k) implies m1[k] == m2[k] by {
        lemma_entry_map_domain(n, k);
        let x = choose|x: int| 0 <= x < n.len() && (#[trigger] n[x]).key == k;
        lemma_entry_map_lookup(n, x);
        if x != i {
            lemma_entry_map_lookup(entries, x);
            if k == e.key {
                lemma_ascending_distinct(n, x, i);
            }
        }
    }
    assert(m1 =~= m2);
}

/// The number of leading entries whose key comes before the given key.
pub open spec fn first_not_smaller(entries: Seq<Entry>, key: Expr) -> int
    decreases entries.len(),
{
    if entries.len() == 0 {
        0
    } else if order_expr(entries[0].key, key) == KeyOrder::Less {
        1 + first_not_smaller(entries.drop_first(), key)
    } else {
        0
    }
}

/// Ascending entries with one more entry: it replaces the entry with its
/// key, or else stands after the smaller keys.
pub open spec fn placed(entries: Seq<Entry>, e: Entry) -> Seq<Entry> {
    let i = first_not_smaller(entries, e.key);
    if i < entries.len() && entries[i].key == e.key {
        entries.update(i, e)
    } else {
        entries.insert(i, e)
    }
}

/// The ascending entries of the mapping that a sequence of entries stands
/// for.
#[verifier::opaque]
pub open spec fn canonical_of(entries: Seq<Entry>) -> Seq<Entry>
    decreases entries.len(),
{
    if entries.len() == 0 {
        Seq::empty()
    } else {
        placed(canonical_of(entries.drop_last()), entries.last())
    }
}

/// The position before which all keys are smaller, and at which the key is
/// not, is the number of leading smaller keys.
pub proof fn lemma_first_not_smaller(entries: Seq<Entry>, key: Expr, i: int)
    requires
        0 <= i <= entries.len(),
        forall|j: int| 0 <= j < i ==> order_expr((#[trigger] entries[j]).key, key) == KeyOrder::Less,
        i < entries.len() ==> order_expr(entries[i].key, key) != KeyOrder::Less,
    ensures
        first_not_smaller(entries, key) == i,
    decreases entries.len(),
{
    if entries.len() > 0 && i > 0 {
        let rest = entries.drop_first();
        assert forall|j: int| 0 <= j < i - 1 implies order_expr((#[trigger] rest[j]).key, key)
            == KeyOrder::Less by {
            assert(rest[j] == entries[j + 1]);
        }
        lemma_first_not_smaller(rest, key, i - 1);
    }
}

/// Before the position that `first_not_smaller` gives, all keys are smaller;
/// at it, the key is not.
pub proof fn lemma_first_not_smaller_is_first(entries: Seq<Entry>, key: Expr)
    ensures
        0 <= first_not_smaller(entries, key) <= entries.len(),
        forall|j: int|
            0 <= j < first_not_smaller(entries, key) ==> order_expr(
                (#[trigger] entries[j]).key,
                key,
            ) == KeyOrder::Less,
        first_not_smaller(entries, key) < entries.len() ==> order_expr(
            entries[first_not_smaller(entries, key)].key,
            key,
        ) != KeyOrder::Less,
    decreases entries.len(),
{
    if entries.len() > 0 && order_expr(entries[0].key, key) == KeyOrder::Less {
        let rest = entries.drop_first();
        lemma_first_not_smaller_is_first(rest, key);
        let i = first_not_smaller(entries, key);
        assert forall|j: int| 0 <= j < i implies order_expr((#[trigger] entries[j]).key, key)
            == KeyOrder::Less by {
            if j > 0 {
                assert(rest[j - 1] == entries[j]);
            }
        }
        if i < entries.len() {
            assert(rest[i - 1] == entries[i]);
        }
    }
}

/// Placing an entry keeps ascending entries ascending and ties its key to
/// its relation and value, leaving the other keys as they were.
pub proof fn lemma_placed(entries: Seq<Entry>, e: Entry)
    requires
        ascending(entries),
    ensures
        ascending(placed(entries, e)),
        entry_map(placed(entries, e)) == entry_map(entries).insert(e.key, (e.rule, e.value)),
{
    let i = first_not_smaller(entries, e.key);
    lemma_first_not_smaller_is_first(entries, e.key);
    if i < entries.len() && entries[i].key == e.key {
        lemma_replace_entry(entries, i, e);
    } else {
        assert forall|j: int| 0 <= j < i implies #[trigger] key_before(
            entries.push(e),
            j,
            entries.len() as int,
        ) by {
            assert(entries.push(e)[j] == entries[j]);
        }
        if i < entries.len() {
            lemma_order_expr_flip(entries[i].key, e.key);
            lemma_order_expr_equal(entries[i].key, e.key);
        }
        lemma_insert_entry(entries, i, e);
    }
}

/// The canonical entries of a sequence are ascending and stand for the same
/// mapping.
pub proof fn lemma_canonical_of(entries: Seq<Entry>)
    ensures
        ascending(canonical_of(entries)),
        entry_map(canonical_of(entries)) == entry_map(entries),
    decreases entries.len(),
{
    reveal_with_fuel(canonical_of, 2);
    if entries.len() > 0 {
        lemma_canonical_of(entries.drop_last());
        lemma_placed(canonical_of(entries.drop_last()), entries.last());
    }
}

/// The canonical entries of no entries are none; those of a sequence with
/// one more entry are the canonical entries of the sequence with that entry
/// placed.
pub proof fn lemma_canonical_step(entries: Seq<Entry>)
    ensures
        entries.len() == 0 ==> canonical_of(entries) == Seq::<Entry>::empty(),
        entries.len() > 0 ==> canonical_of(entries) == placed(
            canonical_of(entries.drop_last()),
            entries.last(),
        ),
{
    reveal_with_fuel(canonical_of, 2);
}

/// The order in which entries are given does not matter: two sequences of
/// entries that stand for the same mapping have the same canonical entries.
pub proof fn lemma_insertion_order(a: Seq<Entry>, b: Seq<Entry>)
    requires
        entry_map(a) == entry_map(b),
    ensures
        canonical_of(a) == canonical_of(b),
{
    lemma_canonical_of(a);
    lemma_canonical_of(b);
    lemma_canonical_entries(canonical_of(a), canonical_of(b));
}

/// Two entries with different keys may be placed in either order.
pub proof fn lemma_placed_commutes(entries: Seq<Entry>, x: Entry, y: Entry)
    requires
        ascending(entries),
        x.key != y.key,
    ensures
        placed(placed(entries, x), y) == placed(placed(entries, y), x),
{
    lemma_placed(entries, x);
    lemma_placed(entries, y);
    lemma_placed(placed(entries, x), y);
    lemma_placed(placed(entries, y), x);
    let m1 = entry_map(placed(placed(entries, x), y));
    let m2 = entry_map(placed(placed(entries, y), x));
    assert(m1 =~= m2);
    lemma_canonical_entries(placed(placed(entries, x), y), placed(placed(entries, y), x));
}

} // verus!
