//! Associations: key-unique mappings whose entries stand in ascending key
//! order, so that equal mappings have equal encodings.

use crate::canonical::{
    entry_map, lemma_first_not_smaller, lemma_insert_entry, lemma_placed, lemma_replace_entry,
    placed,
};
use crate::compare::{compare_pairs, compare_values};
use crate::model::{order_entries, order_expr, Entry, Expr, KeyOrder};
use crate::order::{lemma_order_expr_equal, lemma_order_expr_flip};
use crate::value::{WolframPair, WolframValue};
use vstd::prelude::*;

verus! {

/// The relation that ties a key to its value inside an association.
#[derive(Copy, Clone, Debug, PartialEq, Eq, Structural)]
pub enum WolframRule {
    /// The immediate relation, written `->`.
    Rule,
    /// The delayed relation, written `:>`.
    RuleDelayed,
}

impl WolframRule {
    /// The tag byte that stands for this relation in the binary format.
    pub open spec fn tag(self) -> u8 {
        match self {
            WolframRule::Rule => 45u8,
            WolframRule::RuleDelayed => 58u8,
        }
    }

    /// Returns the tag byte of the relation: `-` for `Rule`, `:` for `RuleDelayed`.
    pub fn as_byte(&self) -> (b: u8)
        ensures
            b == self.tag(),
    {
        match self {
            WolframRule::Rule => 45u8,
            WolframRule::RuleDelayed => 58u8,
        }
    }
}

/// Tells whether the key at one position comes before the key at another.
pub open spec fn key_before(entries: Seq<Entry>, i: int, j: int) -> bool {
    order_expr(entries[i].key, entries[j].key) == KeyOrder::Less
}

/// Entries are canonical when their keys strictly ascend.
pub open spec fn ascending(entries: Seq<Entry>) -> bool {
    forall|i: int, j: int| 0 <= i < j < entries.len() ==> #[trigger] key_before(entries, i, j)
}

/// The entries that a sequence of pairs stands for.
pub open spec fn entries_of(pairs: Seq<WolframPair>) -> Seq<Entry> {
    Seq::new(pairs.len(), |i: int| pairs[i].model())
}

/// Tells whether the key at a position comes before the given key.
pub open spec fn smaller_key(entries: Seq<Entry>, j: int, key: Expr) -> bool {
    order_expr(entries[j].key, key) == KeyOrder::Less
}

/// Finds the place of a key among pairs: the first position whose key is not
/// smaller, and whether that position holds the key itself.
fn locate(pairs: &Vec<WolframPair>, key: &WolframValue) -> (r: (usize, bool))
    ensures
        r.0 <= pairs@.len(),
        forall|j: int| 0 <= j < r.0 ==> #[trigger] smaller_key(entries_of(pairs@), j, key@),
        r.1 ==> r.0 < pairs@.len() && pairs@[r.0 as int].key@ == key@,
        !r.1 && r.0 < pairs@.len() ==> order_expr(key@, pairs@[r.0 as int].key@)
            == KeyOrder::Less,
{
    let mut i: usize = 0;
    while i < pairs.len()
        invariant
            i <= pairs@.len(),
            forall|j: int| 0 <= j < i ==> #[trigger] smaller_key(entries_of(pairs@), j, key@),
        decreases pairs@.len() - i,
    {
        let step = compare_values(key, &pairs[i].key);
        proof {
            lemma_order_expr_flip(key@, pairs@[i as int].key@);
            lemma_order_expr_equal(key@, pairs@[i as int].key@);
        }
        match step {
            KeyOrder::Greater => {
                assert(smaller_key(entries_of(pairs@), i as int, key@));
            },
            KeyOrder::Equal => {
                return (i, true);
            },
            KeyOrder::Less => {
                return (i, false);
            },
        }
        i += 1;
    }
    (i, false)
}

/// A key-unique mapping from values to values.
#[derive(Debug, PartialEq, Eq)]
pub struct WolframAssociation {
    pairs: Vec<WolframPair>,
}

impl WolframAssociation {
    #[verifier::type_invariant]
    spec fn well_formed(self) -> bool {
        ascending(self.entries())
    }

    /// The entries, in ascending key order.
    pub closed spec fn entries(&self) -> Seq<Entry>
        decreases self,
    {
        Seq::new(
            self.pairs@.len(),
            |i: int|
                if 0 <= i < self.pairs@.len() {
                    Entry {
                        key: self.pairs@[i].key.model(),
                        rule: self.pairs@[i].rule,
                        value: self.pairs@[i].value.model(),
                    }
                } else {
                    arbitrary()
                },
        )
    }

    /// The mapping from each key to its relation and value.
    pub open spec fn mapping(&self) -> Map<Expr, (WolframRule, Expr)> {
        entry_map(self.entries())
    }

    /// The association without entries.
    pub fn new() -> (r: WolframAssociation)
        ensures
            r.entries() == Seq::<Entry>::empty(),
    {
        let r = WolframAssociation { pairs: Vec::new() };
        assert(r.entries() =~= Seq::<Entry>::empty());
        r
    }

    /// The number of entries, whose keys strictly ascend.
    pub fn len(&self) -> (n: usize)
        ensures
            n == self.entries().len(),
            ascending(self.entries()),
    {
        proof {
            use_type_invariant(self);
        }
        self.pairs.len()
    }

    /// The entry at a position of the ascending key order.
    pub fn get(&self, i: usize) -> (p: &WolframPair)
        requires
            i < self.entries().len(),
        ensures
            p.model() == self.entries()[i as int],
            decreases_to!(self => p),
    {
        &self.pairs[i]
    }

    /// Ties `key` to `rule` and `value`: an entry with that key is replaced,
    /// else the new entry takes its place in the ascending key order.
    pub fn insert(self, key: WolframValue, rule: WolframRule, value: WolframValue) -> (r:
        WolframAssociation)
        ensures
            r.entries() == placed(self.entries(), Entry { key: key@, rule, value: value@ }),
            r.mapping() == self.mapping().insert(key@, (rule, value@)),
    {
        proof {
            use_type_invariant(&self);
            lemma_placed(self.entries(), Entry { key: key@, rule, value: value@ });
        }
        let ghost before = self.entries();
        assert(before =~= entries_of(self.pairs@));
        let mut pairs = self.pairs;
        let (i, found) = locate(&pairs, &key);
        proof {
            assert forall|j: int| 0 <= j < i implies order_expr(
                (#[trigger] before[j]).key,
                key@,
            ) == KeyOrder::Less by {
                assert(smaller_key(before, j, key@));
            }
            if i < before.len() {
                lemma_order_expr_flip(key@, before[i as int].key);
                lemma_order_expr_equal(key@, before[i as int].key);
            }
            lemma_first_not_smaller(before, key@, i as int);
        }
        let pair = WolframPair { rule, key, value };
        let ghost e = pair.model();
        if found {
            proof {
                lemma_replace_entry(before, i as int, e);
            }
            pairs.set(i, pair);
            assert(entries_of(pairs@) =~= before.update(i as int, e));
        } else {
            proof {
                assert forall|j: int| 0 <= j < i implies #[trigger] key_before(
                    before.push(e),
                    j,
                    before.len() as int,
                ) by {
                    assert(smaller_key(before, j, e.key));
                }
                lemma_insert_entry(before, i as int, e);
            }
            pairs.insert(i, pair);
            assert(entries_of(pairs@) =~= before.insert(i as int, e));
        }
        assert((WolframAssociation { pairs }).entries() =~= entries_of(pairs@));
        WolframAssociation { pairs }
    }

    /// A copy of the association.
    pub fn duplicate(&self) -> (r: WolframAssociation)
        ensures
            r.entries() == self.entries(),
        decreases self,
    {
        proof {
            use_type_invariant(self);
        }
        assert(self.entries() =~= entries_of(self.pairs@));
        let mut pairs: Vec<WolframPair> = Vec::new();
        let mut i: usize = 0;
        while i < self.pairs.len()
            invariant
                i <= self.pairs@.len(),
                pairs@.len() == i,
                forall|j: int| 0 <= j < i ==> pairs@[j].model() == self.pairs@[j].model(),
            decreases self.pairs@.len() - i,
        {
            let p = &self.pairs[i];
            pairs.push(
                WolframPair { rule: p.rule, key: p.key.duplicate(), value: p.value.duplicate() },
            );
            i += 1;
        }
        assert(entries_of(pairs@) =~= entries_of(self.pairs@));
        assert((WolframAssociation { pairs }).entries() =~= entries_of(pairs@));
        WolframAssociation { pairs }
    }

    /// The lexicographic order of the entries of two associations.
    pub fn compare(&self, other: &WolframAssociation) -> (r: KeyOrder)
        ensures
            r == order_entries(self.entries(), other.entries()),
        decreases self,
    {
        let ghost ma = self.entries();
        let ghost mb = other.entries();
        let a = &self.pairs;
        let b = &other.pairs;
        let mut i: usize = 0;
        assert(ma.subrange(0, ma.len() as int) =~= ma);
        assert(mb.subrange(0, mb.len() as int) =~= mb);
        while i < a.len() && i < b.len()
            invariant
                i <= a@.len(),
                i <= b@.len(),
                a == &self.pairs,
                b == &other.pairs,
                ma == self.entries(),
                mb == other.entries(),
                order_entries(ma, mb) == order_entries(
                    ma.subrange(i as int, ma.len() as int),
                    mb.subrange(i as int, mb.len() as int),
                ),
            decreases a@.len() - i,
        {
            let ghost ra = ma.subrange(i as int, ma.len() as int);
            let ghost rb = mb.subrange(i as int, mb.len() as int);
            assert(ra.drop_first() =~= ma.subrange(i + 1, ma.len() as int));
            assert(rb.drop_first() =~= mb.subrange(i + 1, mb.len() as int));
            assert(ra[0] == a@[i as int].model() && rb[0] == b@[i as int].model());
            let step = compare_pairs(&a[i], &b[i]);
            if step != KeyOrder::Equal {
                return step;
            }
            i += 1;
        }
        if i < b.len() {
            KeyOrder::Less
        } else if i < a.len() {
            KeyOrder::Greater
        } else {
            KeyOrder::Equal
        }
    }
}

impl Clone for WolframAssociation {
    fn clone(&self) -> (r: WolframAssociation)
        ensures
            r.entries() == self.entries(),
    {
        self.duplicate()
    }
}

} // verus!
