//! A matched line and the rank by which matches are ordered.

use crate::item::Item;
use std::cmp::Ordering;
use std::sync::Arc;
use vstd::prelude::*;

verus! {

/// Score, index, start of the match, end of the match.
pub type Rank = [i64; 4];

/// Whether `a` and `b` agree in every slot before slot `k`.
pub open spec fn agree_before(a: Rank, b: Rank, k: int) -> bool {
    forall|j: int| 0 <= j < k ==> a[j] == b[j]
}

/// Whether `a` comes before `b`: in the first slot where they differ, `a`
/// holds the smaller number.
pub open spec fn rank_less(a: Rank, b: Rank) -> bool {
    exists|k: int| 0 <= k < 4 && agree_before(a, b, k) && #[trigger] a[k] < b[k]
}

/// Whether `a` and `b` hold the same number in every slot.
pub open spec fn rank_equal(a: Rank, b: Rank) -> bool {
    agree_before(a, b, 4)
}

/// Of two ranks exactly one holds: the first comes before the second, they
/// are equal, or the second comes before the first.
pub proof fn lemma_rank_order_total(a: Rank, b: Rank)
    ensures
        rank_less(a, b) || rank_equal(a, b) || rank_less(b, a),
        !(rank_less(a, b) && rank_equal(a, b)),
        !(rank_less(b, a) && rank_equal(a, b)),
        !(rank_less(a, b) && rank_less(b, a)),
        rank_equal(a, b) <==> a@ == b@,
{
    if a[0] != b[0] {
        assert(agree_before(a, b, 0) && agree_before(b, a, 0));
        assert(a[0] < b[0] || b[0] < a[0]);
    } else if a[1] != b[1] {
        assert(agree_before(a, b, 1) && agree_before(b, a, 1));
        assert(a[1] < b[1] || b[1] < a[1]);
    } else if a[2] != b[2] {
        assert(agree_before(a, b, 2) && agree_before(b, a, 2));
        assert(a[2] < b[2] || b[2] < a[2]);
    } else if a[3] != b[3] {
        assert(agree_before(a, b, 3) && agree_before(b, a, 3));
        assert(a[3] < b[3] || b[3] < a[3]);
    } else {
        assert(agree_before(a, b, 4));
    }
    if rank_equal(a, b) {
        assert(a@ =~= b@);
    }
    if a@ == b@ {
        assert forall|j: int| 0 <= j < 4 implies a[j] == b[j] by {
            assert(a@[j] == b@[j]);
        }
    }
}

/// No rank comes before itself.
pub proof fn lemma_rank_order_irreflexive(a: Rank)
    ensures
        !rank_less(a, a),
{
}

/// The order of ranks is transitive.
pub proof fn lemma_rank_order_transitive(a: Rank, b: Rank, c: Rank)
    requires
        rank_less(a, b),
        rank_less(b, c),
    ensures
        rank_less(a, c),
{
    let k1 = choose|k: int| 0 <= k < 4 && agree_before(a, b, k) && #[trigger] a[k] < b[k];
    let k2 = choose|k: int| 0 <= k < 4 && agree_before(b, c, k) && #[trigger] b[k] < c[k];
    let k = if k1 <= k2 {
        k1
    } else {
        k2
    };
    assert(agree_before(a, c, k));
    assert(a[k] < c[k]);
}

/// The first slot decides wherever it differs, whatever the other slots
/// hold; among equal first slots the second decides, and so on.
pub proof fn lemma_rank_order_lexicographic(a: Rank, b: Rank)
    ensures
        rank_less(a, b) <==> {
            ||| a[0] < b[0]
            ||| a[0] == b[0] && a[1] < b[1]
            ||| a[0] == b[0] && a[1] == b[1] && a[2] < b[2]
            ||| a[0] == b[0] && a[1] == b[1] && a[2] == b[2] && a[3] < b[3]
        },
{
    if a[0] < b[0] {
        assert(agree_before(a, b, 0) && a[0] < b[0]);
    } else if a[0] == b[0] && a[1] < b[1] {
        assert(agree_before(a, b, 1) && a[1] < b[1]);
    } else if a[0] == b[0] && a[1] == b[1] && a[2] < b[2] {
        assert(agree_before(a, b, 2) && a[2] < b[2]);
    } else if a[0] == b[0] && a[1] == b[1] && a[2] == b[2] && a[3] < b[3] {
        assert(agree_before(a, b, 3) && a[3] < b[3]);
    }
    if rank_less(a, b) {
        let k = choose|k: int| 0 <= k < 4 && agree_before(a, b, k) && #[trigger] a[k] < b[k];
        assert(k == 0 || k == 1 || k == 2 || k == 3);
    }
}

/// The order of two ranks.
pub open spec fn rank_order(a: Rank, b: Rank) -> Ordering {
    if rank_less(a, b) {
        Ordering::Less
    } else if rank_less(b, a) {
        Ordering::Greater
    } else {
        Ordering::Equal
    }
}

/// Compares two ranks slot by slot, the first slot first.
pub fn compare_ranks(a: &Rank, b: &Rank) -> (order: Ordering)
    ensures
        order == rank_order(*a, *b),
        order == Ordering::Less <==> rank_less(*a, *b),
        order == Ordering::Equal <==> rank_equal(*a, *b),
        order == Ordering::Greater <==> rank_less(*b, *a),
{
    proof {
        lemma_rank_order_total(*a, *b);
        lemma_rank_order_lexicographic(*a, *b);
        lemma_rank_order_lexicographic(*b, *a);
    }
    if a[0] != b[0] {
        return if a[0] < b[0] {
            Ordering::Less
        } else {
            Ordering::Greater
        };
    }
    if a[1] != b[1] {
        return if a[1] < b[1] {
            Ordering::Less
        } else {
            Ordering::Greater
        };
    }
    if a[2] != b[2] {
        return if a[2] < b[2] {
            Ordering::Less
        } else {
            Ordering::Greater
        };
    }
    if a[3] != b[3] {
        return if a[3] < b[3] {
            Ordering::Less
        } else {
            Ordering::Greater
        };
    }
    Ordering::Equal
}

/// What of a line was matched, for highlighting.
#[derive(PartialEq, Eq, Clone, Debug)]
pub enum MatchedRange {
    /// A range of bytes.
    ByteRange(usize, usize),
    /// The positions of the characters that matched.
    Chars(Vec<usize>),
}

/// A line that matched, with its rank.
#[derive(Clone, Debug)]
pub struct MatchedItem {
    pub item: Arc<Item>,
    pub rank: Rank,
    pub matched_range: Option<MatchedRange>,
}

impl MatchedItem {
    /// A match of `item` with the zero rank and no matched range.
    pub fn builder(item: Arc<Item>) -> (matched: MatchedItem)
        ensures
            matched.item == item,
            matched.rank@ == seq![0i64, 0i64, 0i64, 0i64],
            matched.matched_range is None,
    {
        MatchedItem { item, rank: [0, 0, 0, 0], matched_range: None }
    }

    /// The same match with `range` as its matched range.
    pub fn matched_range(self, range: MatchedRange) -> (matched: MatchedItem)
        ensures
            matched.item == self.item,
            matched.rank == self.rank,
            matched.matched_range == Some(range),
    {
        MatchedItem { item: self.item, rank: self.rank, matched_range: Some(range) }
    }

    /// The same match with `rank` as its rank; any four numbers will do.
    pub fn rank(self, rank: Rank) -> (matched: MatchedItem)
        ensures
            matched.item == self.item,
            matched.rank == rank,
            matched.matched_range == self.matched_range,
    {
        MatchedItem { item: self.item, rank, matched_range: self.matched_range }
    }

    /// Ends the building: the match as it stands.
    pub fn build(self) -> (matched: MatchedItem)
        ensures
            matched == self,
    {
        self
    }

    /// The order of two matches: that of their ranks, whatever their items
    /// and matched ranges are.
    pub fn compare(&self, other: &MatchedItem) -> (order: Ordering)
        ensures
            order == rank_order(self.rank, other.rank),
            order == Ordering::Less <==> rank_less(self.rank, other.rank),
            order == Ordering::Equal <==> rank_equal(self.rank, other.rank),
            order == Ordering::Greater <==> rank_less(other.rank, self.rank),
    {
        compare_ranks(&self.rank, &other.rank)
    }
}

/// Two matches are equal where their ranks are.
impl PartialEq for MatchedItem {
    fn eq(&self, other: &MatchedItem) -> (equal: bool) {
        match compare_ranks(&self.rank, &other.rank) {
            Ordering::Equal => true,
            _ => false,
        }
    }
}

impl vstd::std_specs::cmp::PartialEqSpecImpl for MatchedItem {
    open spec fn obeys_eq_spec() -> bool {
        true
    }

    open spec fn eq_spec(&self, other: &MatchedItem) -> bool {
        rank_equal(self.rank, other.rank)
    }
}

impl Eq for MatchedItem {

}

/// Matches are ordered as their ranks are.
impl PartialOrd for MatchedItem {
    fn partial_cmp(&self, other: &MatchedItem) -> (order: Option<Ordering>) {
        Some(compare_ranks(&self.rank, &other.rank))
    }
}

impl vstd::std_specs::cmp::PartialOrdSpecImpl for MatchedItem {
    open spec fn obeys_partial_cmp_spec() -> bool {
        true
    }

    open spec fn partial_cmp_spec(&self, other: &MatchedItem) -> Option<Ordering> {
        Some(rank_order(self.rank, other.rank))
    }
}

} // verus!
