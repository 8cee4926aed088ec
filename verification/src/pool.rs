//! The pool through which lines reach the matcher: lines are appended as they
//! arrive, and each claim hands out those that arrived since the claim
//! before.

use crate::item::Item;
use std::sync::Arc;
use vstd::prelude::*;

verus! {

/// What a pool holds: the items in the order of their arrival, and how many
/// of the first of them were claimed.
pub struct PoolView {
    pub items: Seq<Arc<Item>>,
    pub taken: nat,
}

impl PoolView {
    pub open spec fn wf(self) -> bool {
        self.taken <= self.items.len()
    }

    pub open spec fn empty() -> PoolView {
        PoolView { items: Seq::empty(), taken: 0 }
    }

    /// The pool after `batch` has arrived.
    pub open spec fn append(self, batch: Seq<Arc<Item>>) -> PoolView {
        PoolView { items: self.items + batch, taken: self.taken }
    }

    /// The items that a claim hands out: those that no claim has handed out.
    pub open spec fn unclaimed(self) -> Seq<Arc<Item>> {
        self.items.subrange(self.taken as int, self.items.len() as int)
    }

    /// The pool after a claim.
    pub open spec fn take(self) -> PoolView {
        PoolView { items: self.items, taken: self.items.len() }
    }

    /// The pool with every item on offer again.
    pub open spec fn reset(self) -> PoolView {
        PoolView { items: self.items, taken: 0 }
    }

    /// A claim right after a claim hands out nothing.
    pub proof fn lemma_take_twice(self)
        requires
            self.wf(),
        ensures
            self.take().wf(),
            self.take().unclaimed() == Seq::<Arc<Item>>::empty(),
    {
        assert(self.take().unclaimed() =~= Seq::<Arc<Item>>::empty());
    }

    /// After a claim, the next claim hands out exactly what was appended in
    /// between, in the order of arrival.
    pub proof fn lemma_take_after_append(self, batch: Seq<Arc<Item>>)
        requires
            self.wf(),
        ensures
            self.take().append(batch).unclaimed() == batch,
    {
        assert(self.take().append(batch).unclaimed() =~= batch);
    }

    /// Claims hand out every item once: what a claim leaves unclaimed after
    /// an append is what was unclaimed before, then the batch.
    pub proof fn lemma_append_keeps_unclaimed(self, batch: Seq<Arc<Item>>)
        requires
            self.wf(),
        ensures
            self.append(batch).wf(),
            self.append(batch).unclaimed() == self.unclaimed() + batch,
    {
        assert(self.append(batch).unclaimed() =~= self.unclaimed() + batch);
    }

    /// After a reset a claim hands out everything that the pool holds, what
    /// was handed out before included.
    pub proof fn lemma_take_after_reset(self)
        requires
            self.wf(),
        ensures
            self.reset().wf(),
            self.reset().unclaimed() == self.items,
            self.reset().items == self.items,
    {
        assert(self.reset().unclaimed() =~= self.items);
    }

    /// A cleared pool holds nothing and a claim on it hands out nothing.
    pub proof fn lemma_take_after_clear()
        ensures
            PoolView::empty().wf(),
            PoolView::empty().items.len() == 0,
            PoolView::empty().unclaimed() == Seq::<Arc<Item>>::empty(),
    {
        assert(PoolView::empty().unclaimed() =~= Seq::<Arc<Item>>::empty());
    }
}

/// `Arc::clone`: another handle to the same item.
#[verifier::external_body]
fn share(item: &Arc<Item>) -> (handle: Arc<Item>)
    ensures
        handle == *item,
{
    Arc::clone(item)
}

/// The room that a new pool has before it must grow.
pub const ITEM_POOL_CAPACITY: usize = 1024;

/// The items that have arrived, with a mark behind the last one claimed.
pub struct ItemPool {
    pool: Vec<Arc<Item>>,
    // number of items that were claimed
    taken: usize,
}

impl View for ItemPool {
    type V = PoolView;

    closed spec fn view(&self) -> PoolView {
        PoolView { items: self.pool@, taken: self.taken as nat }
    }
}

impl ItemPool {
    /// Whether the mark lies within the items.
    pub open spec fn wf(&self) -> bool {
        self@.wf()
    }

    /// An empty pool.
    pub fn new() -> (pool: ItemPool)
        ensures
            pool.wf(),
            pool@ == PoolView::empty(),
    {
        ItemPool { pool: Vec::with_capacity(ITEM_POOL_CAPACITY), taken: 0 }
    }

    /// The number of items in the pool, claimed or not.
    pub fn len(&self) -> (len: usize)
        ensures
            len == self@.items.len(),
    {
        self.pool.len()
    }

    /// Drops every item.
    pub fn clear(&mut self)
        ensures
            final(self).wf(),
            final(self)@ == PoolView::empty(),
    {
        self.pool.clear();
        self.taken = 0;
    }

    /// Puts every item on offer again.
    pub fn reset(&mut self)
        ensures
            final(self).wf(),
            final(self)@ == old(self)@.reset(),
    {
        self.taken = 0;
    }

    /// Moves `items` to the end of the pool, in their order.
    pub fn append(&mut self, items: &mut Vec<Arc<Item>>)
        ensures
            final(self)@ == old(self)@.append(old(items)@),
            old(self).wf() ==> final(self).wf(),
            final(items)@ == Seq::<Arc<Item>>::empty(),
    {
        self.pool.append(items);
    }

    /// Hands out the items that have arrived since the claim before.
    pub fn take(&mut self) -> (claimed: Vec<Arc<Item>>)
        requires
            old(self).wf(),
        ensures
            final(self).wf(),
            final(self)@ == old(self)@.take(),
            claimed@ == old(self)@.unclaimed(),
    {
        let len = self.pool.len();
        let taken = self.taken;
        self.taken = len;
        let mut claimed: Vec<Arc<Item>> = Vec::with_capacity(len - taken);
        let mut i: usize = taken;
        while i < len
            invariant
                taken <= i <= len,
                len == self.pool@.len(),
                claimed@ == self.pool@.subrange(taken as int, i as int),
            decreases len - i,
        {
            claimed.push(share(&self.pool[i]));
            proof {
                assert(self.pool@.subrange(taken as int, i + 1) =~= self.pool@.subrange(
                    taken as int,
                    i as int,
                ).push(self.pool@[i as int]));
            }
            i = i + 1;
        }
        claimed
    }
}

} // verus!
