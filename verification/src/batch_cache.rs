//! A cache of packed scene batches, one slot per view, bounded by a byte budget.
//!
//! Each slot holds at most one batch, and a filled slot is never replaced.
//! Once the running total of cached bytes would reach the budget, new batches
//! are not admitted and callers rebuild them on every visit.
use std::sync::Arc;
use vstd::prelude::*;

verus! {

/// Cache budget for packed scene batches on native targets: 6 GiB.
pub const CACHE_BUDGET_BYTES: u64 = 6 * 1024 * 1024 * 1024;

/// Sum of a sequence of byte counts.
pub open spec fn total_bytes(sizes: Seq<nat>) -> nat
    decreases sizes.len(),
{
    if sizes.len() == 0 {
        0
    } else {
        total_bytes(sizes.drop_last()) + sizes.last()
    }
}

proof fn lemma_total_bytes_update(sizes: Seq<nat>, i: int, v: nat)
    requires
        0 <= i < sizes.len(),
    ensures
        total_bytes(sizes.update(i, v)) == total_bytes(sizes) - sizes[i] + v,
    decreases sizes.len(),
{
    let updated = sizes.update(i, v);
    if i == sizes.len() - 1 {
        assert(updated.drop_last() =~= sizes.drop_last());
    } else {
        lemma_total_bytes_update(sizes.drop_last(), i, v);
        assert(updated.drop_last() =~= sizes.drop_last().update(i, v));
    }
}

proof fn lemma_total_bytes_zeros(n: nat)
    ensures
        total_bytes(Seq::new(n, |k: int| 0nat)) == 0,
    decreases n,
{
    if n > 0 {
        lemma_total_bytes_zeros((n - 1) as nat);
        assert(Seq::new(n, |k: int| 0nat).drop_last() =~= Seq::new((n - 1) as nat, |k: int| 0nat));
    }
}

/// `Arc::clone` from std: it hands out a second pointer to the same allocation,
/// so the new `Arc` points at the very value that `shared` points at.
#[verifier::external_body]
fn share<T>(shared: &Arc<T>) -> (r: Arc<T>)
    ensures
        r == *shared,
{
    Arc::clone(shared)
}

/// Shared cache of batches, one slot per view.
pub struct BatchCache<T> {
    slots: Vec<Option<Arc<T>>>,
    sizes: Ghost<Seq<nat>>,
    used_bytes: u64,
    budget_bytes: u64,
}

impl<T> BatchCache<T> {
    /// The slots, one per view.
    pub closed spec fn slots(self) -> Seq<Option<Arc<T>>> {
        self.slots@
    }

    /// The byte size that was charged for each slot (zero for an empty slot).
    pub closed spec fn sizes(self) -> Seq<nat> {
        self.sizes@
    }

    /// Bytes currently charged against the budget.
    pub closed spec fn used(self) -> nat {
        self.used_bytes as nat
    }

    /// The byte budget.
    pub closed spec fn budget(self) -> nat {
        self.budget_bytes as nat
    }

    /// Well-formedness: one size per slot, empty slots cost nothing, the
    /// running total is exactly the sum of the charged sizes and stays within
    /// the budget.
    pub closed spec fn wf(self) -> bool {
        &&& self.sizes@.len() == self.slots@.len()
        &&& forall|i: int| 0 <= i < self.slots@.len() && self.slots@[i] is None ==> self.sizes@[i] == 0
        &&& self.used_bytes as nat == total_bytes(self.sizes@)
        &&& self.used_bytes <= self.budget_bytes
    }

    /// Whether `insert` at `index` of a batch of `size` bytes stores it:
    /// the slot is empty and the new total stays strictly below the budget.
    pub open spec fn admits(self, index: int, size: nat) -> bool {
        &&& self.slots()[index] is None
        &&& self.used() + size < self.budget()
    }

    /// What `insert(index, batch, size)` does to a cache: it stores the batch and
    /// charges its size when the cache admits it, and changes nothing otherwise.
    pub open spec fn insert_step(pre: Self, post: Self, index: int, batch: Arc<T>, size: nat) -> bool {
        &&& post.budget() == pre.budget()
        &&& pre.admits(index, size) ==> {
            &&& post.slots() == pre.slots().update(index, Some(batch))
            &&& post.sizes() == pre.sizes().update(index, size)
            &&& post.used() == pre.used() + size
        }
        &&& !pre.admits(index, size) ==> {
            &&& post.slots() == pre.slots()
            &&& post.sizes() == pre.sizes()
            &&& post.used() == pre.used()
        }
    }

    /// An empty cache of `n_views` slots with the native budget.
    pub fn new(n_views: usize) -> (cache: Self)
        ensures
            cache.wf(),
            cache.slots() == Seq::new(n_views as nat, |i: int| None::<Arc<T>>),
            cache.sizes() == Seq::new(n_views as nat, |i: int| 0nat),
            cache.used() == 0,
            cache.budget() == CACHE_BUDGET_BYTES,
    {
        Self::with_budget(n_views, CACHE_BUDGET_BYTES)
    }

    /// An empty cache of `n_views` slots with the given byte budget.
    pub fn with_budget(n_views: usize, budget_bytes: u64) -> (cache: Self)
        ensures
            cache.wf(),
            cache.slots() == Seq::new(n_views as nat, |i: int| None::<Arc<T>>),
            cache.sizes() == Seq::new(n_views as nat, |i: int| 0nat),
            cache.used() == 0,
            cache.budget() == budget_bytes,
    {
        let mut slots: Vec<Option<Arc<T>>> = Vec::new();
        let mut k: usize = 0;
        while k < n_views
            invariant
                k <= n_views,
                slots@ == Seq::new(k as nat, |i: int| None::<Arc<T>>),
            decreases n_views - k,
        {
            slots.push(None);
            k = k + 1;
        }
        proof {
            lemma_total_bytes_zeros(n_views as nat);
        }
        BatchCache {
            slots,
            sizes: Ghost(Seq::new(n_views as nat, |i: int| 0nat)),
            used_bytes: 0,
            budget_bytes,
        }
    }

    /// The batch cached for view `index`, if any.
    pub fn get(&self, index: usize) -> (r: Option<Arc<T>>)
        requires
            index < self.slots().len(),
        ensures
            r == self.slots()[index as int],
    {
        match &self.slots[index] {
            Some(batch) => Some(share(batch)),
            None => None,
        }
    }

    /// Offers `batch`, whose packed image takes `size_bytes` bytes, for view
    /// `index`. A filled slot is left as it is; otherwise the batch is stored
    /// only while the running total plus its size stays below the budget.
    pub fn insert(&mut self, index: usize, batch: Arc<T>, size_bytes: u64)
        requires
            old(self).wf(),
            index < old(self).slots().len(),
        ensures
            final(self).wf(),
            Self::insert_step(*old(self), *final(self), index as int, batch, size_bytes as nat),
            old(self).slots()[index as int] is None && old(self).used() + size_bytes < old(self).budget() ==> {
                &&& final(self).slots()[index as int] == Some(batch)
                &&& final(self).used() == old(self).used() + size_bytes
                &&& final(self).sizes()[index as int] == size_bytes
            },
            !(old(self).slots()[index as int] is None && old(self).used() + size_bytes < old(self).budget()) ==> {
                &&& final(self).slots() == old(self).slots()
                &&& final(self).used() == old(self).used()
            },
    {
        if self.slots[index].is_some() {
            return;
        }
        if size_bytes < self.budget_bytes - self.used_bytes {
            proof {
                lemma_total_bytes_update(self.sizes@, index as int, size_bytes as nat);
            }
            self.slots.set(index, Some(batch));
            self.used_bytes = self.used_bytes + size_bytes;
            proof {
                self.sizes@ = self.sizes@.update(index as int, size_bytes as nat);
            }
        }
    }

    /// Bytes currently charged against the budget.
    pub fn used_bytes(&self) -> (r: u64)
        ensures
            r == self.used(),
    {
        self.used_bytes
    }

    /// The byte budget.
    pub fn budget_bytes(&self) -> (r: u64)
        ensures
            r == self.budget(),
    {
        self.budget_bytes
    }
}

/// The byte accounting of a well-formed cache is exact: the bytes in use are
/// the sum of the sizes charged for the cached batches, an empty slot is
/// charged nothing, and the total never exceeds the budget.
pub proof fn lemma_cache_accounting<T>(cache: BatchCache<T>)
    requires
        cache.wf(),
    ensures
        cache.used() == total_bytes(cache.sizes()),
        cache.sizes().len() == cache.slots().len(),
        forall|i: int| 0 <= i < cache.slots().len() && cache.slots()[i] is None ==> cache.sizes()[i] == 0,
        cache.used() <= cache.budget(),
{
}

/// A filled slot is never replaced or emptied by `insert`, whatever is offered.
pub proof fn lemma_filled_slot_stays<T>(pre: BatchCache<T>, post: BatchCache<T>, index: int, batch: Arc<T>, size: nat, j: int)
    requires
        pre.wf(),
        0 <= index < pre.slots().len(),
        BatchCache::insert_step(pre, post, index, batch, size),
        0 <= j < pre.slots().len(),
        pre.slots()[j] is Some,
    ensures
        post.slots()[j] == pre.slots()[j],
        post.sizes()[j] == pre.sizes()[j],
{
}

/// Read after write: when `insert` admits a batch, `get` at that index then
/// returns it, and every other slot is as it was.
pub proof fn lemma_insert_then_get<T>(pre: BatchCache<T>, post: BatchCache<T>, index: int, batch: Arc<T>, size: nat)
    requires
        pre.wf(),
        0 <= index < pre.slots().len(),
        BatchCache::insert_step(pre, post, index, batch, size),
        pre.admits(index, size),
    ensures
        post.slots()[index] == Some(batch),
        forall|j: int| 0 <= j < pre.slots().len() && j != index ==> post.slots()[j] == pre.slots()[j],
{
}

/// Exact charging: when `insert` stores a batch in an empty slot, the bytes
/// in use grow by exactly the batch's size, that size is what the slot is
/// charged, and the slot then holds the batch. When it stores nothing, the
/// bytes in use do not change. Either way the total is never above the budget.
pub proof fn lemma_insert_charges_exact_size<T>(
    pre: BatchCache<T>,
    post: BatchCache<T>,
    index: int,
    batch: Arc<T>,
    size: nat,
)
    requires
        pre.wf(),
        post.wf(),
        0 <= index < pre.slots().len(),
        BatchCache::insert_step(pre, post, index, batch, size),
    ensures
        pre.slots()[index] is None && pre.used() + size < pre.budget() ==> {
            &&& post.used() == pre.used() + size
            &&& post.sizes()[index] == size
            &&& post.slots()[index] == Some(batch)
            &&& post.used() == total_bytes(post.sizes())
        },
        !(pre.slots()[index] is None && pre.used() + size < pre.budget()) ==> post.used() == pre.used(),
        post.used() <= post.budget(),
        post.budget() == pre.budget(),
{
}

/// An admitted batch leaves the total strictly below the budget, and a
/// batch that would reach the budget is turned away without any change.
pub proof fn lemma_budget_respected<T>(pre: BatchCache<T>, post: BatchCache<T>, index: int, batch: Arc<T>, size: nat)
    requires
        pre.wf(),
        0 <= index < pre.slots().len(),
        BatchCache::insert_step(pre, post, index, batch, size),
        pre.slots()[index] is None,
    ensures
        pre.used() + size < pre.budget() ==> post.used() < post.budget() && post.slots()[index] == Some(batch),
        pre.used() + size >= pre.budget() ==> post.slots() == pre.slots() && post.used() == pre.used(),
{
}

} // verus!
