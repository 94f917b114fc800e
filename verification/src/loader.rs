//! The decisions of a loader task: which view to load next, and how tasks are
//! seeded.
//!
//! A task walks the views in epochs: at the start of an epoch it shuffles all
//! view indices, then hands them out one by one from the back of the shuffled
//! list, so that within an epoch every view comes exactly once.
use crate::batch_cache::BatchCache;
use crate::rng::{seeded_rng, shuffle_in_place, SeededRng};
use std::sync::Arc;
use vstd::prelude::*;

verus! {

/// Number of loader tasks that share one actor.
pub const TASKS_PER_ACTOR: usize = 2;

/// Number of actors when the available parallelism is unknown.
pub const FALLBACK_ACTORS: usize = 8;

/// The indices `0, 1, .., n - 1` in order.
pub open spec fn view_range(n: nat) -> Seq<usize> {
    Seq::new(n, |k: int| k as usize)
}

/// The set of all view indices below `n`.
pub open spec fn all_views(n: nat) -> Set<usize> {
    Set::new(|v: usize| v < n)
}

/// The shuffled order in which one loader task visits the views.
pub struct ViewOrder {
    n_views: usize,
    shuffled: Vec<usize>,
    rng: SeededRng,
}

impl ViewOrder {
    /// Number of views in the dataset.
    pub closed spec fn views(self) -> nat {
        self.n_views as nat
    }

    /// The views still to be handed out in the current epoch; the next one is
    /// the last.
    pub closed spec fn pending(self) -> Seq<usize> {
        self.shuffled@
    }

    /// The set of views still to be handed out in the current epoch.
    pub open spec fn remaining(self) -> Set<usize> {
        self.pending().to_set()
    }

    /// The seed the order's generator was made from.
    pub closed spec fn seed(self) -> u64 {
        self.rng.seed()
    }

    /// The lists the order's generator has shuffled so far, oldest first.
    pub closed spec fn shuffles(self) -> Seq<Seq<usize>> {
        self.rng.shuffled()
    }

    /// The orders those shuffles produced, oldest first, one per entry of
    /// `shuffles()`.
    pub closed spec fn shuffle_outputs(self) -> Seq<Seq<usize>> {
        self.rng.outputs()
    }

    /// Well-formedness: the pending views are distinct views of the dataset.
    pub open spec fn wf(self) -> bool {
        &&& self.pending().no_duplicates()
        &&& forall|i: int| 0 <= i < self.pending().len() ==> #[trigger] self.pending()[i] < self.views()
    }

    /// What one call of `next_view` does, handing out `view`: with views
    /// pending, it hands out the last one and drops it; with none pending, it
    /// shuffles all views `0..n` once with the order's generator, takes the
    /// order that shuffle produced as the new epoch and hands out its last
    /// view, keeping the others pending. Either way the pending set loses
    /// exactly the view handed out.
    pub open spec fn next_step(pre: Self, post: Self, view: usize) -> bool {
        &&& post.wf()
        &&& post.views() == pre.views()
        &&& post.seed() == pre.seed()
        &&& view < pre.views()
        &&& pre.pending().len() > 0 ==> {
            &&& view == pre.pending().last()
            &&& post.pending() == pre.pending().drop_last()
            &&& post.shuffles() == pre.shuffles()
            &&& post.shuffle_outputs() == pre.shuffle_outputs()
            &&& pre.remaining().contains(view)
            &&& post.remaining() == pre.remaining().remove(view)
        }
        &&& pre.pending().len() == 0 ==> {
            &&& post.pending().push(view).to_multiset() == view_range(pre.views()).to_multiset()
            &&& post.shuffles() == pre.shuffles().push(view_range(pre.views()))
            &&& post.shuffle_outputs() == pre.shuffle_outputs().push(post.pending().push(view))
            &&& post.remaining() == all_views(pre.views()).remove(view)
        }
    }

    /// A fresh order over `n_views` views, seeded with `seed`; the first call
    /// of `next_view` starts the first epoch.
    pub fn new(n_views: usize, seed: u64) -> (order: Self)
        ensures
            order.wf(),
            order.views() == n_views,
            order.pending() == Seq::<usize>::empty(),
            order.seed() == seed,
            order.shuffles() == Seq::<Seq<usize>>::empty(),
            order.shuffle_outputs() == Seq::<Seq<usize>>::empty(),
    {
        ViewOrder { n_views, shuffled: Vec::new(), rng: seeded_rng(seed) }
    }

    /// The next view to load. When the epoch is over, a new one starts with
    /// all views in a fresh random order; the view handed out is the last
    /// pending one.
    pub fn next_view(&mut self) -> (view: usize)
        requires
            old(self).wf(),
            old(self).views() > 0,
        ensures
            Self::next_step(*old(self), *final(self), view),
            view < old(self).views(),
            old(self).pending().len() == 0 ==> {
                &&& final(self).shuffles() == old(self).shuffles().push(view_range(old(self).views()))
                &&& final(self).shuffle_outputs().len() == old(self).shuffle_outputs().len() + 1
                &&& final(self).shuffle_outputs().last() == final(self).pending().push(view)
                &&& final(self).pending().len() + 1 == old(self).views()
            },
            old(self).pending().len() > 0 ==> {
                &&& view == old(self).pending().last()
                &&& final(self).pending() == old(self).pending().drop_last()
                &&& final(self).shuffles() == old(self).shuffles()
                &&& final(self).shuffle_outputs() == old(self).shuffle_outputs()
            },
    {
        let ghost was_empty = self.shuffled@.len() == 0;
        if self.shuffled.len() == 0 {
            self.refill();
        }
        let ghost full = self.shuffled@;
        let view = match self.shuffled.pop() {
            Some(v) => v,
            None => 0,
        };
        proof {
            assert(full.drop_last().push(view) =~= full);
            assert(self.shuffled@ =~= full.drop_last());
            lemma_drop_last_set(full);
            if was_empty {
                assert(full.to_set() =~= all_views(self.n_views as nat)) by {
                    assert forall|v: usize| full.to_set().contains(v) <==> v < self.n_views by {
                        if v < self.n_views {
                            assert(view_range(self.n_views as nat)[v as int] == v);
                            assert(view_range(self.n_views as nat).contains(v));
                            vstd::seq_lib::to_multiset_contains(view_range(self.n_views as nat), v);
                            vstd::seq_lib::to_multiset_contains(full, v);
                        }
                        if full.contains(v) {
                            let k = choose|k: int| 0 <= k < full.len() && full[k] == v;
                            assert(full[k] < self.n_views);
                        }
                    }
                }
            }
        }
        view
    }

    /// Starts a new epoch: all views, shuffled.
    fn refill(&mut self)
        requires
            old(self).views() > 0,
        ensures
            final(self).views() == old(self).views(),
            final(self).pending().to_multiset() == view_range(old(self).views()).to_multiset(),
            final(self).wf(),
            final(self).pending().len() == old(self).views(),
            final(self).seed() == old(self).seed(),
            final(self).shuffles() == old(self).shuffles().push(view_range(old(self).views())),
            final(self).shuffle_outputs() == old(self).shuffle_outputs().push(final(self).pending()),
    {
        let mut all: Vec<usize> = Vec::new();
        let mut k: usize = 0;
        while k < self.n_views
            invariant
                k <= self.n_views,
                all@ == view_range(k as nat),
            decreases self.n_views - k,
        {
            all.push(k);
            k = k + 1;
            proof {
                assert(all@ =~= view_range(k as nat));
            }
        }
        let ghost ordered = all@;
        proof {
            assert(ordered =~= view_range(self.n_views as nat));
        }
        shuffle_in_place(&mut all, &mut self.rng);
        self.shuffled = all;
        proof {
            let n = self.n_views as nat;
            assert(ordered =~= view_range(n));
            assert(ordered.no_duplicates());
            ordered.lemma_multiset_has_no_duplicates();
            self.shuffled@.lemma_multiset_has_no_duplicates_conv();
            vstd::seq_lib::to_multiset_len(ordered);
            vstd::seq_lib::to_multiset_len(self.shuffled@);
            assert forall|i: int| 0 <= i < self.shuffled@.len() implies #[trigger] self.shuffled@[i] < n by {
                let v = self.shuffled@[i];
                assert(self.shuffled@.contains(v));
                vstd::seq_lib::to_multiset_contains(self.shuffled@, v);
                vstd::seq_lib::to_multiset_contains(ordered, v);
                let k = choose|k: int| 0 <= k < ordered.len() && ordered[k] == v;
            }
        }
    }
}

proof fn lemma_drop_last_set(s: Seq<usize>)
    requires
        s.len() > 0,
        s.no_duplicates(),
    ensures
        s.drop_last().to_set() == s.to_set().remove(s.last()),
        s.to_set().contains(s.last()),
{
    assert(s.contains(s.last())) by {
        assert(s[s.len() - 1] == s.last());
    }
    assert forall|v: usize| s.drop_last().to_set().contains(v) <==> s.to_set().remove(s.last()).contains(v) by {
        if s.drop_last().contains(v) {
            let k = choose|k: int| 0 <= k < s.drop_last().len() && s.drop_last()[k] == v;
            assert(s[k] == v);
        }
        if s.contains(v) && v != s.last() {
            let k = choose|k: int| 0 <= k < s.len() && s[k] == v;
            assert(k != s.len() - 1);
            assert(s.drop_last()[k] == v);
        }
    }
    assert(s.drop_last().to_set() =~= s.to_set().remove(s.last()));
}

/// The number of loader actors: the available parallelism when it is known,
/// else a fixed fallback.
pub fn loader_actor_count(available: Option<usize>) -> (n: usize)
    ensures
        n == match available {
            Some(p) => p,
            None => FALLBACK_ACTORS,
        },
{
    match available {
        Some(p) => p,
        None => FALLBACK_ACTORS,
    }
}

/// The seed of the `k`-th loader task (`0 <= k < 2^64`): the loader's seed
/// plus `k`, wrapping around at `2^64`.
pub open spec fn task_seed(seed: u64, k: int) -> u64 {
    if seed + k <= u64::MAX {
        (seed + k) as u64
    } else {
        (seed + k - 0x1_0000_0000_0000_0000int) as u64
    }
}

/// The seeds of the `n_actors * TASKS_PER_ACTOR` loader tasks, in the order in
/// which they are spawned (actor by actor). Distinct tasks get distinct seeds.
pub fn loader_task_seeds(seed: u64, n_actors: usize) -> (seeds: Vec<u64>)
    requires
        n_actors * TASKS_PER_ACTOR <= usize::MAX,
    ensures
        seeds.len() == n_actors * TASKS_PER_ACTOR,
        forall|k: int| 0 <= k < seeds.len() ==> seeds[k] == task_seed(seed, k),
        forall|i: int, j: int| 0 <= i < j < seeds.len() ==> seeds[i] != seeds[j],
{
    let n_tasks: usize = n_actors * TASKS_PER_ACTOR;
    let mut seeds: Vec<u64> = Vec::new();
    let mut task_idx: u64 = 0;
    while seeds.len() < n_tasks
        invariant
            seeds.len() <= n_tasks,
            n_tasks <= usize::MAX,
            task_idx == seeds.len(),
            forall|k: int| 0 <= k < seeds.len() ==> seeds[k] == task_seed(seed, k),
        decreases n_tasks - seeds.len(),
    {
        seeds.push(seed.wrapping_add(task_idx));
        task_idx = task_idx + 1;
    }
    proof {
        assert forall|i: int, j: int| 0 <= i < j < seeds.len() implies seeds[i] != seeds[j] by {
            assert(j <= u64::MAX);
            assert(seeds[i] == task_seed(seed, i));
            assert(seeds[j] == task_seed(seed, j));
        }
    }
    seeds
}

/// A new epoch is one full shuffle: when a call finds no view pending, the
/// generator gets exactly one new shuffle, whose input is the whole list
/// `0, 1, .., n - 1`, and the epoch's order (the views left pending with the
/// handed-out view appended) is exactly what that shuffle produced, so it
/// holds all `n` views. With views pending, no shuffle is made and the last
/// pending view is handed out.
pub proof fn lemma_new_epoch_is_one_full_shuffle(pre: ViewOrder, post: ViewOrder, view: usize)
    requires
        pre.wf(),
        pre.views() > 0,
        ViewOrder::next_step(pre, post, view),
    ensures
        pre.pending().len() == 0 ==> {
            &&& post.shuffles().len() == pre.shuffles().len() + 1
            &&& post.shuffles().last() == view_range(pre.views())
            &&& post.shuffles().last().len() == pre.views()
            &&& post.shuffle_outputs().len() == pre.shuffle_outputs().len() + 1
            &&& post.shuffle_outputs().last() == post.pending().push(view)
            &&& post.pending().len() + 1 == pre.views()
            &&& post.pending().push(view).to_set() == all_views(pre.views())
        },
        pre.pending().len() > 0 ==> {
            &&& post.shuffles() == pre.shuffles()
            &&& post.shuffle_outputs() == pre.shuffle_outputs()
            &&& view == pre.pending().last()
            &&& post.pending() == pre.pending().drop_last()
        },
{
    if pre.pending().len() == 0 {
        let epoch = post.pending().push(view);
        vstd::seq_lib::to_multiset_len(epoch);
        vstd::seq_lib::to_multiset_len(view_range(pre.views()));
        assert forall|v: usize| epoch.to_set().contains(v) <==> all_views(pre.views()).contains(v) by {
            vstd::seq_lib::to_multiset_contains(epoch, v);
            vstd::seq_lib::to_multiset_contains(view_range(pre.views()), v);
            if v < pre.views() {
                assert(view_range(pre.views())[v as int] == v);
            }
            if view_range(pre.views()).contains(v) {
                let t = choose|t: int| 0 <= t < view_range(pre.views()).len() && view_range(pre.views())[t] == v;
            }
        }
        assert(epoch.to_set() =~= all_views(pre.views()));
    }
}

/// `states` and `views` record a run of a loader task: each `states[k + 1]`
/// follows `states[k]` by one call of `next_view` that handed out `views[k]`.
pub open spec fn is_run(states: Seq<ViewOrder>, views: Seq<usize>) -> bool {
    &&& states.len() == views.len() + 1
    &&& forall|k: int| #![trigger views[k]] 0 <= k < views.len() ==> ViewOrder::next_step(states[k], states[k + 1], views[k])
}

/// The `e`-th block of `n` consecutive views of a run.
pub open spec fn epoch_block(views: Seq<usize>, n: nat, e: nat) -> Seq<usize> {
    views.subrange((e * n) as int, ((e + 1) * n) as int)
}

proof fn lemma_epoch_prefix(states: Seq<ViewOrder>, views: Seq<usize>, start: int, n: nat, k: int)
    requires
        is_run(states, views),
        0 <= start,
        1 <= k <= n,
        start + k <= views.len(),
        states[start].pending().len() == 0,
        states[start].views() == n,
    ensures
        states[start + k].views() == n,
        states[start + k].wf(),
        states[start + k].pending().len() == n - k,
        views.subrange(start, start + k).no_duplicates(),
        forall|i: int| 0 <= i < k ==> #[trigger] views[start + i] < n,
        forall|v: usize| v < n ==> (#[trigger] states[start + k].remaining().contains(v) <==> !views.subrange(start, start + k).contains(v)),
    decreases k,
{
    let pre = states[start + k - 1];
    let post = states[start + k];
    let view = views[start + k - 1];
    assert(ViewOrder::next_step(pre, post, view));
    let block = views.subrange(start, start + k);
    if k == 1 {
        vstd::seq_lib::to_multiset_len(post.pending().push(view));
        vstd::seq_lib::to_multiset_len(view_range(n));
        assert(block =~= seq![view]);
        assert forall|v: usize| v < n implies (post.remaining().contains(v) <==> !block.contains(v)) by {
            if block.contains(v) {
                assert(block[0] == v);
            }
            if v == view {
                assert(block[0] == v);
            }
        }
    } else {
        lemma_epoch_prefix(states, views, start, n, k - 1);
        let prev = views.subrange(start, start + k - 1);
        assert(block =~= prev.push(view));
        assert(pre.pending().len() > 0);
        assert(!prev.contains(view));
        assert forall|i: int, j: int| 0 <= i < j < block.len() implies block[i] != block[j] by {
            if j == block.len() - 1 {
                assert(prev[i] == block[i]);
            } else {
                assert(prev[i] == block[i]);
                assert(prev[j] == block[j]);
            }
        }
        assert forall|i: int| 0 <= i < k implies #[trigger] views[start + i] < n by {}
        assert forall|v: usize| v < n implies (post.remaining().contains(v) <==> !block.contains(v)) by {
            if prev.contains(v) {
                let t = choose|t: int| 0 <= t < prev.len() && prev[t] == v;
                assert(block[t] == v);
            }
            if block.contains(v) && v != view {
                let t = choose|t: int| 0 <= t < block.len() && block[t] == v;
                assert(t != block.len() - 1);
                assert(prev[t] == v);
            }
            if v == view {
                assert(block[block.len() - 1] == v);
            }
        }
    }
}

proof fn lemma_one_epoch(states: Seq<ViewOrder>, views: Seq<usize>, start: int, n: nat)
    requires
        is_run(states, views),
        0 <= start,
        n > 0,
        start + n <= views.len(),
        states[start].pending().len() == 0,
        states[start].views() == n,
    ensures
        views.subrange(start, start + n).no_duplicates(),
        views.subrange(start, start + n).to_set() == all_views(n),
        states[start + n].pending().len() == 0,
        states[start + n].views() == n,
{
    lemma_epoch_prefix(states, views, start, n, n as int);
    let block = views.subrange(start, start + n);
    let last = states[start + n];
    assert forall|v: usize| block.to_set().contains(v) <==> all_views(n).contains(v) by {
        if v < n {
            assert(!last.remaining().contains(v)) by {
                if last.pending().contains(v) {
                    let t = choose|t: int| 0 <= t < last.pending().len() && last.pending()[t] == v;
                }
            }
        }
        if block.contains(v) {
            let t = choose|t: int| 0 <= t < block.len() && block[t] == v;
            assert(views[start + t] < n);
        }
    }
    assert(block.to_set() =~= all_views(n));
}

proof fn lemma_epochs_upto(states: Seq<ViewOrder>, views: Seq<usize>, n: nat, e: nat)
    requires
        is_run(states, views),
        n > 0,
        (e + 1) * n <= views.len(),
        states[0].pending().len() == 0,
        states[0].views() == n,
    ensures
        epoch_block(views, n, e).no_duplicates(),
        epoch_block(views, n, e).to_set() == all_views(n),
        states[((e + 1) * n) as int].pending().len() == 0,
        states[((e + 1) * n) as int].views() == n,
    decreases e,
{
    assert((e + 1) * n == e * n + n) by (nonlinear_arith);
    if e > 0 {
        let p = (e - 1) as nat;
        assert(p + 1 == e);
        assert((p + 1) * n <= views.len()) by (nonlinear_arith)
            requires
                p + 1 == e,
                (e + 1) * n <= views.len(),
                n > 0,
        ;
        lemma_epochs_upto(states, views, n, p);
    }
    assert(0 <= e * n) by (nonlinear_arith)
        requires
            n > 0,
    ;
    lemma_one_epoch(states, views, (e * n) as int, n);
}

/// Every view exactly once per epoch: along any run of a loader task that
/// starts between epochs, each block of `n` consecutive views handed out
/// (the `e`-th block running from `e * n` to `(e + 1) * n`) holds every view
/// of the dataset exactly once.
pub proof fn lemma_every_epoch_is_a_permutation(states: Seq<ViewOrder>, views: Seq<usize>)
    requires
        is_run(states, views),
        states[0].wf(),
        states[0].views() > 0,
        states[0].pending().len() == 0,
    ensures
        forall|e: nat| #![trigger epoch_block(views, states[0].views(), e)]
            (e + 1) * states[0].views() <= views.len() ==> {
                &&& epoch_block(views, states[0].views(), e).no_duplicates()
                &&& epoch_block(views, states[0].views(), e).to_set() == all_views(states[0].views())
            },
{
    let n = states[0].views();
    assert forall|e: nat| #![trigger epoch_block(views, n, e)] (e + 1) * n <= views.len() implies {
        &&& epoch_block(views, n, e).no_duplicates()
        &&& epoch_block(views, n, e).to_set() == all_views(n)
    } by {
        lemma_epochs_upto(states, views, n, e);
    }
}

/// What a loader task does with the view it picked next.
pub enum LoaderAction<T> {
    /// The view's batch is cached: send that batch, without loading.
    Send { view: usize, batch: Arc<T> },
    /// The view's batch is not cached: load and build it, offer it to the
    /// cache with `BatchCache::insert`, then send the built batch.
    Build { view: usize },
}

impl<T> LoaderAction<T> {
    /// The view the action is about.
    pub open spec fn view_of(self) -> usize {
        match self {
            LoaderAction::Send { view, .. } => view,
            LoaderAction::Build { view } => view,
        }
    }
}

impl ViewOrder {
    /// One step of a loader task: picks the next view (as `next_view` does)
    /// and looks it up in the shared cache. A cached batch is sent as it is;
    /// a missing one is to be built.
    pub fn next_action<T>(&mut self, cache: &BatchCache<T>) -> (action: LoaderAction<T>)
        requires
            old(self).wf(),
            old(self).views() > 0,
            cache.slots().len() == old(self).views(),
        ensures
            Self::next_step(*old(self), *final(self), action.view_of()),
            match action {
                LoaderAction::Send { view, batch } => cache.slots()[view as int] == Some(batch),
                LoaderAction::Build { view } => cache.slots()[view as int] is None,
            },
    {
        let view = self.next_view();
        match cache.get(view) {
            Some(batch) => LoaderAction::Send { view, batch },
            None => LoaderAction::Build { view },
        }
    }
}

} // verus!
