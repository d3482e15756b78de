//! Buckets: the pending files of a worker that share one chain of plugins.

use crate::pool::Plugin;
use crate::pool::PluginPool;
use crate::sync::share;
use std::sync::Arc;
use vstd::prelude::*;

verus! {

/// The mathematical content of a bucket.
pub struct BucketView {
    /// The names of the plugins that each file is to go through, in order.
    pub chain: Seq<Seq<char>>,
    /// The paths of the pending files, the one that is taken next first.
    pub items: Seq<Seq<char>>,
}

/// The names of a sequence of pools.
pub open spec fn pool_names<P: Plugin>(pools: Seq<Arc<PluginPool<P>>>) -> Seq<Seq<char>> {
    pools.map_values(|pool: Arc<PluginPool<P>>| pool.spec_name())
}

/// A sequence of strings as a sequence of character sequences.
pub open spec fn texts(strings: Seq<String>) -> Seq<Seq<char>> {
    strings.map_values(|text: String| text@)
}

/// How many of `len` pending files the victim of a split keeps: the larger
/// half.
pub open spec fn kept_len(len: nat) -> nat {
    (len - len / 2) as nat
}

/// The pending files of a worker that require the same chain of plugins,
/// with the pools of that chain.
#[verifier::reject_recursive_types(P)]
pub struct LocalPluginWork<P: Plugin> {
    pub pools: Arc<Vec<Arc<PluginPool<P>>>>,
    work_items: Vec<String>,
}

impl<P: Plugin> View for LocalPluginWork<P> {
    type V = BucketView;

    closed spec fn view(&self) -> BucketView {
        BucketView { chain: pool_names(self.pools@), items: texts(self.work_items@) }
    }
}

impl<P: Plugin> LocalPluginWork<P> {
    /// The pools of the chain.
    pub closed spec fn spec_pools(&self) -> Seq<Arc<PluginPool<P>>> {
        self.pools@
    }

    /// The view names the pools of the chain in order.
    pub proof fn lemma_chain_names(&self)
        ensures
            self@.chain == pool_names(self.spec_pools()),
    {
    }

    /// A bucket of the given files, the first of which is taken first.
    pub fn new(pools: Arc<Vec<Arc<PluginPool<P>>>>, work_items: Vec<String>) -> (work: Self)
        ensures
            work@.chain == pool_names(pools@),
            work@.items == texts(work_items@),
            work.spec_pools() == pools@,
    {
        LocalPluginWork { pools, work_items }
    }

    /// The pools of the chain, in order.
    pub fn pools(&self) -> (pools: &Arc<Vec<Arc<PluginPool<P>>>>)
        ensures
            pools@ == self.spec_pools(),
            pool_names(pools@) == self@.chain,
    {
        &self.pools
    }

    /// The number of pending files.
    pub fn work_items_len(&self) -> (len: usize)
        ensures
            len == self@.items.len(),
    {
        self.work_items.len()
    }

    /// Takes the pending file that has waited longest.
    pub fn take_next_work_item(&mut self) -> (file_path: String)
        requires
            old(self)@.items.len() > 0,
        ensures
            file_path@ == old(self)@.items[0],
            final(self)@.items == old(self)@.items.skip(1),
            final(self)@.chain == old(self)@.chain,
            final(self).spec_pools() == old(self).spec_pools(),
    {
        let file_path = self.work_items.remove(0);
        assert(texts(self.work_items@) =~= texts(old(self).work_items@).skip(1));
        file_path
    }

    /// Splits the bucket in two: the bucket keeps the larger half of its
    /// pending files, those that are taken first, and the rest goes to the
    /// bucket that is returned, which has the same chain.
    pub fn split(&mut self) -> (stolen: Self)
        ensures
            final(self)@.chain == old(self)@.chain,
            final(self).spec_pools() == old(self).spec_pools(),
            stolen@.chain == old(self)@.chain,
            stolen.spec_pools() == old(self).spec_pools(),
            final(self)@.items == old(self)@.items.take(
                kept_len(old(self)@.items.len()) as int,
            ),
            stolen@.items == old(self)@.items.skip(kept_len(old(self)@.items.len()) as int),
    {
        let len = self.work_items.len();
        let kept = len - len / 2;
        let stolen_items = self.work_items.split_off(kept);
        assert(texts(self.work_items@) =~= texts(old(self).work_items@).take(kept as int));
        assert(texts(stolen_items@) =~= texts(old(self).work_items@).skip(kept as int));
        LocalPluginWork { pools: share(&self.pools), work_items: stolen_items }
    }
}

} // verus!
