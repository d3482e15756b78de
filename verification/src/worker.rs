//! Workers: the pending work of one worker thread behind a lock, so that
//! the worker and the threads that steal from it or look at its progress
//! can share it.

use crate::bucket::pool_names;
use crate::bucket::LocalPluginWork;
use crate::local_work::after_take;
use crate::local_work::first_bucket_len;
use crate::local_work::names_pool;
use crate::local_work::steal_outcome;
use crate::local_work::steal_plan;
use crate::local_work::stolen_plugins_fit;
use crate::local_work::stolen_view;
use crate::local_work::well_formed;
use crate::local_work::FormattingFilePathInfo;
use crate::local_work::LocalWork;
use crate::local_work::LocalWorkView;
use crate::pool::OptionalPluginAndPool;
use crate::pool::Plugin;
use crate::pool::PluginPool;
use crate::pool::PoolTimeSnapshot;
use crate::steal::steal_estimate;
use crate::steal::LocalWorkStealInfo;
use crate::sync::new_rwlock;
use crate::sync::exclusive_mut;
use crate::sync::lock_exclusive;
use crate::sync::lock_shared;
use crate::sync::shared_ref;
use parking_lot::lock_api::RwLock;
use parking_lot::RawRwLock;
use std::sync::Arc;
use vstd::prelude::*;

verus! {

/// What a thief gets: a bucket, and with a split bucket a slot for each pool
/// of its chain, which holds an instance where one was checked out for the
/// thief.
#[verifier::reject_recursive_types(P)]
pub struct StealResult<P: Plugin> {
    pub plugins: Option<Vec<OptionalPluginAndPool<P>>>,
    pub work: LocalPluginWork<P>,
}

/// A worker: an id, and the worker's pending work behind a lock.
#[verifier::reject_recursive_types(P)]
pub struct Worker<P: Plugin> {
    pub id: usize,
    local_work: RwLock<RawRwLock, LocalWork<P>>,
}

impl<P: Plugin> Worker<P> {
    /// The id of the worker.
    pub closed spec fn spec_id(&self) -> usize {
        self.id
    }

    /// The id of the worker.
    pub fn id(&self) -> (id: usize)
        ensures
            id == self.spec_id(),
    {
        self.id
    }

    /// A worker that starts with the given buckets. Buckets without files
    /// are left out.
    pub fn new(id: usize, work_by_plugin: Vec<LocalPluginWork<P>>) -> (worker: Self)
        ensures
            worker.spec_id() == id,
    {
        Worker { id, local_work: new_rwlock(LocalWork::new(work_by_plugin)) }
    }

    /// The file that the worker is formatting, if it was formatting one when
    /// the lock was held.
    pub fn get_current_formatting_file_path_info(&self) -> (info: Option<FormattingFilePathInfo>)
        ensures
            exists|work: LocalWorkView|
                #[trigger] well_formed(work) && match info {
                    Some(info) => work.current == Some(info.file_path@),
                    None => work.current is None,
                },
    {
        let locked = lock_shared(&self.local_work);
        let local_work = shared_ref(&locked);
        let info = local_work.get_current_formatting_file_path_info();
        assert(well_formed(local_work@));
        info
    }

    /// Whether some bucket of the worker had a pool of the given name in its
    /// chain when the lock was held. See [`LocalWork::has_pool`].
    pub fn has_pool(&self, pool_name: &str) -> (found: bool)
        ensures
            exists|work: LocalWorkView|
                #[trigger] well_formed(work) && found == names_pool(work, pool_name@),
    {
        let locked = lock_shared(&self.local_work);
        let local_work = shared_ref(&locked);
        let found = local_work.has_pool(pool_name);
        assert(well_formed(local_work@));
        found
    }

    /// Estimates what stealing from this worker would cost.
    ///
    /// The estimate is the one of [`steal_estimate`] for the work that the
    /// worker had when the lock was held and for what the pools had
    /// measured: `None` says that stealing is not worth it.
    pub fn calculate_worthwhile_steal_time(&self) -> (estimate: Option<LocalWorkStealInfo>)
        ensures
            exists|work: LocalWorkView, snapshots: Seq<PoolTimeSnapshot>|
                well_formed(work) && #[trigger] steal_estimate(
                    work.stealer_id,
                    work.buckets.len(),
                    first_bucket_len(work),
                    snapshots,
                ) == estimate,
    {
        let locked = lock_shared(&self.local_work);
        let local_work = shared_ref(&locked);
        let estimate = local_work.calculate_worthwhile_steal_time();
        proof {
            let work = local_work@;
            let snapshots = choose|snapshots: Seq<PoolTimeSnapshot>| #[trigger]
                steal_estimate(
                    work.stealer_id,
                    work.buckets.len(),
                    first_bucket_len(work),
                    snapshots,
                ) == estimate;
            assert(well_formed(work) && steal_estimate(
                work.stealer_id,
                work.buckets.len(),
                first_bucket_len(work),
                snapshots,
            ) == estimate);
        }
        estimate
    }

    /// Lets a thief that holds the estimate `steal_info` steal from this
    /// worker, with the worker's lock held from the check of the estimate
    /// to the end of the steal.
    ///
    /// What is returned is what [`steal_outcome`] allows for the work that
    /// the worker had when the lock was taken. In particular a thief whose
    /// estimate is out of date gets nothing, and a bucket that is handed
    /// out has a file.
    pub fn try_steal(&self, steal_info: LocalWorkStealInfo) -> (result: Option<StealResult<P>>)
        ensures
            exists|before: LocalWorkView, after: LocalWorkView|
                {
                    &&& well_formed(before)
                    &&& well_formed(after)
                    &&& #[trigger] steal_outcome(before, steal_info, after, stolen_view(result))
                    &&& result matches Some(stolen) ==> stolen_plugins_fit(
                        stolen.plugins,
                        steal_plan(before, steal_info),
                        stolen.work@.chain,
                        steal_info.has_all_plugins_available(),
                    )
                },
            result matches Some(stolen) ==> stolen.work@.items.len() > 0,
    {
        let mut locked = lock_exclusive(&self.local_work);
        let local_work = exclusive_mut(&mut locked);
        let ghost before = local_work@;
        let result = local_work.try_steal(steal_info);
        proof {
            let after = local_work@;
            assert(steal_outcome(before, steal_info, after, stolen_view(result)));
        }
        result
    }

    /// Appends a bucket to the worker's work. See [`LocalWork::add_work`].
    pub fn add_work(&self, work: LocalPluginWork<P>) {
        let mut locked = lock_exclusive(&self.local_work);
        let local_work = exclusive_mut(&mut locked);
        local_work.add_work(work);
    }

    /// Takes the next file of the worker's first bucket, with the pools of
    /// its chain.
    ///
    /// What is returned is what [`LocalWork::take_next_work`] gives for the
    /// work that the worker had when the lock was taken: the first file of
    /// the first bucket, and nothing only if there was no bucket.
    pub fn take_next_work(&self) -> (next: Option<(Arc<Vec<Arc<PluginPool<P>>>>, String)>)
        ensures
            exists|before: LocalWorkView|
                {
                    &&& well_formed(before)
                    &&& well_formed(#[trigger] after_take(before))
                    &&& next is Some <==> before.buckets.len() > 0
                    &&& next matches Some((pools, file_path)) ==> pool_names(pools@)
                        == before.buckets[0].chain && file_path@ == before.buckets[0].items[0]
                },
    {
        let mut locked = lock_exclusive(&self.local_work);
        let local_work = exclusive_mut(&mut locked);
        let ghost before = local_work@;
        let next = local_work.take_next_work();
        proof {
            assert(well_formed(after_take(before)));
        }
        next
    }

    /// Drops the worker's first bucket. See
    /// [`LocalWork::clear_work_for_current_plugin`].
    pub fn clear_work_for_current_plugin(&self) {
        let mut locked = lock_exclusive(&self.local_work);
        let local_work = exclusive_mut(&mut locked);
        local_work.clear_work_for_current_plugin();
    }
}

} // verus!
