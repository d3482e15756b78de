//! The orchestration of a run: the first division of the files among the
//! workers, the search for a worker to steal from, one step of a worker's
//! loop, and the result of the run.
//!
//! The loop of a worker is the caller's: a worker thread calls
//! [`run_worker_step`] until the step says that the worker is done or that
//! the run has to end.

use crate::bucket::pool_names;
use crate::bucket::BucketView;
use crate::bucket::LocalPluginWork;
use crate::format::file_outcome;
use crate::format::run_for_file_path;
use crate::format::Environment;
use crate::format::FileOutcome;
use crate::format::FormatError;
use crate::format::FormatHandler;
use crate::format::IncrementalFile;
use crate::local_work::after_take;
use crate::local_work::bucket_views;
use crate::local_work::first_bucket_len;
use crate::local_work::slots_fit;
use crate::local_work::steal_outcome;
use crate::local_work::steal_plan;
use crate::local_work::stolen_plugins_fit;
use crate::local_work::stolen_view;
use crate::local_work::well_formed;
use crate::local_work::LocalWorkView;
use crate::pool::OptionalPluginAndPool;
use crate::pool::Plugin;
use crate::pool::PluginPool;
use crate::pool::PoolTimeSnapshot;
use crate::steal::is_candidate;
use crate::steal::pick_steal_candidate;
use crate::steal::steal_estimate;
use crate::steal::LocalWorkStealInfo;
use crate::sync::share;
use crate::worker::StealResult;
use crate::worker::Worker;
use std::sync::Arc;
use vstd::prelude::*;

verus! {

/// A number of files, capped at the largest `usize`.
pub open spec fn capped_count(count: int) -> usize {
    if count > usize::MAX {
        usize::MAX
    } else {
        count as usize
    }
}

/// The first position of the least of the loads; 0 if there is none.
pub open spec fn least_loaded(loads: Seq<usize>) -> int
    decreases loads.len(),
{
    if loads.len() <= 1 {
        0
    } else {
        let before = least_loaded(loads.drop_last());
        if loads.last() < loads[before] {
            loads.len() - 1
        } else {
            before
        }
    }
}

/// The number of files that each worker has after the groups were dealt
/// out one by one, each to the worker that had the fewest files then (the
/// first of them, where several had).
pub open spec fn loads_after(groups: Seq<BucketView>, workers: nat) -> Seq<usize>
    decreases groups.len(),
{
    if groups.len() == 0 {
        Seq::new(workers, |worker: int| 0usize)
    } else {
        let before = loads_after(groups.drop_last(), workers);
        let worker = least_loaded(before);
        before.update(worker, capped_count(before[worker] + groups.last().items.len()))
    }
}

/// The worker that the last of the groups is dealt to.
pub open spec fn worker_of_last(groups: Seq<BucketView>, workers: nat) -> int {
    least_loaded(loads_after(groups.drop_last(), workers))
}

/// The groups that are dealt to a worker, in the order of the groups.
pub open spec fn share_of(groups: Seq<BucketView>, workers: nat, worker: int) -> Seq<BucketView>
    decreases groups.len(),
{
    if groups.len() == 0 {
        Seq::empty()
    } else {
        let before = share_of(groups.drop_last(), workers, worker);
        if worker_of_last(groups, workers) == worker {
            before.push(groups.last())
        } else {
            before
        }
    }
}

/// The number of workers of a run: at least one.
pub open spec fn effective_workers(worker_count: usize) -> nat {
    if worker_count == 0 {
        1
    } else {
        worker_count as nat
    }
}

/// The least loaded worker is one of the workers.
pub proof fn lemma_least_loaded(loads: Seq<usize>)
    requires
        loads.len() > 0,
    ensures
        0 <= least_loaded(loads) < loads.len(),
        forall|i: int| 0 <= i < loads.len() ==> loads[least_loaded(loads)] <= #[trigger] loads[i],
        forall|i: int|
            0 <= i < least_loaded(loads) ==> loads[least_loaded(loads)] < #[trigger] loads[i],
    decreases loads.len(),
{
    if loads.len() > 1 {
        lemma_least_loaded(loads.drop_last());
        assert forall|i: int| 0 <= i < loads.len() - 1 implies loads.drop_last()[i] == loads[i] by {}
    }
}

/// Every worker has a load, and every group is dealt to one of the workers.
pub proof fn lemma_loads_after(groups: Seq<BucketView>, workers: nat)
    requires
        workers > 0,
    ensures
        loads_after(groups, workers).len() == workers,
        groups.len() > 0 ==> 0 <= worker_of_last(groups, workers) < workers,
    decreases groups.len(),
{
    if groups.len() > 0 {
        lemma_loads_after(groups.drop_last(), workers);
        lemma_least_loaded(loads_after(groups.drop_last(), workers));
    }
}

/// The number of groups that are dealt to the first `upto` workers.
pub open spec fn dealt_count(groups: Seq<BucketView>, workers: nat, upto: nat) -> nat
    decreases upto,
{
    if upto == 0 {
        0
    } else {
        dealt_count(groups, workers, (upto - 1) as nat) + share_of(
            groups,
            workers,
            upto - 1,
        ).len()
    }
}

/// One more group is one more group for its worker and for no other.
proof fn lemma_dealt_count_step(groups: Seq<BucketView>, workers: nat, upto: nat)
    requires
        groups.len() > 0,
    ensures
        dealt_count(groups, workers, upto) == dealt_count(groups.drop_last(), workers, upto) + (
        if 0 <= worker_of_last(groups, workers) < upto {
            1nat
        } else {
            0nat
        }),
    decreases upto,
{
    if upto > 0 {
        lemma_dealt_count_step(groups, workers, (upto - 1) as nat);
    }
}

/// The first division loses no group and doubles none: every group is
/// dealt to one worker, each worker gets its groups in the order of the
/// groups, and the shares of all workers together have as many groups as
/// there are.
pub proof fn lemma_shares_hold_all(groups: Seq<BucketView>, workers: nat)
    requires
        workers > 0,
    ensures
        dealt_count(groups, workers, workers) == groups.len(),
    decreases groups.len(),
{
    if groups.len() == 0 {
        assert(groups =~= Seq::<BucketView>::empty());
        lemma_no_groups_no_shares(workers, workers);
    } else {
        lemma_shares_hold_all(groups.drop_last(), workers);
        lemma_dealt_count_step(groups, workers, workers);
        lemma_loads_after(groups, workers);
    }
}

proof fn lemma_no_groups_no_shares(workers: nat, upto: nat)
    ensures
        dealt_count(Seq::<BucketView>::empty(), workers, upto) == 0,
    decreases upto,
{
    if upto > 0 {
        lemma_no_groups_no_shares(workers, (upto - 1) as nat);
    }
}

fn least_loaded_index(loads: &Vec<usize>) -> (index: usize)
    requires
        loads@.len() > 0,
    ensures
        index == least_loaded(loads@),
        index < loads@.len(),
{
    let mut best: usize = 0;
    let mut i: usize = 1;
    assert(loads@.take(1).len() <= 1);
    while i < loads.len()
        invariant
            1 <= i <= loads.len(),
            best < i,
            best == least_loaded(loads@.take(i as int)),
        decreases loads.len() - i,
    {
        proof {
            let next = loads@.take(i + 1);
            assert(next.drop_last() == loads@.take(i as int));
            assert(next.last() == loads@[i as int]);
            assert(next[best as int] == loads@[best as int]);
        }
        if loads[i] < loads[best] {
            best = i;
        }
        i += 1;
    }
    assert(loads@.take(loads@.len() as int) == loads@);
    best
}

/// Deals the groups of files out to the workers of a run.
///
/// The groups are taken in order, and each goes whole to the worker that
/// has the fewest files by then, the first of several. The division is
/// only roughly even: stealing evens it out while the workers run. A run
/// has at least one worker.
pub fn get_work_by_worker<P: Plugin>(file_groups: Vec<LocalPluginWork<P>>, worker_count: usize) -> (shares:
    Vec<Vec<LocalPluginWork<P>>>)
    ensures
        shares@.len() == effective_workers(worker_count),
        forall|worker: int|
            0 <= worker < shares@.len() ==> bucket_views((#[trigger] shares@[worker])@) == share_of(
                bucket_views(file_groups@),
                effective_workers(worker_count),
                worker,
            ),
{
    let workers = if worker_count == 0 {
        1
    } else {
        worker_count
    };
    let ghost all = bucket_views(file_groups@);
    let mut loads: Vec<usize> = Vec::new();
    let mut shares: Vec<Vec<LocalPluginWork<P>>> = Vec::new();
    let mut w: usize = 0;
    while w < workers
        invariant
            w <= workers,
            loads@.len() == w,
            shares@.len() == w,
            forall|i: int| 0 <= i < w ==> loads@[i] == 0,
            forall|i: int| 0 <= i < w ==> (#[trigger] shares@[i])@.len() == 0,
        decreases workers - w,
    {
        loads.push(0);
        shares.push(Vec::new());
        w += 1;
    }
    let mut given = file_groups;
    let ghost mut dealt: int = 0;
    proof {
        assert(all.take(0) == Seq::<BucketView>::empty());
        assert(loads@ == loads_after(all.take(0), workers as nat));
        assert(all.skip(0) == all);
        assert forall|worker: int| 0 <= worker < shares@.len() implies bucket_views(
            (#[trigger] shares@[worker])@,
        ) == share_of(all.take(0), workers as nat, worker) by {
            assert(bucket_views(shares@[worker]@) =~= Seq::<BucketView>::empty());
        }
    }
    while given.len() > 0
        invariant
            workers >= 1,
            0 <= dealt <= all.len(),
            bucket_views(given@) == all.skip(dealt),
            loads@.len() == workers,
            shares@.len() == workers,
            loads@ == loads_after(all.take(dealt), workers as nat),
            forall|worker: int|
                0 <= worker < shares@.len() ==> bucket_views((#[trigger] shares@[worker])@)
                    == share_of(all.take(dealt), workers as nat, worker),
        decreases given.len(),
    {
        let ghost given_before = bucket_views(given@);
        let ghost shares_before = shares@;
        assert(given_before.len() == given@.len());
        let group = given.remove(0);
        let worker = least_loaded_index(&loads);
        let size = group.work_items_len();
        let load = if loads[worker] > usize::MAX - size {
            usize::MAX
        } else {
            loads[worker] + size
        };
        loads.set(worker, load);
        let mut share = shares.remove(worker);
        let ghost share_before = bucket_views(share@);
        share.push(group);
        shares.insert(worker, share);
        proof {
            let next = all.take(dealt + 1);
            assert(group@ == given_before[0]);
            assert(bucket_views(given@) =~= given_before.skip(1));
            assert(given_before.skip(1) =~= all.skip(dealt + 1));
            assert(next.drop_last() =~= all.take(dealt));
            assert(next.last() == group@);
            assert(worker_of_last(next, workers as nat) == worker);
            assert(loads@ =~= loads_after(next, workers as nat));
            assert(bucket_views(shares@[worker as int]@) =~= share_before.push(group@));
            assert forall|other: int| 0 <= other < shares@.len() implies bucket_views(
                (#[trigger] shares@[other])@,
            ) == share_of(next, workers as nat, other) by {
                if other != worker {
                    assert(shares@[other] == shares_before[other]);
                } else {
                    assert(share_before == share_of(all.take(dealt), workers as nat, other));
                }
            }
            dealt = dealt + 1;
        }
    }
    assert(all.take(all.len() as int) == all);
    shares
}

/// Whether one of `count` workers is another than the worker `own_index`.
pub open spec fn has_peer(count: nat, own_index: usize) -> bool {
    count > 1 || (count == 1 && own_index != 0)
}

/// Whether the estimate is the one of [`steal_estimate`] for some work of
/// a worker and some measurements of pools.
pub open spec fn is_estimate(estimate: Option<LocalWorkStealInfo>) -> bool {
    exists|work: LocalWorkView, snapshots: Seq<PoolTimeSnapshot>|
        well_formed(work) && #[trigger] steal_estimate(
            work.stealer_id,
            work.buckets.len(),
            first_bucket_len(work),
            snapshots,
        ) == estimate
}

/// Whether `stolen` is what a steal with the estimate `steal_info` may
/// take from a worker: see [`steal_outcome`] and [`stolen_plugins_fit`].
pub open spec fn stolen_with<P: Plugin>(steal_info: LocalWorkStealInfo, stolen: StealResult<P>) -> bool {
    exists|victim: LocalWorkView, after: LocalWorkView|
        {
            &&& well_formed(victim)
            &&& well_formed(after)
            &&& #[trigger] steal_outcome(victim, steal_info, after, Some(stolen.work@))
            &&& stolen_plugins_fit(
                stolen.plugins,
                steal_plan(victim, steal_info),
                stolen.work@.chain,
                steal_info.has_all_plugins_available(),
            )
        }
}

/// Looks for a worker to steal from and tries to steal from it.
///
/// Every worker but the thief is asked for an estimate, and
/// [`steal_from_candidate`] does the rest. A thief without a peer gets
/// nothing. What a thief gets, it gets by a steal with an estimate that
/// found stealing worth it: a bucket that has a file and, with a split
/// bucket, the slots of its chain.
pub fn steal_work<P: Plugin>(workers: &Vec<Arc<Worker<P>>>, own_index: usize) -> (stolen: Option<
    StealResult<P>,
>)
    ensures
        stolen matches Some(stolen) ==> stolen.work@.items.len() > 0 && (
        stolen.plugins matches Some(slots) ==> exists|eager: bool| #[trigger]
            slots_fit(slots@, stolen.work@.chain, eager)),
        stolen matches Some(stolen) ==> exists|steal_info: LocalWorkStealInfo|
            is_estimate(Some(steal_info)) && #[trigger] stolen_with(steal_info, stolen),
        !has_peer(workers@.len(), own_index) ==> stolen is None,
{
    let mut estimates: Vec<Option<LocalWorkStealInfo>> = Vec::new();
    let mut i: usize = 0;
    while i < workers.len()
        invariant
            i <= workers.len(),
            estimates@.len() == i,
            forall|j: int|
                0 <= j < i ==> (#[trigger] estimates@[j]) is None || (j != own_index
                    && is_estimate(estimates@[j])),
        decreases workers.len() - i,
    {
        if i == own_index {
            estimates.push(None);
        } else {
            let estimate = workers[i].calculate_worthwhile_steal_time();
            assert(is_estimate(estimate));
            estimates.push(estimate);
        }
        i += 1;
    }
    assert(!has_peer(workers@.len(), own_index) ==> forall|i: int|
        !#[trigger] is_candidate(estimates@, own_index, i));
    steal_from_candidate(workers, own_index, &estimates)
}

/// Steals from the worker that [`pick_steal_candidate`] picks among the
/// given estimates, one for each worker, with that worker's estimate.
/// Without a candidate nothing is stolen and no worker is touched, and so
/// it is where the pick is no worker; the picked worker may still refuse
/// the steal.
pub fn steal_from_candidate<P: Plugin>(
    workers: &Vec<Arc<Worker<P>>>,
    own_index: usize,
    estimates: &Vec<Option<LocalWorkStealInfo>>,
) -> (stolen: Option<StealResult<P>>)
    ensures
        (forall|i: int| !#[trigger] is_candidate(estimates@, own_index, i)) ==> stolen is None,
        stolen matches Some(stolen) ==> stolen.work@.items.len() > 0 && (
        stolen.plugins matches Some(slots) ==> exists|eager: bool| #[trigger]
            slots_fit(slots@, stolen.work@.chain, eager)),
        stolen matches Some(stolen) ==> exists|victim: int|
            {
                &&& #[trigger] is_candidate(estimates@, own_index, victim)
                &&& forall|i: int| #[trigger]
                    is_candidate(estimates@, own_index, i) ==> estimates@[victim].unwrap().steal_time
                        <= estimates@[i].unwrap().steal_time
                &&& stolen_with(estimates@[victim].unwrap(), stolen)
            },
{
    match pick_steal_candidate(estimates, own_index) {
        Some(victim) => {
            if victim >= workers.len() {
                return None;
            }
            match estimates[victim] {
                Some(steal_info) => {
                    let stolen = workers[victim].try_steal(steal_info);
                    assert(stolen matches Some(result) ==> stolen_view(stolen) == Some(
                        result.work@,
                    ));
                    assert(stolen matches Some(result) ==> (result.plugins matches Some(slots)
                        ==> slots_fit(
                        slots@,
                        result.work@.chain,
                        steal_info.has_all_plugins_available(),
                    )));
                    assert(stolen matches Some(result) ==> stolen_with(steal_info, result));
                    assert(stolen is Some ==> is_candidate(estimates@, own_index, victim as int));
                    stolen
                },
                None => None,
            }
        },
        None => None,
    }
}

/// What one step of a worker did.
#[derive(Debug, PartialEq, Eq)]
pub enum WorkerStep {
    /// The file of this path went through its chain.
    Formatted(String),
    /// The file of this path has not changed and was skipped.
    Skipped(String),
    /// The file of this path could not be formatted, for the reason given.
    Failed(String, String),
    /// The configuration of a plugin has this many problems: the run is to
    /// end.
    HadDiagnostics(usize),
    /// The worker had no work and stole some.
    Stole,
    /// The worker has no work and found none to steal: it is done.
    Done,
}

/// The names of the pools of the slots, in order.
pub open spec fn slot_names<P: Plugin>(slots: Seq<OptionalPluginAndPool<P>>) -> Seq<Seq<char>> {
    Seq::new(slots.len(), |i: int| slots[i].pool.spec_name())
}

/// Whether the step is the report of what came of the file `file_path`.
pub open spec fn step_reports(
    step: WorkerStep,
    file_path: Seq<char>,
    result: Result<FileOutcome, FormatError>,
) -> bool {
    match result {
        Ok(FileOutcome::Formatted) => step matches WorkerStep::Formatted(path) && path@
            == file_path,
        Ok(FileOutcome::Skipped) => step matches WorkerStep::Skipped(path) && path@ == file_path,
        Err(FormatError::Failed(message)) => step matches WorkerStep::Failed(path, reported)
            && path@ == file_path && reported@ == message@,
        Err(FormatError::ConfigDiagnostics(count)) => step == WorkerStep::HadDiagnostics(count),
    }
}

/// What a step does with a file of the chain `chain`: `held_before` and
/// `held_after` are the slots that the worker holds.
///
/// The file is dealt with as [`file_outcome`] says, with the slots that the
/// worker holds if they are those of the chain, and with empty slots of the
/// chain otherwise; the step reports what came of it.
pub open spec fn file_step<P: Plugin, E: Environment, C: IncrementalFile, F: FormatHandler<E>>(
    environment: &E,
    incremental_file: Option<&C>,
    handler: &F,
    chain: Seq<Seq<char>>,
    file_path: Seq<char>,
    held_before: Seq<OptionalPluginAndPool<P>>,
    held_after: Seq<OptionalPluginAndPool<P>>,
    step: WorkerStep,
) -> bool {
    exists|slots: Seq<OptionalPluginAndPool<P>>, result: Result<FileOutcome, FormatError>|
        {
            &&& slot_names(slots) == chain
            &&& slots == held_before || holds_nothing(slots)
            &&& #[trigger] file_outcome(
                environment,
                incremental_file,
                handler,
                file_path,
                slots,
                held_after,
                result,
            )
            &&& step_reports(step, file_path, result)
        }
}

/// Whether no slot holds an instance.
pub open spec fn holds_nothing<P: Plugin>(slots: Seq<OptionalPluginAndPool<P>>) -> bool {
    forall|i: int| 0 <= i < slots.len() ==> (#[trigger] slots[i]).plugin is None
}

/// Releases every instance that the slots hold, and drops the slots.
pub fn release_all<P: Plugin>(slots: &mut Vec<OptionalPluginAndPool<P>>)
    ensures
        final(slots)@.len() == 0,
{
    while slots.len() > 0
        decreases slots.len(),
    {
        match slots.pop() {
            Some(slot) => slot.release_plugin(),
            None => {},
        }
    }
}

/// Whether the slots are those of the pools, in order.
fn slots_are_for<P: Plugin>(slots: &Vec<OptionalPluginAndPool<P>>, pools: &Arc<
    Vec<Arc<PluginPool<P>>>,
>) -> (same: bool)
    ensures
        same == (slot_names(slots@) == pool_names(pools@)),
{
    assert(pool_names(pools@).len() == pools@.len());
    assert(slot_names(slots@).len() == slots@.len());
    if slots.len() != pools.len() {
        return false;
    }
    let mut i: usize = 0;
    while i < slots.len()
        invariant
            i <= slots.len(),
            slots@.len() == pools@.len(),
            forall|j: int| 0 <= j < i ==> slot_names(slots@)[j] == pool_names(pools@)[j],
        decreases slots.len() - i,
    {
        let name = pools[i].name().to_owned();
        if !slots[i].pool.has_name(&name) {
            assert(slot_names(slots@)[i as int] != pool_names(pools@)[i as int]);
            return false;
        }
        i += 1;
    }
    assert(slot_names(slots@) =~= pool_names(pools@));
    true
}

/// One step of the loop of the worker `own_index`.
///
/// The worker takes its next file and formats it as
/// [`run_for_file_path`] says. `held` are the slots of the chain that the
/// worker formatted with last, or that came with stolen work; where the
/// file has another chain, what they hold is released and they make way
/// for the slots of that chain. Without a next file, the worker releases
/// what it holds and tries to steal: stolen work is added to its own, and
/// the slots that came with it are held for it.
///
/// A step that dealt with a file dealt with the file that was the first
/// of the worker's pending files when the worker's lock was taken, in the
/// way that [`file_step`] says. A step that stole holds the slots that came
/// with the stolen work, if any came. A worker that is done holds nothing,
/// and no instance is held across a step that formatted a file or met a
/// broken configuration.
pub fn run_worker_step<P: Plugin, E: Environment, C: IncrementalFile, F: FormatHandler<E>>(
    workers: &Vec<Arc<Worker<P>>>,
    own_index: usize,
    held: &mut Vec<OptionalPluginAndPool<P>>,
    environment: &E,
    incremental_file: Option<&C>,
    handler: &F,
) -> (step: WorkerStep)
    requires
        own_index < workers@.len(),
    ensures
        match step {
            WorkerStep::Done => final(held)@.len() == 0,
            WorkerStep::Stole => final(held)@.len() == 0 || exists|
                eager: bool,
                chain: Seq<Seq<char>>,
            | #[trigger] slots_fit(final(held)@, chain, eager),
            _ => exists|work: LocalWorkView|
                {
                    &&& well_formed(work)
                    &&& work.buckets.len() > 0
                    &&& #[trigger] file_step(
                        environment,
                        incremental_file,
                        handler,
                        work.buckets[0].chain,
                        work.buckets[0].items[0],
                        old(held)@,
                        final(held)@,
                        step,
                    )
                },
        },
        step is Formatted || step is HadDiagnostics ==> holds_nothing(final(held)@),
        step is Skipped ==> incremental_file is Some,
        step matches WorkerStep::HadDiagnostics(count) ==> count > 0,
{
    let next = workers[own_index].take_next_work();
    let ghost work = choose|work: LocalWorkView|
        {
            &&& well_formed(work)
            &&& well_formed(#[trigger] after_take(work))
            &&& next is Some <==> work.buckets.len() > 0
            &&& next matches Some((pools, file_path)) ==> pool_names(pools@)
                == work.buckets[0].chain && file_path@ == work.buckets[0].items[0]
        };
    match next {
        Some((pools, file_path)) => {
            let step = format_next_file(
                &pools,
                file_path,
                held,
                environment,
                incremental_file,
                handler,
            );
            assert(file_step(
                environment,
                incremental_file,
                handler,
                work.buckets[0].chain,
                work.buckets[0].items[0],
                old(held)@,
                held@,
                step,
            ));
            step
        },
        None => {
            release_all(held);
            let stolen = steal_work(workers, own_index);
            take_stolen_work(stolen, &workers[own_index], held)
        },
    }
}

/// The step of a worker that has taken the file `file_path` of a bucket
/// with the pools `pools`: see [`file_step`].
pub fn format_next_file<P: Plugin, E: Environment, C: IncrementalFile, F: FormatHandler<E>>(
    pools: &Arc<Vec<Arc<PluginPool<P>>>>,
    file_path: String,
    held: &mut Vec<OptionalPluginAndPool<P>>,
    environment: &E,
    incremental_file: Option<&C>,
    handler: &F,
) -> (step: WorkerStep)
    ensures
        file_step(
            environment,
            incremental_file,
            handler,
            pool_names(pools@),
            file_path@,
            old(held)@,
            final(held)@,
            step,
        ),
        !(step is Stole) && !(step is Done),
        step is Formatted || step is HadDiagnostics ==> holds_nothing(final(held)@),
        step is Skipped ==> incremental_file is Some,
        step matches WorkerStep::HadDiagnostics(count) ==> count > 0,
{
    if !slots_are_for(held, pools) {
        release_all(held);
        let mut i: usize = 0;
        while i < pools.len()
            invariant
                i <= pools.len(),
                held@.len() == i,
                forall|j: int|
                    0 <= j < i ==> (#[trigger] held@[j]).plugin is None && held@[j].pool
                        == pools@[j],
            decreases pools.len() - i,
        {
            held.push(OptionalPluginAndPool::from_pool(share(&pools[i])));
            i += 1;
        }
        assert(slot_names(held@) =~= pool_names(pools@));
    }
    let ghost slots = held@;
    let result = run_for_file_path(
        environment,
        incremental_file,
        held,
        file_path.as_str(),
        handler,
    );
    let step = match result {
        Ok(FileOutcome::Formatted) => WorkerStep::Formatted(file_path),
        Ok(FileOutcome::Skipped) => WorkerStep::Skipped(file_path),
        Err(FormatError::Failed(message)) => WorkerStep::Failed(file_path, message),
        Err(FormatError::ConfigDiagnostics(count)) => WorkerStep::HadDiagnostics(count),
    };
    assert(file_outcome(
        environment,
        incremental_file,
        handler,
        file_path@,
        slots,
        held@,
        result,
    ) && step_reports(step, file_path@, result));
    step
}

/// The step of a worker without a file, given what its attempt to steal
/// got: stolen work is added to the work of `worker`, and the slots that
/// came with it take the place of those that the worker held. A worker
/// that got nothing is done.
pub fn take_stolen_work<P: Plugin>(
    stolen: Option<StealResult<P>>,
    worker: &Worker<P>,
    held: &mut Vec<OptionalPluginAndPool<P>>,
) -> (step: WorkerStep)
    ensures
        match stolen {
            Some(stolen) => step is Stole && final(held)@ == match stolen.plugins {
                Some(slots) => slots@,
                None => old(held)@,
            },
            None => step is Done && final(held)@ == old(held)@,
        },
{
    match stolen {
        Some(stolen) => {
            match stolen.plugins {
                Some(mut slots) => std::mem::swap(held, &mut slots),
                None => {},
            }
            worker.add_work(stolen.work);
            WorkerStep::Stole
        },
        None => WorkerStep::Done,
    }
}

/// Why a run failed.
#[derive(Clone, Copy, Debug, PartialEq, Eq)]
pub enum BatchError {
    /// The configuration of a plugin had this many problems.
    ConfigDiagnostics(usize),
    /// This many files could not be formatted.
    FilesFailed(usize),
}

/// What the steps of all workers amount to so far.
#[derive(Clone, Copy, Debug, PartialEq, Eq)]
pub struct BatchTotals {
    /// The number of files that could not be formatted.
    pub error_count: usize,
    /// The number of problems of the first broken configuration that was
    /// met.
    pub diagnostics: Option<usize>,
}

impl BatchTotals {
    /// The totals of a run in which nothing has happened yet.
    pub fn new() -> (totals: Self)
        ensures
            totals.error_count == 0,
            totals.diagnostics is None,
    {
        BatchTotals { error_count: 0, diagnostics: None }
    }

    /// The totals after one more step: a failed file counts (up to the
    /// largest `usize`), and the first broken configuration is remembered.
    pub open spec fn spec_record(self, step: WorkerStep) -> BatchTotals {
        match step {
            WorkerStep::Failed(_, _) => BatchTotals {
                error_count: capped_count(self.error_count + 1),
                diagnostics: self.diagnostics,
            },
            WorkerStep::HadDiagnostics(count) => BatchTotals {
                error_count: self.error_count,
                diagnostics: if self.diagnostics is Some {
                    self.diagnostics
                } else {
                    Some(count)
                },
            },
            _ => self,
        }
    }

    /// Takes one more step into account.
    pub fn record(&mut self, step: &WorkerStep)
        ensures
            *final(self) == old(self).spec_record(*step),
    {
        match step {
            WorkerStep::Failed(_, _) => {
                if self.error_count < usize::MAX {
                    self.error_count = self.error_count + 1;
                }
            },
            WorkerStep::HadDiagnostics(count) => {
                if self.diagnostics.is_none() {
                    self.diagnostics = Some(*count);
                }
            },
            _ => {},
        }
    }

    /// Whether the run is to end at once: a broken configuration was met.
    pub fn must_stop(&self) -> (stop: bool)
        ensures
            stop == self.diagnostics is Some,
    {
        self.diagnostics.is_some()
    }

    /// The result of the run: a broken configuration before all else, then
    /// the number of files that failed if there are any, else success.
    pub fn finish(&self) -> (result: Result<(), BatchError>)
        ensures
            result == match self.diagnostics {
                Some(count) => Err::<(), BatchError>(BatchError::ConfigDiagnostics(count)),
                None => if self.error_count == 0 {
                    Ok(())
                } else {
                    Err(BatchError::FilesFailed(self.error_count))
                },
            },
    {
        match self.diagnostics {
            Some(count) => Err(BatchError::ConfigDiagnostics(count)),
            None => if self.error_count == 0 {
                Ok(())
            } else {
                Err(BatchError::FilesFailed(self.error_count))
            },
        }
    }
}

} // verus!
