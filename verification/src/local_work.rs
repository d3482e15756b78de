//! The pending work of one worker, as the thread that holds the worker's
//! lock sees it. Every operation has an exact contract over
//! [`LocalWorkView`]; [`crate::worker::Worker`] puts the lock around it.

use crate::bucket::kept_len;
use crate::bucket::pool_names;
use crate::bucket::BucketView;
use crate::bucket::LocalPluginWork;
use crate::pool::OptionalPluginAndPool;
use crate::pool::Plugin;
use crate::pool::PluginPool;
use crate::pool::PoolTimeSnapshot;
use crate::steal::estimate_steal;
use crate::steal::steal_estimate;
use crate::steal::LocalWorkStealInfo;
use crate::sync::share;
use crate::worker::StealResult;
use std::sync::Arc;
use vstd::prelude::*;

verus! {

/// The file that a worker is formatting.
#[derive(Debug, PartialEq, Eq)]
pub struct FormattingFilePathInfo {
    pub file_path: String,
}

/// The mathematical content of a worker's pending work.
pub struct LocalWorkView {
    /// The buckets, the one that is worked on first.
    pub buckets: Seq<BucketView>,
    /// The stealer version: the number of steals from this worker so far.
    pub stealer_id: usize,
    /// The path of the file that was taken last, while it is being
    /// formatted.
    pub current: Option<Seq<char>>,
}

/// The views of a sequence of buckets.
pub open spec fn bucket_views<P: Plugin>(buckets: Seq<LocalPluginWork<P>>) -> Seq<BucketView> {
    buckets.map_values(|bucket: LocalPluginWork<P>| bucket@)
}

/// No bucket of a worker is empty: a bucket leaves the list with its last
/// file.
pub open spec fn well_formed(work: LocalWorkView) -> bool {
    forall|i: int| 0 <= i < work.buckets.len() ==> (#[trigger] work.buckets[i]).items.len() > 0
}

/// The buckets that have a pending file.
pub open spec fn has_files() -> spec_fn(BucketView) -> bool {
    |bucket: BucketView| bucket.items.len() > 0
}

/// The ways in which an attempt to steal can go.
pub enum StealPlan {
    /// Nothing may be taken.
    NoSteal,
    /// The last bucket is taken whole.
    Bucket,
    /// The only bucket is split.
    Split,
}

/// Which steal the state of the victim allows to a thief that made its
/// estimate at the stealer version `info.stealer_id`.
///
/// A thief whose estimate is out of date gets nothing. The stealer version
/// counts in a `usize`: a victim that has reached the largest one gives
/// nothing either.
pub open spec fn steal_plan(work: LocalWorkView, info: LocalWorkStealInfo) -> StealPlan {
    if work.stealer_id != info.stealer_id || work.stealer_id == usize::MAX {
        StealPlan::NoSteal
    } else if work.buckets.len() > 1 {
        StealPlan::Bucket
    } else if work.buckets.len() == 1 && work.buckets[0].items.len() > 1 {
        StealPlan::Split
    } else {
        StealPlan::NoSteal
    }
}

/// The victim after a steal of its last bucket.
pub open spec fn after_bucket_steal(work: LocalWorkView) -> LocalWorkView {
    LocalWorkView {
        buckets: work.buckets.drop_last(),
        stealer_id: (work.stealer_id + 1) as usize,
        current: work.current,
    }
}

/// The part of a split bucket that the victim keeps.
pub open spec fn kept_half(bucket: BucketView) -> BucketView {
    BucketView { chain: bucket.chain, items: bucket.items.take(kept_len(bucket.items.len()) as int) }
}

/// The part of a split bucket that goes to the thief.
pub open spec fn stolen_half(bucket: BucketView) -> BucketView {
    BucketView { chain: bucket.chain, items: bucket.items.skip(kept_len(bucket.items.len()) as int) }
}

/// The victim after a split of its only bucket.
pub open spec fn after_split_steal(work: LocalWorkView) -> LocalWorkView {
    LocalWorkView {
        buckets: seq![kept_half(work.buckets[0])],
        stealer_id: (work.stealer_id + 1) as usize,
        current: work.current,
    }
}

/// What an attempt to steal may do: `before` and `after` are the victim's
/// work, `stolen` is what the thief gets.
///
/// A split whose estimate saw an idle instance in every pool is abandoned
/// where one of those instances has gone in the meantime; every other
/// outcome is decided by the victim's work alone.
pub open spec fn steal_outcome(
    before: LocalWorkView,
    info: LocalWorkStealInfo,
    after: LocalWorkView,
    stolen: Option<BucketView>,
) -> bool {
    match steal_plan(before, info) {
        StealPlan::NoSteal => stolen is None && after == before,
        StealPlan::Bucket => stolen == Some(before.buckets.last()) && after == after_bucket_steal(
            before,
        ),
        StealPlan::Split => {
            ||| stolen is None && after == before && info.has_all_plugins_available()
            ||| stolen == Some(stolen_half(before.buckets[0])) && after == after_split_steal(before)
        },
    }
}

/// What the thief gets with a stolen bucket: nothing with a whole bucket,
/// and with a split one slot for each pool of the chain, in order, all of
/// them filled if `eager` and all of them empty otherwise.
pub open spec fn stolen_plugins_fit<P: Plugin>(
    plugins: Option<Vec<OptionalPluginAndPool<P>>>,
    plan: StealPlan,
    chain: Seq<Seq<char>>,
    eager: bool,
) -> bool {
    match plugins {
        None => plan is Bucket,
        Some(slots) => plan is Split && slots_fit(slots@, chain, eager),
    }
}

/// One slot for each pool of the chain, in order, all of them filled if
/// `eager` and all of them empty otherwise.
pub open spec fn slots_fit<P: Plugin>(
    slots: Seq<OptionalPluginAndPool<P>>,
    chain: Seq<Seq<char>>,
    eager: bool,
) -> bool {
    &&& slots.len() == chain.len()
    &&& forall|i: int|
        0 <= i < slots.len() ==> (#[trigger] slots[i]).pool.spec_name() == chain[i] && (
        slots[i].plugin is Some <==> eager)
}

/// The view of what a steal returned.
pub open spec fn stolen_view<P: Plugin>(result: Option<StealResult<P>>) -> Option<BucketView> {
    match result {
        Some(stolen) => Some(stolen.work@),
        None => None,
    }
}

/// The pending files of a list of buckets, in the order in which a worker
/// that is left alone takes them.
pub open spec fn pending(buckets: Seq<BucketView>) -> Seq<Seq<char>>
    decreases buckets.len(),
{
    if buckets.len() == 0 {
        Seq::empty()
    } else {
        pending(buckets.drop_last()) + buckets.last().items
    }
}

/// The pending files of a list of buckets are those of its first bucket,
/// followed by those of the buckets after it.
pub proof fn lemma_pending_front(buckets: Seq<BucketView>)
    requires
        buckets.len() > 0,
    ensures
        pending(buckets) == buckets[0].items + pending(buckets.skip(1)),
    decreases buckets.len(),
{
    if buckets.len() == 1 {
        assert(pending(buckets.drop_last()) == Seq::<Seq<char>>::empty());
        assert(pending(buckets.skip(1)) == Seq::<Seq<char>>::empty());
        assert(pending(buckets) =~= buckets[0].items + pending(buckets.skip(1)));
    } else {
        let front = buckets.drop_last();
        lemma_pending_front(front);
        assert(front.skip(1) == buckets.skip(1).drop_last());
        assert(buckets.skip(1).last() == buckets.last());
        assert(front[0] == buckets[0]);
        assert(pending(buckets) =~= buckets[0].items + pending(buckets.skip(1)));
    }
}

/// A bucket that is added to a list of buckets adds its files after the
/// files of the list.
pub proof fn lemma_add_conserves_work(buckets: Seq<BucketView>, bucket: BucketView)
    ensures
        pending(buckets.push(bucket)) == pending(buckets) + bucket.items,
{
    assert(buckets.push(bucket).drop_last() == buckets);
}

/// A steal neither loses nor doubles a file: what the victim had is what it
/// has left, followed by what was stolen.
pub proof fn lemma_steal_conserves_work(
    before: LocalWorkView,
    info: LocalWorkStealInfo,
    after: LocalWorkView,
    stolen: Option<BucketView>,
)
    requires
        steal_outcome(before, info, after, stolen),
    ensures
        pending(before.buckets) == pending(after.buckets) + match stolen {
            Some(bucket) => bucket.items,
            None => Seq::empty(),
        },
{
    match stolen {
        None => {
            assert(pending(before.buckets) =~= pending(before.buckets) + Seq::<Seq<char>>::empty());
        },
        Some(bucket) => {
            if steal_plan(before, info) is Split {
                let only = before.buckets[0];
                let kept = kept_half(only);
                assert(before.buckets.drop_last() == Seq::<BucketView>::empty());
                assert(seq![kept].drop_last() == Seq::<BucketView>::empty());
                assert(pending(before.buckets.drop_last()) == Seq::<Seq<char>>::empty());
                assert(pending(seq![kept].drop_last()) == Seq::<Seq<char>>::empty());
                assert(seq![kept].last() == kept);
                assert(only.items =~= kept.items + stolen_half(only).items);
                assert(pending(before.buckets) =~= pending(after.buckets) + bucket.items);
            }
        },
    }
}

/// A steal moves files from the victim to the thief and does nothing else
/// to them: the files of the victim and the thief together are the same
/// before the steal and after the thief has added what it stole.
pub proof fn lemma_steal_loses_no_file(
    victim: LocalWorkView,
    info: LocalWorkStealInfo,
    victim_after: LocalWorkView,
    stolen: BucketView,
    thief: Seq<BucketView>,
)
    requires
        steal_outcome(victim, info, victim_after, Some(stolen)),
    ensures
        pending(victim_after.buckets).to_multiset().add(
            pending(thief.push(stolen)).to_multiset(),
        ) == pending(victim.buckets).to_multiset().add(pending(thief).to_multiset()),
{
    lemma_steal_conserves_work(victim, info, victim_after, Some(stolen));
    lemma_add_conserves_work(thief, stolen);
    vstd::seq_lib::lemma_multiset_commutative(pending(victim_after.buckets), stolen.items);
    vstd::seq_lib::lemma_multiset_commutative(pending(thief), stolen.items);
    assert(pending(victim_after.buckets).to_multiset().add(
        pending(thief.push(stolen)).to_multiset(),
    ) =~= pending(victim.buckets).to_multiset().add(pending(thief).to_multiset()));
}

/// Taking the next file takes the first of the pending files and leaves
/// the others, in their order.
pub proof fn lemma_take_conserves_work(before: LocalWorkView)
    requires
        well_formed(before),
        before.buckets.len() > 0,
    ensures
        pending(before.buckets) == seq![before.buckets[0].items[0]] + pending(
            after_take(before).buckets,
        ),
        after_take(before).current == Some(pending(before.buckets)[0]),
{
    let first = before.buckets[0];
    let after = after_take(before).buckets;
    lemma_pending_front(before.buckets);
    assert(first.items.len() > 0);
    if first.items.len() == 1 {
        assert(first.items =~= seq![first.items[0]]);
    } else {
        lemma_pending_front(after);
        assert(after.skip(1) == before.buckets.skip(1));
        assert(first.items =~= seq![first.items[0]] + first.items.skip(1));
        assert(pending(before.buckets) =~= seq![first.items[0]] + pending(after));
    }
}

/// The stealer version goes up by exactly one with every steal that takes
/// something, and a steal that takes nothing changes nothing.
pub proof fn lemma_steal_bumps_version(
    before: LocalWorkView,
    info: LocalWorkStealInfo,
    after: LocalWorkView,
    stolen: Option<BucketView>,
)
    requires
        steal_outcome(before, info, after, stolen),
    ensures
        stolen is Some ==> after.stealer_id == before.stealer_id + 1 && before.stealer_id
            == info.stealer_id,
        stolen is None ==> after == before,
{
}

/// Of two thieves that made their estimates at the same stealer version,
/// at most one steals: once a steal has taken something, every attempt with
/// an estimate of that version takes nothing and changes nothing.
pub proof fn lemma_second_steal_fails(
    before: LocalWorkView,
    first: LocalWorkStealInfo,
    between: LocalWorkView,
    stolen: Option<BucketView>,
    second: LocalWorkStealInfo,
    after: LocalWorkView,
    stolen_again: Option<BucketView>,
)
    requires
        steal_outcome(before, first, between, stolen),
        stolen is Some,
        second.stealer_id == first.stealer_id,
        steal_outcome(between, second, after, stolen_again),
    ensures
        stolen_again is None,
        after == between,
{
}

/// A steal leaves no bucket empty, neither with the victim nor with the
/// thief, and takes nothing from a worker that has at most one file left.
pub proof fn lemma_steal_keeps_buckets_filled(
    before: LocalWorkView,
    info: LocalWorkStealInfo,
    after: LocalWorkView,
    stolen: Option<BucketView>,
)
    requires
        well_formed(before),
        steal_outcome(before, info, after, stolen),
    ensures
        well_formed(after),
        stolen matches Some(bucket) ==> bucket.items.len() > 0 && pending(before.buckets).len()
            > 1,
{
    if stolen is Some {
        lemma_steal_conserves_work(before, info, after, stolen);
        if steal_plan(before, info) is Bucket {
            assert forall|i: int| 0 <= i < after.buckets.len() implies (
            #[trigger] after.buckets[i]).items.len() > 0 by {
                assert(after.buckets[i] == before.buckets[i]);
            }
            assert(after.buckets[0].items.len() > 0);
            lemma_pending_front(after.buckets);
        } else {
            assert(after.buckets[0] == kept_half(before.buckets[0]));
        }
    }
}

/// What [`LocalWork::take_next_work`] does to the work.
pub open spec fn after_take(work: LocalWorkView) -> LocalWorkView {
    if work.buckets.len() == 0 {
        LocalWorkView { buckets: work.buckets, stealer_id: work.stealer_id, current: None }
    } else {
        let first = work.buckets[0];
        LocalWorkView {
            buckets: if first.items.len() == 1 {
                work.buckets.skip(1)
            } else {
                work.buckets.update(
                    0,
                    BucketView { chain: first.chain, items: first.items.skip(1) },
                )
            },
            stealer_id: work.stealer_id,
            current: Some(first.items[0]),
        }
    }
}

/// The number of pending files in the first bucket, 0 without a bucket.
pub open spec fn first_bucket_len(work: LocalWorkView) -> nat {
    if work.buckets.len() == 0 {
        0
    } else {
        work.buckets[0].items.len()
    }
}

/// Whether some bucket has a pool of the given name in its chain.
pub open spec fn names_pool(work: LocalWorkView, pool_name: Seq<char>) -> bool {
    exists|i: int, j: int|
        0 <= i < work.buckets.len() && 0 <= j < work.buckets[i].chain.len()
            && #[trigger] work.buckets[i].chain[j] == pool_name
}

/// The pending work of one worker: its buckets, its stealer version, and
/// the file that it is formatting.
#[verifier::reject_recursive_types(P)]
pub struct LocalWork<P: Plugin> {
    work_by_plugin: Vec<LocalPluginWork<P>>,
    stealer_id: usize,
    current_formatting_file_path: Option<FormattingFilePathInfo>,
}

impl<P: Plugin> View for LocalWork<P> {
    type V = LocalWorkView;

    closed spec fn view(&self) -> LocalWorkView {
        LocalWorkView {
            buckets: bucket_views(self.work_by_plugin@),
            stealer_id: self.stealer_id,
            current: match self.current_formatting_file_path {
                Some(info) => Some(info.file_path@),
                None => None,
            },
        }
    }
}

/// Takes an instance from each pool in turn if `eager`, and gives every
/// instance back as soon as one pool has none idle. Without `eager` no pool
/// is touched.
fn take_plugins<P: Plugin>(pools: &Arc<Vec<Arc<PluginPool<P>>>>, eager: bool) -> (taken: Option<
    Vec<OptionalPluginAndPool<P>>,
>)
    ensures
        taken matches Some(slots) ==> slots_fit(slots@, pool_names(pools@), eager),
        taken is None ==> eager,
{
    let mut slots: Vec<OptionalPluginAndPool<P>> = Vec::new();
    let mut i: usize = 0;
    while i < pools.len()
        invariant
            i <= pools.len(),
            slots_fit(slots@, pool_names(pools@).take(i as int), eager),
        decreases pools.len() - i,
    {
        let pool = &pools[i];
        let plugin = if eager {
            match pool.take_if_available() {
                Some(plugin) => Some(plugin),
                None => {
                    // the estimate saw an idle instance that has gone since
                    while slots.len() > 0
                        decreases slots.len(),
                    {
                        match slots.pop() {
                            Some(slot) => slot.release_plugin(),
                            None => {},
                        }
                    }
                    return None;
                },
            }
        } else {
            None
        };
        slots.push(OptionalPluginAndPool { plugin, pool: share(pool) });
        i += 1;
    }
    assert(pool_names(pools@).take(pools@.len() as int) == pool_names(pools@));
    Some(slots)
}

impl<P: Plugin> LocalWork<P> {
    #[verifier::type_invariant]
    spec fn type_inv(self) -> bool {
        well_formed(self@)
    }

    /// The work of a worker that starts with the given buckets. Buckets
    /// without files are left out.
    pub fn new(work_by_plugin: Vec<LocalPluginWork<P>>) -> (work: Self)
        ensures
            well_formed(work@),
            work@.buckets == bucket_views(work_by_plugin@).filter(has_files()),
            work@.stealer_id == 0,
            work@.current is None,
    {
        let ghost keep = has_files();
        let ghost all = bucket_views(work_by_plugin@);
        let ghost mut taken: int = 0;
        let mut given = work_by_plugin;
        let mut kept: Vec<LocalPluginWork<P>> = Vec::new();
        proof {
            reveal(Seq::filter);
            assert(all.take(0).filter(keep) == Seq::<BucketView>::empty());
            assert(bucket_views(given@) == all.skip(0));
        }
        while given.len() > 0
            invariant
                0 <= taken <= all.len(),
                keep == has_files(),
                bucket_views(given@) == all.skip(taken),
                bucket_views(kept@) == all.take(taken).filter(keep),
                forall|i: int| 0 <= i < kept@.len() ==> (#[trigger] kept@[i])@.items.len() > 0,
            decreases given.len(),
        {
            let ghost given_before = bucket_views(given@);
            let ghost kept_before = bucket_views(kept@);
            assert(given_before.len() == given@.len());
            let bucket = given.remove(0);
            proof {
                reveal(Seq::filter);
                assert(taken < all.len());
                assert(bucket@ == given_before[0]);
                assert(bucket_views(given@) =~= given_before.skip(1));
                assert(given_before.skip(1) =~= all.skip(taken + 1));
                assert(all.take(taken + 1).drop_last() =~= all.take(taken));
                assert(all.take(taken + 1).last() == bucket@);
            }
            if bucket.work_items_len() > 0 {
                kept.push(bucket);
                assert(bucket_views(kept@) == kept_before.push(bucket@));
            }
            proof {
                taken = taken + 1;
            }
        }
        assert(all.take(all.len() as int) == all);
        LocalWork { work_by_plugin: kept, stealer_id: 0, current_formatting_file_path: None }
    }

    /// The file that the worker is formatting, if it is formatting one.
    pub fn get_current_formatting_file_path_info(&self) -> (info: Option<FormattingFilePathInfo>)
        ensures
            well_formed(self@),
            match info {
                Some(info) => self@.current == Some(info.file_path@),
                None => self@.current is None,
            },
    {
        proof {
            use_type_invariant(self);
        }
        match &self.current_formatting_file_path {
            Some(info) => Some(FormattingFilePathInfo { file_path: info.file_path.clone() }),
            None => None,
        }
    }

    /// Whether some bucket has a pool of the given name in its chain.
    pub fn has_pool(&self, pool_name: &str) -> (found: bool)
        ensures
            well_formed(self@),
            found == names_pool(self@, pool_name@),
    {
        proof {
            use_type_invariant(self);
        }
        let wanted = pool_name.to_owned();
        let mut i: usize = 0;
        while i < self.work_by_plugin.len()
            invariant
                i <= self.work_by_plugin.len(),
                well_formed(self@),
                wanted@ == pool_name@,
                forall|a: int, b: int|
                    0 <= a < i && 0 <= b < self@.buckets[a].chain.len()
                        ==> #[trigger] self@.buckets[a].chain[b] != pool_name@,
            decreases self.work_by_plugin.len() - i,
        {
            let work = &self.work_by_plugin[i];
            let pools = work.pools();
            assert(self@.buckets[i as int] == work@);
            let mut j: usize = 0;
            while j < pools.len()
                invariant
                    j <= pools.len(),
                    i < self.work_by_plugin.len(),
                    well_formed(self@),
                    wanted@ == pool_name@,
                    pool_names(pools@) == self@.buckets[i as int].chain,
                    forall|b: int| 0 <= b < j ==> #[trigger] self@.buckets[i as int].chain[b] != pool_name@,
                decreases pools.len() - j,
            {
                assert(pool_names(pools@)[j as int] == pools@[j as int].spec_name());
                if pools[j].has_name(&wanted) {
                    return true;
                }
                j += 1;
            }
            i += 1;
        }
        false
    }

    /// Estimates what stealing from this worker would cost, from what the
    /// pools of its first bucket have measured by now. See
    /// [`steal_estimate`]: `None` says that stealing is not worth it.
    pub fn calculate_worthwhile_steal_time(&self) -> (estimate: Option<LocalWorkStealInfo>)
        ensures
            well_formed(self@),
            exists|snapshots: Seq<PoolTimeSnapshot>| #[trigger]
                steal_estimate(
                    self@.stealer_id,
                    self@.buckets.len(),
                    first_bucket_len(self@),
                    snapshots,
                ) == estimate && (self@.buckets.len() > 0 ==> snapshots.len()
                    == self@.buckets[0].chain.len()),
    {
        proof {
            use_type_invariant(self);
        }
        let mut snapshots: Vec<PoolTimeSnapshot> = Vec::new();
        let mut items: usize = 0;
        if self.work_by_plugin.len() > 0 {
            let work = &self.work_by_plugin[0];
            assert(self@.buckets[0] == work@);
            items = work.work_items_len();
            let pools = work.pools();
            let mut i: usize = 0;
            while i < pools.len()
                invariant
                    i <= pools.len(),
                    snapshots@.len() == i,
                decreases pools.len() - i,
            {
                snapshots.push(pools[i].get_time_snapshot());
                i += 1;
            }
            assert(pool_names(pools@).len() == pools@.len());
            assert(snapshots@.len() == self@.buckets[0].chain.len());
        }
        let estimate = estimate_steal(
            self.stealer_id,
            self.work_by_plugin.len(),
            items,
            &snapshots,
        );
        assert(steal_estimate(
            self@.stealer_id,
            self@.buckets.len(),
            first_bucket_len(self@),
            snapshots@,
        ) == estimate);
        estimate
    }

    /// Lets a thief that holds the estimate `steal_info` steal from this
    /// work. See [`steal_outcome`] for what is taken and what is left.
    ///
    /// Where a bucket is split for a thief whose estimate saw an idle
    /// instance in every pool of the chain, those instances are checked out
    /// for the thief now. Should one of them have gone, every instance that
    /// was checked out for this attempt is released, nothing is stolen and
    /// the work is left as it was.
    pub fn try_steal(&mut self, steal_info: LocalWorkStealInfo) -> (result: Option<StealResult<P>>)
        ensures
            well_formed(old(self)@),
            well_formed(final(self)@),
            steal_outcome(old(self)@, steal_info, final(self)@, stolen_view(result)),
            result matches Some(stolen) ==> stolen.work@.items.len() > 0 && stolen_plugins_fit(
                stolen.plugins,
                steal_plan(old(self)@, steal_info),
                stolen.work@.chain,
                steal_info.has_all_plugins_available(),
            ),
    {
        proof {
            use_type_invariant(&*self);
        }
        if self.stealer_id != steal_info.stealer_id || self.stealer_id == usize::MAX {
            return None;  // someone stole before us
        }
        let bucket_count = self.work_by_plugin.len();
        if bucket_count > 1 {
            // steal immediately
            let mut buckets: Vec<LocalPluginWork<P>> = Vec::new();
            std::mem::swap(&mut self.work_by_plugin, &mut buckets);
            let ghost before = bucket_views(buckets@);
            assert(before == old(self)@.buckets);
            let popped = buckets.pop();
            assert(bucket_views(buckets@) =~= before.drop_last());
            assert(popped matches Some(work) && work@ == before.last());
            assert forall|i: int| 0 <= i < buckets@.len() implies (#[trigger] bucket_views(
                buckets@,
            )[i]).items.len() > 0 by {
                assert(bucket_views(buckets@)[i] == before[i]);
            }
            std::mem::swap(&mut self.work_by_plugin, &mut buckets);
            // a new version makes the other threads look again at whom to steal from
            self.stealer_id = self.stealer_id + 1;
            match popped {
                Some(work) => Some(StealResult { plugins: None, work }),
                None => None,
            }
        } else if bucket_count == 1 && self.work_by_plugin[0].work_items_len() > 1 {
            assert(self@.buckets[0] == self.work_by_plugin[0]@);
            let pools = share(self.work_by_plugin[0].pools());
            let stolen_plugins = match take_plugins(&pools, steal_info.has_all_plugins_available()) {
                Some(slots) => slots,
                None => {
                    return None;
                },
            };
            let mut buckets: Vec<LocalPluginWork<P>> = Vec::new();
            std::mem::swap(&mut self.work_by_plugin, &mut buckets);
            let ghost before = bucket_views(buckets@);
            assert(before == old(self)@.buckets);
            let popped = buckets.pop();
            match popped {
                Some(mut bucket) => {
                    assert(bucket@ == before[0]);
                    let work = bucket.split();
                    buckets.push(bucket);
                    assert(bucket_views(buckets@) =~= seq![kept_half(before[0])]);
                    assert(work@ == stolen_half(before[0]));
                    assert(work@.chain == pool_names(pools@));
                    assert(work@.items.len() > 0);
                    assert(bucket_views(buckets@)[0].items.len() > 0);
                    std::mem::swap(&mut self.work_by_plugin, &mut buckets);
                    self.stealer_id = self.stealer_id + 1;
                    Some(StealResult { plugins: Some(stolen_plugins), work })
                },
                None => None,
            }
        } else {
            None
        }
    }

    /// Appends a bucket, as one that was just stolen. A bucket without
    /// files is not kept.
    pub fn add_work(&mut self, work: LocalPluginWork<P>)
        ensures
            well_formed(old(self)@),
            well_formed(final(self)@),
            final(self)@.stealer_id == old(self)@.stealer_id,
            final(self)@.current == old(self)@.current,
            final(self)@.buckets == if work@.items.len() > 0 {
                old(self)@.buckets.push(work@)
            } else {
                old(self)@.buckets
            },
    {
        proof {
            use_type_invariant(&*self);
        }
        if work.work_items_len() > 0 {
            let mut buckets: Vec<LocalPluginWork<P>> = Vec::new();
            std::mem::swap(&mut self.work_by_plugin, &mut buckets);
            let ghost before = bucket_views(buckets@);
            assert(before == old(self)@.buckets);
            buckets.push(work);
            assert(bucket_views(buckets@) =~= before.push(work@));
            assert forall|i: int| 0 <= i < buckets@.len() implies (#[trigger] bucket_views(
                buckets@,
            )[i]).items.len() > 0 by {
                if i < before.len() {
                    assert(bucket_views(buckets@)[i] == before[i]);
                }
            }
            std::mem::swap(&mut self.work_by_plugin, &mut buckets);
        }
    }

    /// Takes the next file of the first bucket, with the pools of its
    /// chain, and records it as the file that is being formatted. A bucket
    /// leaves the list with its last file. Without a bucket, nothing is
    /// being formatted any more.
    pub fn take_next_work(&mut self) -> (next: Option<(Arc<Vec<Arc<PluginPool<P>>>>, String)>)
        ensures
            well_formed(old(self)@),
            well_formed(final(self)@),
            final(self)@ == after_take(old(self)@),
            next is Some <==> old(self)@.buckets.len() > 0,
            next matches Some((pools, file_path)) ==> pool_names(pools@) == old(self)@.buckets[0].chain && file_path@ == old(self)@.buckets[0].items[0],
    {
        proof {
            use_type_invariant(&*self);
        }
        if self.work_by_plugin.len() == 0 {
            self.current_formatting_file_path = None;
            return None;
        }
        let mut buckets: Vec<LocalPluginWork<P>> = Vec::new();
        std::mem::swap(&mut self.work_by_plugin, &mut buckets);
        let ghost before = bucket_views(buckets@);
        assert(before == old(self)@.buckets);
        let mut first = buckets.remove(0);
        assert(first@ == before[0]);
        assert(bucket_views(buckets@) =~= before.skip(1));
        let pools = share(first.pools());
        let file_path = first.take_next_work_item();
        if first.work_items_len() > 0 {
            buckets.insert(0, first);
            assert(bucket_views(buckets@) =~= before.update(
                0,
                BucketView { chain: before[0].chain, items: before[0].items.skip(1) },
            ));
        }
        assert forall|i: int| 0 <= i < buckets@.len() implies (#[trigger] bucket_views(
            buckets@,
        )[i]).items.len() > 0 by {
            if old(self)@.buckets[0].items.len() == 1 {
                assert(bucket_views(buckets@)[i] == before[i + 1]);
            } else if i > 0 {
                assert(bucket_views(buckets@)[i] == before[i]);
            }
        }
        std::mem::swap(&mut self.work_by_plugin, &mut buckets);
        self.current_formatting_file_path = Some(
            FormattingFilePathInfo { file_path: file_path.clone() },
        );
        Some((pools, file_path))
    }

    /// Drops the first bucket with the files that are left in it, after a
    /// failure of its chain that another try would not mend.
    pub fn clear_work_for_current_plugin(&mut self)
        ensures
            well_formed(old(self)@),
            well_formed(final(self)@),
            final(self)@.stealer_id == old(self)@.stealer_id,
            final(self)@.current == old(self)@.current,
            final(self)@.buckets == if old(self)@.buckets.len() > 0 {
                old(self)@.buckets.skip(1)
            } else {
                old(self)@.buckets
            },
    {
        proof {
            use_type_invariant(&*self);
        }
        if self.work_by_plugin.len() > 0 {
            let mut buckets: Vec<LocalPluginWork<P>> = Vec::new();
            std::mem::swap(&mut self.work_by_plugin, &mut buckets);
            let ghost before = bucket_views(buckets@);
            assert(before == old(self)@.buckets);
            let _ = buckets.remove(0);
            assert(bucket_views(buckets@) =~= before.skip(1));
            assert forall|i: int| 0 <= i < buckets@.len() implies (#[trigger] bucket_views(
                buckets@,
            )[i]).items.len() > 0 by {
                assert(bucket_views(buckets@)[i] == before[i + 1]);
            }
            std::mem::swap(&mut self.work_by_plugin, &mut buckets);
        }
    }
}

} // verus!
