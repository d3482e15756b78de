//! The cost model that decides whether stealing from a worker is worth it,
//! and the choice of the worker to steal from.
//!
//! All times are milliseconds, and every sum or product of times is capped
//! at the largest `u64`.

use crate::pool::PoolTimeSnapshot;
use vstd::prelude::*;

verus! {

/// How work would be stolen.
#[derive(Clone, Copy, Debug, PartialEq, Eq)]
pub enum LocalWorkStealKind {
    /// A whole bucket would be taken: the victim has more than one.
    Immediate,
    /// The victim's only bucket would be split.
    Items {
        /// Whether every pool of the chain had an idle instance.
        all_plugins_available: bool,
    },
}

/// An estimate of what stealing from a worker would cost, made while looking
/// at the worker's pending work.
#[derive(Clone, Copy, Debug, PartialEq, Eq)]
pub struct LocalWorkStealInfo {
    /// The victim's stealer version when the estimate was made.
    pub stealer_id: usize,
    /// The estimated time until the thief is done with what it would steal.
    pub steal_time: u64,
    pub kind: LocalWorkStealKind,
}

impl LocalWorkStealInfo {
    /// Whether the estimate is one for a split and saw an idle instance in
    /// every pool of the chain.
    pub open spec fn spec_has_all_plugins_available(&self) -> bool {
        self.kind matches LocalWorkStealKind::Items { all_plugins_available } && all_plugins_available
    }

    /// Whether the estimate saw an idle instance in every pool of the chain
    /// of the bucket that would be split.
    #[verifier::when_used_as_spec(spec_has_all_plugins_available)]
    pub fn has_all_plugins_available(&self) -> (available: bool)
        ensures
            available == self.spec_has_all_plugins_available(),
    {
        match self.kind {
            LocalWorkStealKind::Items { all_plugins_available } => all_plugins_available,
            LocalWorkStealKind::Immediate => false,
        }
    }
}

/// `a + b`, capped at the largest `u64`.
pub open spec fn capped_add(a: int, b: int) -> int {
    if a + b > u64::MAX {
        u64::MAX as int
    } else {
        a + b
    }
}

/// `a * b`, capped at the largest `u64`.
pub open spec fn capped_mul(a: int, b: int) -> int {
    if a * b > u64::MAX {
        u64::MAX as int
    } else {
        a * b
    }
}

/// The time that a thief would spend on creating instances: the startup
/// times of the pools that have no idle instance.
pub open spec fn startup_cost(snapshots: Seq<PoolTimeSnapshot>) -> int
    decreases snapshots.len(),
{
    if snapshots.len() == 0 {
        0
    } else {
        let last = snapshots.last();
        capped_add(
            startup_cost(snapshots.drop_last()),
            if last.has_plugin_available {
                0
            } else {
                last.startup_time as int
            },
        )
    }
}

/// The estimated time to take one file through the chain.
pub open spec fn item_cost(snapshots: Seq<PoolTimeSnapshot>) -> int
    decreases snapshots.len(),
{
    if snapshots.len() == 0 {
        0
    } else {
        capped_add(item_cost(snapshots.drop_last()), snapshots.last().average_format_time as int)
    }
}

/// Whether every pool had an idle instance.
pub open spec fn all_available(snapshots: Seq<PoolTimeSnapshot>) -> bool {
    forall|i: int| 0 <= i < snapshots.len() ==> (#[trigger] snapshots[i]).has_plugin_available
}

/// The estimate for a worker with `bucket_count` buckets, `items` pending
/// files in the first of them, and the given measurements of the pools of
/// that bucket's chain.
///
/// A worker without work, or with one bucket of at most one file, is never
/// worth stealing from. A worker with several buckets always is: a whole
/// bucket changes hands at no cost. A worker with one bucket is, if the
/// thief would need no longer to create its instances than the victim needs
/// for the files that it would keep.
pub open spec fn steal_estimate(
    stealer_id: usize,
    bucket_count: nat,
    items: nat,
    snapshots: Seq<PoolTimeSnapshot>,
) -> Option<LocalWorkStealInfo> {
    if bucket_count == 0 {
        None
    } else if bucket_count > 1 {
        Some(LocalWorkStealInfo { stealer_id, steal_time: 0, kind: LocalWorkStealKind::Immediate })
    } else if items <= 1 {
        None
    } else {
        let stolen = (items / 2) as int;
        let kept = items - stolen;
        let per_item = item_cost(snapshots);
        let startup = startup_cost(snapshots);
        if startup <= capped_mul(kept, per_item) {
            Some(
                LocalWorkStealInfo {
                    stealer_id,
                    steal_time: capped_add(startup, capped_mul(stolen, per_item)) as u64,
                    kind: LocalWorkStealKind::Items {
                        all_plugins_available: all_available(snapshots),
                    },
                },
            )
        } else {
            None
        }
    }
}

fn add_capped(a: u64, b: u64) -> (sum: u64)
    ensures
        sum == capped_add(a as int, b as int),
{
    if a > u64::MAX - b {
        u64::MAX
    } else {
        a + b
    }
}

fn mul_capped(a: u64, b: u64) -> (product: u64)
    ensures
        product == capped_mul(a as int, b as int),
{
    match a.checked_mul(b) {
        Some(product) => product,
        None => u64::MAX,
    }
}

fn count_as_u64(count: usize) -> (n: u64)
    ensures
        n == count,
{
    count as u64
}

/// Estimates what stealing from a worker would cost. See [`steal_estimate`].
pub fn estimate_steal(
    stealer_id: usize,
    bucket_count: usize,
    items: usize,
    snapshots: &Vec<PoolTimeSnapshot>,
) -> (estimate: Option<LocalWorkStealInfo>)
    ensures
        estimate == steal_estimate(stealer_id, bucket_count as nat, items as nat, snapshots@),
{
    if bucket_count == 0 {
        return None;
    }
    if bucket_count > 1 {
        return Some(
            LocalWorkStealInfo { stealer_id, steal_time: 0, kind: LocalWorkStealKind::Immediate },
        );
    }
    if items <= 1 {
        return None;
    }
    let mut startup: u64 = 0;
    let mut per_item: u64 = 0;
    let mut available = true;
    let mut i: usize = 0;
    while i < snapshots.len()
        invariant
            i <= snapshots.len(),
            startup == startup_cost(snapshots@.take(i as int)),
            per_item == item_cost(snapshots@.take(i as int)),
            available == all_available(snapshots@.take(i as int)),
        decreases snapshots.len() - i,
    {
        let snapshot = &snapshots[i];
        proof {
            let next = snapshots@.take(i + 1);
            assert(next.drop_last() == snapshots@.take(i as int));
            assert(next.last() == snapshots@[i as int]);
            if all_available(next) {
                assert forall|j: int| 0 <= j < i implies (#[trigger] snapshots@.take(
                    i as int,
                )[j]).has_plugin_available by {
                    assert(next[j].has_plugin_available);
                }
                assert(next[i as int].has_plugin_available);
            }
        }
        startup = add_capped(
            startup,
            if snapshot.has_plugin_available {
                0
            } else {
                snapshot.startup_time
            },
        );
        per_item = add_capped(per_item, snapshot.average_format_time);
        available = available && snapshot.has_plugin_available;
        i += 1;
    }
    assert(snapshots@.take(snapshots@.len() as int) == snapshots@);
    let stolen = count_as_u64(items / 2);
    let kept = count_as_u64(items - items / 2);
    if startup <= mul_capped(kept, per_item) {
        Some(
            LocalWorkStealInfo {
                stealer_id,
                steal_time: add_capped(startup, mul_capped(stolen, per_item)),
                kind: LocalWorkStealKind::Items { all_plugins_available: available },
            },
        )
    } else {
        None
    }
}

/// Whether `candidates[index]` is an estimate that a thief with the index
/// `own_index` may act on.
pub open spec fn is_candidate(
    candidates: Seq<Option<LocalWorkStealInfo>>,
    own_index: usize,
    index: int,
) -> bool {
    0 <= index < candidates.len() && index != own_index && candidates[index] is Some
}

/// Picks the worker to steal from: among the workers other than the thief
/// whose estimate says that stealing is worth it, the one with the least
/// steal time, and of several such the first.
pub fn pick_steal_candidate(candidates: &Vec<Option<LocalWorkStealInfo>>, own_index: usize) -> (picked:
    Option<usize>)
    ensures
        picked is None <==> forall|i: int| !#[trigger] is_candidate(candidates@, own_index, i),
        picked matches Some(best) ==> {
            &&& is_candidate(candidates@, own_index, best as int)
            &&& forall|i: int| #[trigger]
                is_candidate(candidates@, own_index, i) ==> candidates@[best as int].unwrap().steal_time
                    <= candidates@[i].unwrap().steal_time
            &&& forall|i: int| #[trigger]
                is_candidate(candidates@, own_index, i) && i < best ==> candidates@[best as int].unwrap().steal_time
                    < candidates@[i].unwrap().steal_time
        },
{
    let mut picked: Option<usize> = None;
    let mut best_time: u64 = 0;
    let mut i: usize = 0;
    while i < candidates.len()
        invariant
            i <= candidates.len(),
            picked is None <==> forall|j: int|
                0 <= j < i ==> !#[trigger] is_candidate(candidates@, own_index, j),
            picked matches Some(best) ==> {
                &&& best < i
                &&& is_candidate(candidates@, own_index, best as int)
                &&& best_time == candidates@[best as int].unwrap().steal_time
                &&& forall|j: int| #[trigger]
                    is_candidate(candidates@, own_index, j) && j < i ==> best_time
                        <= candidates@[j].unwrap().steal_time
                &&& forall|j: int| #[trigger]
                    is_candidate(candidates@, own_index, j) && j < best ==> best_time
                        < candidates@[j].unwrap().steal_time
            },
        decreases candidates.len() - i,
    {
        if i != own_index {
            match &candidates[i] {
                Some(info) => {
                    let better = match picked {
                        Some(_) => info.steal_time < best_time,
                        None => true,
                    };
                    if better {
                        picked = Some(i);
                        best_time = info.steal_time;
                    }
                },
                None => {},
            }
        }
        proof {
            if let Some(best) = picked {
                assert(is_candidate(candidates@, own_index, best as int));
            }
        }
        i += 1;
    }
    picked
}

} // verus!
