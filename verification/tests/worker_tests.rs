use format_scheduler::bucket::LocalPluginWork;
use format_scheduler::local_work::LocalWork;
use format_scheduler::pool::Plugin;
use format_scheduler::pool::PluginPool;
use format_scheduler::pool::TakePluginResult;
use format_scheduler::steal::LocalWorkStealInfo;
use format_scheduler::steal::LocalWorkStealKind;
use format_scheduler::worker::Worker;
use std::sync::Arc;

struct TagPlugin {
    tag: String,
}

impl Plugin for TagPlugin {
    type Setup = String;

    fn config_diagnostic_count(_setup: &String) -> usize {
        0
    }

    fn initialize(setup: &String) -> Result<Self, String> {
        Ok(TagPlugin { tag: setup.clone() })
    }

    fn format_text(&mut self, _setup: &String, _file_path: &str, file_text: &str) -> Result<String, String> {
        Ok(format!("{}{}", file_text, self.tag))
    }
}

type Pools = Arc<Vec<Arc<PluginPool<TagPlugin>>>>;

fn pool(name: &str, capacity: usize) -> Arc<PluginPool<TagPlugin>> {
    Arc::new(PluginPool::new(name.to_string(), capacity, name.to_string()))
}

fn chain(names: &[&str]) -> Pools {
    Arc::new(names.iter().map(|name| pool(name, 2)).collect())
}

fn paths(names: &[&str]) -> Vec<String> {
    names.iter().map(|name| name.to_string()).collect()
}

fn bucket(pools: &Pools, files: &[&str]) -> LocalPluginWork<TagPlugin> {
    LocalPluginWork::new(pools.clone(), paths(files))
}

fn names_of(pools: &Pools) -> Vec<String> {
    pools.iter().map(|pool| pool.name().to_string()).collect()
}

/// Takes every file that is left, with the names of its chain.
fn drain(work: &mut LocalWork<TagPlugin>) -> Vec<(Vec<String>, String)> {
    let mut taken = Vec::new();
    for _ in 0..1000 {
        match work.take_next_work() {
            Some((pools, file_path)) => taken.push((names_of(&pools), file_path)),
            None => return taken,
        }
    }
    panic!("the work does not end")
}

fn split_info(stealer_id: usize, all_plugins_available: bool) -> LocalWorkStealInfo {
    LocalWorkStealInfo {
        stealer_id,
        steal_time: 0,
        kind: LocalWorkStealKind::Items { all_plugins_available },
    }
}

fn immediate_info(stealer_id: usize) -> LocalWorkStealInfo {
    LocalWorkStealInfo { stealer_id, steal_time: 0, kind: LocalWorkStealKind::Immediate }
}

/// Creates an instance through a checkout and releases it, so that the pool
/// has one idle instance more.
fn warm_up(pool: &PluginPool<TagPlugin>) {
    match pool.take_or_create_checking_config_diagnostics() {
        Ok(TakePluginResult::Success(plugin)) => pool.release(plugin),
        _ => panic!("the configuration is sound"),
    }
}

#[test]
fn bucket_takes_files_in_order() {
    let pools = chain(&["a"]);
    let mut work = bucket(&pools, &["f1", "f2", "f3"]);
    assert_eq!(work.work_items_len(), 3);
    assert_eq!(work.take_next_work_item(), "f1");
    assert_eq!(work.take_next_work_item(), "f2");
    assert_eq!(work.work_items_len(), 1);
    assert_eq!(work.take_next_work_item(), "f3");
    assert_eq!(work.work_items_len(), 0);
}

#[test]
fn bucket_split_keeps_the_larger_half_in_front() {
    let pools = chain(&["a", "b"]);
    let mut work = bucket(&pools, &["f1", "f2", "f3", "f4", "f5"]);
    let mut stolen = work.split();
    assert_eq!(work.work_items_len(), 3);
    assert_eq!(stolen.work_items_len(), 2);
    assert_eq!(work.take_next_work_item(), "f1");
    assert_eq!(stolen.take_next_work_item(), "f4");
    assert_eq!(stolen.take_next_work_item(), "f5");
    assert_eq!(names_of(stolen.pools()), vec!["a", "b"]);
    assert_eq!(names_of(work.pools()), vec!["a", "b"]);
}

#[test]
fn bucket_split_of_one_file_steals_nothing() {
    let pools = chain(&["a"]);
    let mut work = bucket(&pools, &["f1"]);
    let stolen = work.split();
    assert_eq!(work.work_items_len(), 1);
    assert_eq!(stolen.work_items_len(), 0);
}

#[test]
fn local_work_leaves_empty_buckets_out() {
    let a = chain(&["a"]);
    let b = chain(&["b"]);
    let mut work = LocalWork::new(vec![bucket(&a, &[]), bucket(&b, &["f1"]), bucket(&a, &[])]);
    assert!(!work.has_pool("a"));
    assert!(work.has_pool("b"));
    assert_eq!(drain(&mut work), vec![(paths(&["b"]), "f1".to_string())]);
}

#[test]
fn local_work_takes_buckets_front_to_back() {
    let a = chain(&["a"]);
    let b = chain(&["b", "c"]);
    let mut work = LocalWork::new(vec![bucket(&a, &["f1", "f2"]), bucket(&b, &["f3"])]);
    assert!(work.get_current_formatting_file_path_info().is_none());
    let (pools, file_path) = work.take_next_work().expect("a file");
    assert_eq!(names_of(&pools), vec!["a"]);
    assert_eq!(file_path, "f1");
    assert_eq!(work.get_current_formatting_file_path_info().expect("a file").file_path, "f1");
    let rest = drain(&mut work);
    assert_eq!(
        rest,
        vec![(paths(&["a"]), "f2".to_string()), (paths(&["b", "c"]), "f3".to_string())]
    );
    assert!(work.get_current_formatting_file_path_info().is_none());
    assert!(work.take_next_work().is_none());
}

#[test]
fn local_work_has_pool_looks_at_every_chain() {
    let a = chain(&["a"]);
    let b = chain(&["b", "c"]);
    let work = LocalWork::new(vec![bucket(&a, &["f1"]), bucket(&b, &["f2"])]);
    assert!(work.has_pool("a"));
    assert!(work.has_pool("b"));
    assert!(work.has_pool("c"));
    assert!(!work.has_pool("d"));
    assert!(!work.has_pool(""));
}

#[test]
fn local_work_add_work_appends_and_ignores_empty_buckets() {
    let a = chain(&["a"]);
    let b = chain(&["b"]);
    let mut work = LocalWork::new(vec![bucket(&a, &["f1"])]);
    work.add_work(bucket(&b, &[]));
    assert!(!work.has_pool("b"));
    work.add_work(bucket(&b, &["f2"]));
    assert!(work.has_pool("b"));
    assert_eq!(
        drain(&mut work),
        vec![(paths(&["a"]), "f1".to_string()), (paths(&["b"]), "f2".to_string())]
    );
}

#[test]
fn local_work_clear_drops_the_first_bucket_only() {
    let a = chain(&["a"]);
    let b = chain(&["b"]);
    let mut work = LocalWork::new(vec![bucket(&a, &["f1", "f2"]), bucket(&b, &["f3"])]);
    work.clear_work_for_current_plugin();
    assert!(!work.has_pool("a"));
    assert_eq!(drain(&mut work), vec![(paths(&["b"]), "f3".to_string())]);
    work.clear_work_for_current_plugin();
    assert!(work.take_next_work().is_none());
}

#[test]
fn steal_takes_the_last_bucket_whole() {
    let a = chain(&["a"]);
    let b = chain(&["b"]);
    let mut work = LocalWork::new(vec![bucket(&a, &["f1", "f2"]), bucket(&b, &["f3", "f4"])]);
    let mut stolen = work.try_steal(immediate_info(0)).expect("a bucket");
    assert!(stolen.plugins.is_none());
    assert_eq!(names_of(stolen.work.pools()), vec!["b"]);
    assert_eq!(stolen.work.work_items_len(), 2);
    assert_eq!(stolen.work.take_next_work_item(), "f3");
    assert!(!work.has_pool("b"));
    assert_eq!(drain(&mut work).len(), 2);
}

#[test]
fn steal_with_stale_version_gets_nothing() {
    let a = chain(&["a"]);
    let b = chain(&["b"]);
    let mut work = LocalWork::new(vec![bucket(&a, &["f1", "f2"]), bucket(&b, &["f3"])]);
    assert!(work.try_steal(immediate_info(1)).is_none());
    assert!(work.has_pool("b"));
    assert_eq!(drain(&mut work).len(), 3);
}

#[test]
fn second_steal_against_the_same_version_fails() {
    let a = chain(&["a"]);
    let b = chain(&["b"]);
    let c = chain(&["c"]);
    let mut work = LocalWork::new(vec![
        bucket(&a, &["f1"]),
        bucket(&b, &["f2"]),
        bucket(&c, &["f3"]),
    ]);
    let seen_by_both = immediate_info(0);
    assert!(work.try_steal(seen_by_both).is_some());
    assert!(work.try_steal(seen_by_both).is_none());
    assert!(work.has_pool("b"));
    // a new look at the victim sees the new version
    let again = work.calculate_worthwhile_steal_time().expect("two buckets are left");
    assert_eq!(again.stealer_id, 1);
    assert!(work.try_steal(again).is_some());
    assert!(!work.has_pool("b"));
}

#[test]
fn steal_splits_the_only_bucket() {
    let a = chain(&["a", "b"]);
    let mut work = LocalWork::new(vec![bucket(&a, &["f1", "f2", "f3"])]);
    let mut stolen = work.try_steal(split_info(0, false)).expect("a split");
    let slots = stolen.plugins.expect("slots come with a split");
    assert_eq!(slots.len(), 2);
    assert!(slots.iter().all(|slot| slot.plugin.is_none()));
    assert_eq!(slots[0].pool.name(), "a");
    assert_eq!(slots[1].pool.name(), "b");
    assert_eq!(stolen.work.work_items_len(), 1);
    assert_eq!(stolen.work.take_next_work_item(), "f3");
    assert_eq!(
        drain(&mut work),
        vec![(paths(&["a", "b"]), "f1".to_string()), (paths(&["a", "b"]), "f2".to_string())]
    );
}

#[test]
fn steal_from_one_bucket_with_one_file_gets_nothing() {
    let a = chain(&["a"]);
    let mut work = LocalWork::new(vec![bucket(&a, &["f1"])]);
    assert!(work.try_steal(split_info(0, false)).is_none());
    assert!(work.try_steal(immediate_info(0)).is_none());
    assert_eq!(drain(&mut work).len(), 1);
    assert!(work.try_steal(immediate_info(0)).is_none());
}

#[test]
fn eager_split_checks_the_instances_out() {
    let a = chain(&["a", "b"]);
    warm_up(&a[0]);
    warm_up(&a[1]);
    let mut work = LocalWork::new(vec![bucket(&a, &["f1", "f2"])]);
    let stolen = work.try_steal(split_info(0, true)).expect("a split");
    let slots = stolen.plugins.expect("slots come with a split");
    assert_eq!(slots.len(), 2);
    assert!(slots.iter().all(|slot| slot.plugin.is_some()));
    assert_eq!(slots[0].plugin.as_ref().expect("an instance").tag, "a");
    assert_eq!(slots[1].plugin.as_ref().expect("an instance").tag, "b");
    // the instances are held by the thief now
    assert!(a[0].take_if_available().is_none());
    assert!(a[1].take_if_available().is_none());
    for slot in slots {
        slot.release_plugin();
    }
    assert!(a[0].take_if_available().is_some());
    assert!(a[1].take_if_available().is_some());
}

#[test]
fn eager_split_is_rolled_back_when_an_instance_has_gone() {
    let a = chain(&["a", "b"]);
    warm_up(&a[0]);
    // the pool of "b" has no idle instance
    let mut work = LocalWork::new(vec![bucket(&a, &["f1", "f2"])]);
    assert!(work.try_steal(split_info(0, true)).is_none());
    // the instance of "a" that was taken for the attempt is back
    assert!(a[0].get_time_snapshot().has_plugin_available);
    // and the victim is as it was: the same estimate is still good
    let stolen = work.try_steal(split_info(0, false)).expect("a split");
    assert_eq!(stolen.work.work_items_len(), 1);
    assert_eq!(drain(&mut work), vec![(paths(&["a", "b"]), "f1".to_string())]);
}

#[test]
fn estimate_of_local_work_follows_the_buckets() {
    let a = chain(&["a"]);
    let b = chain(&["b"]);
    let empty: LocalWork<TagPlugin> = LocalWork::new(vec![]);
    assert_eq!(empty.calculate_worthwhile_steal_time(), None);
    let one_file = LocalWork::new(vec![bucket(&a, &["f1"])]);
    assert_eq!(one_file.calculate_worthwhile_steal_time(), None);
    let two_buckets = LocalWork::new(vec![bucket(&a, &["f1"]), bucket(&b, &["f2"])]);
    assert_eq!(two_buckets.calculate_worthwhile_steal_time(), Some(immediate_info(0)));
    let two_files = LocalWork::new(vec![bucket(&a, &["f1", "f2"])]);
    assert_eq!(two_files.calculate_worthwhile_steal_time(), Some(split_info(0, false)));
    warm_up(&a[0]);
    assert_eq!(two_files.calculate_worthwhile_steal_time(), Some(split_info(0, true)));
}

#[test]
fn worker_shares_its_work_behind_the_lock() {
    let a = chain(&["a"]);
    let b = chain(&["b"]);
    let worker = Worker::new(3, vec![bucket(&a, &["f1", "f2"]), bucket(&b, &["f3"])]);
    assert_eq!(worker.id, 3);
    assert_eq!(worker.id(), 3);
    assert!(worker.has_pool("a"));
    assert!(!worker.has_pool("z"));
    assert!(worker.get_current_formatting_file_path_info().is_none());
    let estimate = worker.calculate_worthwhile_steal_time().expect("two buckets");
    assert_eq!(estimate, immediate_info(0));
    let (pools, file_path) = worker.take_next_work().expect("a file");
    assert_eq!(names_of(&pools), vec!["a"]);
    assert_eq!(file_path, "f1");
    assert_eq!(worker.get_current_formatting_file_path_info().expect("a file").file_path, "f1");
    let stolen = worker.try_steal(estimate).expect("the last bucket");
    assert_eq!(names_of(stolen.work.pools()), vec!["b"]);
    assert!(worker.try_steal(estimate).is_none());
    worker.add_work(stolen.work);
    assert!(worker.has_pool("b"));
    worker.clear_work_for_current_plugin();
    assert!(!worker.has_pool("a"));
    let (_, file_path) = worker.take_next_work().expect("a file");
    assert_eq!(file_path, "f3");
    assert!(worker.take_next_work().is_none());
    assert!(worker.get_current_formatting_file_path_info().is_none());
}

#[test]
fn worker_split_steal_takes_half_of_the_only_bucket() {
    let a = chain(&["a"]);
    let worker = Worker::new(0, vec![bucket(&a, &["f1", "f2"])]);
    let estimate = worker.calculate_worthwhile_steal_time().expect("two files");
    assert_eq!(estimate, split_info(0, false));
    let mut stolen = worker.try_steal(estimate).expect("a split");
    assert_eq!(stolen.work.work_items_len(), 1);
    assert_eq!(stolen.work.take_next_work_item(), "f2");
    let (_, file_path) = worker.take_next_work().expect("a file");
    assert_eq!(file_path, "f1");
    assert!(worker.take_next_work().is_none());
}
