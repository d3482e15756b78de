use format_scheduler::bucket::LocalPluginWork;
use format_scheduler::format::Environment;
use format_scheduler::format::FormatHandler;
use format_scheduler::format::IncrementalFile;
use format_scheduler::pool::OptionalPluginAndPool;
use format_scheduler::pool::Plugin;
use format_scheduler::pool::PluginPool;
use format_scheduler::pool::TakePluginResult;
use format_scheduler::steal::LocalWorkStealInfo;
use format_scheduler::steal::LocalWorkStealKind;
use format_scheduler::scheduler::format_next_file;
use format_scheduler::scheduler::get_work_by_worker;
use format_scheduler::scheduler::release_all;
use format_scheduler::scheduler::run_worker_step;
use format_scheduler::scheduler::steal_from_candidate;
use format_scheduler::scheduler::steal_work;
use format_scheduler::scheduler::take_stolen_work;
use format_scheduler::scheduler::BatchError;
use format_scheduler::scheduler::BatchTotals;
use format_scheduler::scheduler::WorkerStep;
use format_scheduler::worker::Worker;
use std::collections::HashMap;
use std::sync::atomic::AtomicUsize;
use std::sync::atomic::Ordering;
use std::sync::Arc;
use std::sync::Mutex;
use std::time::Instant;

struct Setup {
    tag: String,
    diagnostics: usize,
    calls: Arc<AtomicUsize>,
}

/// Appends its tag in brackets to the text; fails on texts that hold
/// "bad-" followed by its tag.
struct TagPlugin {
    tag: String,
    calls: Arc<AtomicUsize>,
}

impl Plugin for TagPlugin {
    type Setup = Setup;

    fn config_diagnostic_count(setup: &Setup) -> usize {
        setup.diagnostics
    }

    fn initialize(setup: &Setup) -> Result<Self, String> {
        Ok(TagPlugin { tag: setup.tag.clone(), calls: setup.calls.clone() })
    }

    fn format_text(&mut self, _setup: &Setup, file_path: &str, file_text: &str) -> Result<String, String> {
        self.calls.fetch_add(1, Ordering::SeqCst);
        if file_text.contains(&format!("bad-{}", self.tag)) {
            Err(format!("{} cannot format {}", self.tag, file_path))
        } else {
            Ok(format!("{}[{}]", file_text, self.tag))
        }
    }
}

type Pools = Arc<Vec<Arc<PluginPool<TagPlugin>>>>;

struct Counted {
    pools: Pools,
    calls: Arc<AtomicUsize>,
}

impl Counted {
    fn calls(&self) -> usize {
        self.calls.load(Ordering::SeqCst)
    }
}

fn counted(tag: &str, capacity: usize, diagnostics: usize) -> Counted {
    let calls = Arc::new(AtomicUsize::new(0));
    let setup = Setup { tag: tag.to_string(), diagnostics, calls: calls.clone() };
    Counted { pools: Arc::new(vec![Arc::new(PluginPool::new(tag.to_string(), capacity, setup))]), calls }
}

fn bucket(pools: &Counted, files: &[&str]) -> LocalPluginWork<TagPlugin> {
    LocalPluginWork::new(pools.pools.clone(), files.iter().map(|file| file.to_string()).collect())
}

struct TestEnvironment {
    files: HashMap<String, String>,
}

impl TestEnvironment {
    fn new(files: &[(&str, &str)]) -> Self {
        TestEnvironment {
            files: files.iter().map(|(path, text)| (path.to_string(), text.to_string())).collect(),
        }
    }
}

impl Environment for TestEnvironment {
    fn read_file(&self, file_path: &str) -> Result<String, String> {
        match self.files.get(file_path) {
            Some(text) => Ok(text.clone()),
            None => Err(format!("no file {}", file_path)),
        }
    }

    fn log_verbose(&self, _text: &str) {}
}

struct Record {
    unchanged: Vec<String>,
}

impl IncrementalFile for Record {
    fn is_file_same(&self, file_path: &str, _file_text: &str) -> bool {
        self.unchanged.iter().any(|path| path == file_path)
    }

    fn update_file(&self, _file_path: &str, _file_text: &str) {}
}

fn no_record() -> Option<&'static Record> {
    None
}

struct Collector {
    seen: Mutex<Vec<(String, String)>>,
}

impl Collector {
    fn new() -> Self {
        Collector { seen: Mutex::new(Vec::new()) }
    }

    fn seen(&self) -> Vec<(String, String)> {
        self.seen.lock().expect("the calls").clone()
    }
}

impl FormatHandler<TestEnvironment> for Collector {
    fn handle(
        &self,
        file_path: &str,
        _file_text: &str,
        formatted_text: String,
        _had_bom: bool,
        _start: Instant,
        _environment: &TestEnvironment,
    ) -> Result<(), String> {
        self.seen.lock().expect("the calls").push((file_path.to_string(), formatted_text));
        Ok(())
    }
}

fn workers_of(shares: Vec<Vec<LocalPluginWork<TagPlugin>>>) -> Vec<Arc<Worker<TagPlugin>>> {
    shares.into_iter().enumerate().map(|(id, share)| Arc::new(Worker::new(id, share))).collect()
}

fn files_of(share: &mut Vec<LocalPluginWork<TagPlugin>>) -> Vec<Vec<String>> {
    share
        .iter_mut()
        .map(|bucket| {
            let mut files = Vec::new();
            while bucket.work_items_len() > 0 {
                files.push(bucket.take_next_work_item());
            }
            files
        })
        .collect()
}

fn strings(values: &[&str]) -> Vec<String> {
    values.iter().map(|value| value.to_string()).collect()
}

/// Runs the worker until it is done or the run has to end; gives its steps.
fn run_worker(
    workers: &Vec<Arc<Worker<TagPlugin>>>,
    own_index: usize,
    environment: &TestEnvironment,
    record: Option<&Record>,
    handler: &Collector,
    totals: &mut BatchTotals,
) -> Vec<WorkerStep> {
    let mut held = Vec::new();
    let mut steps = Vec::new();
    for _ in 0..1000 {
        let step = run_worker_step(workers, own_index, &mut held, environment, record, handler);
        totals.record(&step);
        let last = step == WorkerStep::Done || totals.must_stop();
        steps.push(step);
        if last {
            release_all(&mut held);
            return steps;
        }
    }
    panic!("the worker does not end")
}

#[test]
fn groups_go_to_the_worker_with_the_fewest_files() {
    let a = counted("A", 1, 0);
    let groups = vec![
        bucket(&a, &["a1", "a2", "a3"]),
        bucket(&a, &["b1"]),
        bucket(&a, &["c1", "c2"]),
        bucket(&a, &["d1"]),
        bucket(&a, &["e1"]),
    ];
    let mut shares = get_work_by_worker(groups, 2);
    assert_eq!(shares.len(), 2);
    // the loads go 3:0, 3:1, 3:3, 4:3 (the first of two equal loads), 4:4
    assert_eq!(files_of(&mut shares[0]), vec![strings(&["a1", "a2", "a3"]), strings(&["d1"])]);
    assert_eq!(
        files_of(&mut shares[1]),
        vec![strings(&["b1"]), strings(&["c1", "c2"]), strings(&["e1"])]
    );
}

#[test]
fn two_groups_of_two_files_go_to_two_workers() {
    let a = counted("A", 2, 0);
    let b = counted("B", 2, 0);
    let mut shares = get_work_by_worker(vec![bucket(&a, &["f1", "f2"]), bucket(&b, &["f3", "f4"])], 2);
    assert_eq!(shares.len(), 2);
    assert_eq!(files_of(&mut shares[0]), vec![strings(&["f1", "f2"])]);
    assert_eq!(files_of(&mut shares[1]), vec![strings(&["f3", "f4"])]);
}

#[test]
fn more_workers_than_groups_leaves_workers_without_work() {
    let a = counted("A", 1, 0);
    let mut shares = get_work_by_worker(vec![bucket(&a, &["f1"])], 3);
    assert_eq!(shares.len(), 3);
    assert_eq!(files_of(&mut shares[0]), vec![strings(&["f1"])]);
    assert!(shares[1].is_empty());
    assert!(shares[2].is_empty());
}

#[test]
fn a_run_has_at_least_one_worker() {
    let a = counted("A", 1, 0);
    let mut shares = get_work_by_worker(vec![bucket(&a, &["f1"]), bucket(&a, &["f2"])], 0);
    assert_eq!(shares.len(), 1);
    assert_eq!(files_of(&mut shares[0]), vec![strings(&["f1"]), strings(&["f2"])]);
    let none: Vec<LocalPluginWork<TagPlugin>> = Vec::new();
    assert_eq!(get_work_by_worker(none, 4).len(), 4);
}

#[test]
fn idle_worker_splits_the_only_bucket_of_its_peer() {
    let a = counted("A", 2, 0);
    let b = counted("B", 2, 0);
    let workers =
        workers_of(get_work_by_worker(vec![bucket(&a, &["f1", "f2"]), bucket(&b, &["f3", "f4"])], 2));
    let environment =
        TestEnvironment::new(&[("f1", "1"), ("f2", "2"), ("f3", "3"), ("f4", "4")]);
    let handler = Collector::new();
    let mut held = Vec::new();
    // the second worker finishes first
    let step = run_worker_step(&workers, 1, &mut held, &environment, no_record(), &handler);
    assert_eq!(step, WorkerStep::Formatted("f3".to_string()));
    let step = run_worker_step(&workers, 1, &mut held, &environment, no_record(), &handler);
    assert_eq!(step, WorkerStep::Formatted("f4".to_string()));
    // the first worker still has its two files: half of them change hands
    let step = run_worker_step(&workers, 1, &mut held, &environment, no_record(), &handler);
    assert_eq!(step, WorkerStep::Stole);
    assert!(workers[1].has_pool("A"));
    let step = run_worker_step(&workers, 1, &mut held, &environment, no_record(), &handler);
    assert_eq!(step, WorkerStep::Formatted("f2".to_string()));
    let mut own = Vec::new();
    let step = run_worker_step(&workers, 0, &mut own, &environment, no_record(), &handler);
    assert_eq!(step, WorkerStep::Formatted("f1".to_string()));
    let step = run_worker_step(&workers, 0, &mut own, &environment, no_record(), &handler);
    assert_eq!(step, WorkerStep::Done);
    assert!(own.is_empty());
    let step = run_worker_step(&workers, 1, &mut held, &environment, no_record(), &handler);
    assert_eq!(step, WorkerStep::Done);
    assert!(held.is_empty());
    // every file was formatted once
    let mut seen = handler.seen();
    seen.sort();
    assert_eq!(
        seen,
        vec![
            ("f1".to_string(), "1[A]".to_string()),
            ("f2".to_string(), "2[A]".to_string()),
            ("f3".to_string(), "3[B]".to_string()),
            ("f4".to_string(), "4[B]".to_string()),
        ]
    );
    assert_eq!(a.calls(), 2);
    assert_eq!(b.calls(), 2);
}

#[test]
fn thief_steals_whole_buckets_first() {
    let a = counted("A", 1, 0);
    let b = counted("B", 1, 0);
    let workers = workers_of(vec![vec![bucket(&a, &["f1", "f2"]), bucket(&b, &["f3"])], vec![]]);
    let stolen = steal_work(&workers, 1).expect("a bucket");
    assert!(stolen.plugins.is_none());
    assert_eq!(stolen.work.pools()[0].name(), "B");
    // the thief never steals from itself
    assert!(steal_work(&workers, 0).is_none());
    let split = steal_work(&workers, 1).expect("a split");
    assert_eq!(split.work.work_items_len(), 1);
    assert!(steal_work(&workers, 1).is_none());
}

#[test]
fn eagerly_stolen_instances_are_used_for_the_stolen_work() {
    let a = counted("A", 1, 0);
    let workers = workers_of(vec![vec![bucket(&a, &["f1", "f2"])], vec![]]);
    // the only instance of the pool is idle when the thief looks
    match a.pools[0].take_or_create_checking_config_diagnostics() {
        Ok(TakePluginResult::Success(plugin)) => a.pools[0].release(plugin),
        _ => panic!("the configuration is sound"),
    }
    let environment = TestEnvironment::new(&[("f1", "1"), ("f2", "2")]);
    let handler = Collector::new();
    let mut held: Vec<OptionalPluginAndPool<TagPlugin>> = Vec::new();
    let step = run_worker_step(&workers, 1, &mut held, &environment, no_record(), &handler);
    assert_eq!(step, WorkerStep::Stole);
    assert_eq!(held.len(), 1);
    assert!(held[0].plugin.is_some());
    assert!(a.pools[0].take_if_available().is_none());
    // the pool is at its capacity, and the thief formats with what it holds
    let step = run_worker_step(&workers, 1, &mut held, &environment, no_record(), &handler);
    assert_eq!(step, WorkerStep::Formatted("f2".to_string()));
    assert!(held.iter().all(|slot| slot.plugin.is_none()));
    assert!(a.pools[0].get_time_snapshot().has_plugin_available);
}

#[test]
fn one_failing_file_does_not_stop_the_others() {
    let a = counted("A", 2, 0);
    let b = counted("B", 2, 0);
    let workers =
        workers_of(get_work_by_worker(vec![bucket(&a, &["f1", "f2"]), bucket(&b, &["f3", "f4"])], 2));
    let environment =
        TestEnvironment::new(&[("f1", "1"), ("f2", "2"), ("f3", "bad-B"), ("f4", "4")]);
    let handler = Collector::new();
    let mut totals = BatchTotals::new();
    let steps = run_worker(&workers, 1, &environment, no_record(), &handler, &mut totals);
    assert_eq!(steps[0], WorkerStep::Failed("f3".to_string(), "B cannot format f3".to_string()));
    assert_eq!(steps[1], WorkerStep::Formatted("f4".to_string()));
    run_worker(&workers, 0, &environment, no_record(), &handler, &mut totals);
    run_worker(&workers, 1, &environment, no_record(), &handler, &mut totals);
    let mut formatted: Vec<String> = handler.seen().into_iter().map(|(path, _)| path).collect();
    formatted.sort();
    assert_eq!(formatted, strings(&["f1", "f2", "f4"]));
    assert_eq!(totals.error_count, 1);
    assert!(!totals.must_stop());
    assert_eq!(totals.finish(), Err(BatchError::FilesFailed(1)));
}

#[test]
fn broken_configuration_ends_the_run_at_once() {
    let a = counted("A", 2, 3);
    let workers = workers_of(vec![vec![bucket(&a, &["f1", "f2", "f3"])]]);
    let environment = TestEnvironment::new(&[("f1", "1"), ("f2", "2"), ("f3", "3")]);
    let handler = Collector::new();
    let mut totals = BatchTotals::new();
    let steps = run_worker(&workers, 0, &environment, no_record(), &handler, &mut totals);
    assert_eq!(steps, vec![WorkerStep::HadDiagnostics(3)]);
    assert!(totals.must_stop());
    assert_eq!(totals.error_count, 0);
    assert_eq!(totals.finish(), Err(BatchError::ConfigDiagnostics(3)));
    assert_eq!(a.calls(), 0);
    assert!(handler.seen().is_empty());
}

#[test]
fn unchanged_files_are_skipped_by_the_worker() {
    let a = counted("A", 1, 0);
    let workers = workers_of(vec![vec![bucket(&a, &["f1", "f2"])]]);
    let environment = TestEnvironment::new(&[("f1", "1"), ("f2", "2")]);
    let record = Record { unchanged: strings(&["f1"]) };
    let handler = Collector::new();
    let mut totals = BatchTotals::new();
    let steps = run_worker(&workers, 0, &environment, Some(&record), &handler, &mut totals);
    assert_eq!(
        steps,
        vec![
            WorkerStep::Skipped("f1".to_string()),
            WorkerStep::Formatted("f2".to_string()),
            WorkerStep::Done,
        ]
    );
    assert_eq!(a.calls(), 1);
    assert_eq!(totals.finish(), Ok(()));
}

#[test]
fn worker_changes_its_slots_with_the_chain() {
    let a = counted("A", 1, 0);
    let b = counted("B", 1, 0);
    let workers = workers_of(vec![vec![bucket(&a, &["f1"]), bucket(&b, &["f2"])]]);
    let environment = TestEnvironment::new(&[("f1", "1"), ("f2", "2")]);
    let handler = Collector::new();
    let mut held = Vec::new();
    let step = run_worker_step(&workers, 0, &mut held, &environment, no_record(), &handler);
    assert_eq!(step, WorkerStep::Formatted("f1".to_string()));
    assert_eq!(held.len(), 1);
    assert_eq!(held[0].pool.name(), "A");
    let step = run_worker_step(&workers, 0, &mut held, &environment, no_record(), &handler);
    assert_eq!(step, WorkerStep::Formatted("f2".to_string()));
    assert_eq!(held[0].pool.name(), "B");
    assert_eq!(
        handler.seen(),
        vec![("f1".to_string(), "1[A]".to_string()), ("f2".to_string(), "2[B]".to_string())]
    );
}

#[test]
fn totals_count_failures_and_remember_the_first_diagnostics() {
    let mut totals = BatchTotals::new();
    assert_eq!(totals.finish(), Ok(()));
    totals.record(&WorkerStep::Formatted("f".to_string()));
    totals.record(&WorkerStep::Skipped("f".to_string()));
    totals.record(&WorkerStep::Stole);
    totals.record(&WorkerStep::Done);
    assert_eq!(totals.finish(), Ok(()));
    totals.record(&WorkerStep::Failed("f".to_string(), "m".to_string()));
    totals.record(&WorkerStep::Failed("g".to_string(), "m".to_string()));
    assert_eq!(totals.error_count, 2);
    assert_eq!(totals.finish(), Err(BatchError::FilesFailed(2)));
    totals.record(&WorkerStep::HadDiagnostics(4));
    totals.record(&WorkerStep::HadDiagnostics(9));
    assert_eq!(totals.diagnostics, Some(4));
    assert!(totals.must_stop());
    assert_eq!(totals.finish(), Err(BatchError::ConfigDiagnostics(4)));
    let mut full = BatchTotals { error_count: usize::MAX, diagnostics: None };
    full.record(&WorkerStep::Failed("f".to_string(), "m".to_string()));
    assert_eq!(full.error_count, usize::MAX);
}

fn immediate(stealer_id: usize, steal_time: u64) -> Option<LocalWorkStealInfo> {
    Some(LocalWorkStealInfo { stealer_id, steal_time, kind: LocalWorkStealKind::Immediate })
}

#[test]
fn steal_goes_to_the_candidate_with_the_least_steal_time() {
    let a = counted("A", 1, 0);
    let b = counted("B", 1, 0);
    let workers = workers_of(vec![
        vec![],
        vec![bucket(&a, &["f1"]), bucket(&a, &["f2"])],
        vec![bucket(&b, &["f3"]), bucket(&b, &["f4"])],
    ]);
    let estimates = vec![None, immediate(0, 9), immediate(0, 4)];
    let stolen = steal_from_candidate(&workers, 0, &estimates).expect("a bucket");
    assert_eq!(stolen.work.pools()[0].name(), "B");
    assert!(workers[1].has_pool("A"));
    // the estimate of the third worker is out of date now: the steal is refused
    assert!(steal_from_candidate(&workers, 0, &estimates).is_none());
    assert!(workers[1].calculate_worthwhile_steal_time().is_some());
}

#[test]
fn steal_without_a_candidate_gets_nothing() {
    let a = counted("A", 1, 0);
    let workers = workers_of(vec![vec![], vec![bucket(&a, &["f1"]), bucket(&a, &["f2"])]]);
    assert!(steal_from_candidate(&workers, 0, &vec![None, None]).is_none());
    assert!(steal_from_candidate(&workers, 0, &vec![]).is_none());
    // the thief's own estimate does not count
    assert!(steal_from_candidate(&workers, 1, &vec![None, immediate(0, 0)]).is_none());
    // an estimate for a worker that is not there is passed over
    assert!(steal_from_candidate(&workers, 0, &vec![None, None, immediate(0, 0)]).is_none());
    assert!(workers[1].has_pool("A"));
    // a thief without a peer gets nothing
    let alone = workers_of(vec![vec![bucket(&a, &["f1"]), bucket(&a, &["f2"])]]);
    assert!(steal_work(&alone, 0).is_none());
    let none: Vec<Arc<Worker<TagPlugin>>> = Vec::new();
    assert!(steal_work(&none, 0).is_none());
}

#[test]
fn stolen_work_and_its_slots_go_to_the_thief() {
    let a = counted("A", 1, 0);
    let victim = workers_of(vec![vec![bucket(&a, &["f1", "f2"])]]);
    let thief = Worker::new(5, vec![]);
    let mut held: Vec<OptionalPluginAndPool<TagPlugin>> = Vec::new();
    assert_eq!(take_stolen_work(None, &thief, &mut held), WorkerStep::Done);
    assert!(held.is_empty());
    let estimate = victim[0].calculate_worthwhile_steal_time().expect("two files");
    let stolen = victim[0].try_steal(estimate);
    assert!(stolen.is_some());
    assert_eq!(take_stolen_work(stolen, &thief, &mut held), WorkerStep::Stole);
    assert_eq!(held.len(), 1);
    assert_eq!(held[0].pool.name(), "A");
    let (_, file_path) = thief.take_next_work().expect("the stolen file");
    assert_eq!(file_path, "f2");
}

#[test]
fn next_file_is_formatted_with_the_slots_of_its_chain() {
    let a = counted("A", 1, 0);
    let b = counted("B", 1, 0);
    let environment = TestEnvironment::new(&[("f1", "1"), ("f2", "bad-B")]);
    let handler = Collector::new();
    let mut held: Vec<OptionalPluginAndPool<TagPlugin>> = Vec::new();
    let step =
        format_next_file(&a.pools, "f1".to_string(), &mut held, &environment, no_record(), &handler);
    assert_eq!(step, WorkerStep::Formatted("f1".to_string()));
    assert_eq!(held.len(), 1);
    assert_eq!(held[0].pool.name(), "A");
    let step =
        format_next_file(&b.pools, "f2".to_string(), &mut held, &environment, no_record(), &handler);
    assert_eq!(step, WorkerStep::Failed("f2".to_string(), "B cannot format f2".to_string()));
    assert_eq!(held[0].pool.name(), "B");
    let step =
        format_next_file(&b.pools, "gone".to_string(), &mut held, &environment, no_record(), &handler);
    assert_eq!(step, WorkerStep::Failed("gone".to_string(), "no file gone".to_string()));
    assert_eq!(handler.seen(), vec![("f1".to_string(), "1[A]".to_string())]);
}
