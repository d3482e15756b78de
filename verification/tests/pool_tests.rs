use format_scheduler::pool::Checkout;
use format_scheduler::pool::OptionalPluginAndPool;
use format_scheduler::pool::Plugin;
use format_scheduler::pool::PluginPool;
use format_scheduler::pool::PoolState;
use format_scheduler::pool::TakePluginResult;
use std::sync::Arc;

/// A plugin that appends its tag to the text, fails on texts that contain
/// "bad", and counts its calls.
struct TagPlugin {
    tag: String,
    calls: usize,
    seen_setup: String,
}

struct TagSetup {
    tag: String,
    diagnostics: usize,
}

impl Plugin for TagPlugin {
    type Setup = TagSetup;

    fn config_diagnostic_count(setup: &TagSetup) -> usize {
        setup.diagnostics
    }

    fn initialize(setup: &TagSetup) -> Result<Self, String> {
        if setup.tag == "uncreatable" {
            return Err("cannot start".to_string());
        }
        Ok(TagPlugin { tag: setup.tag.clone(), calls: 0, seen_setup: String::new() })
    }

    fn format_text(&mut self, setup: &TagSetup, _file_path: &str, file_text: &str) -> Result<String, String> {
        self.calls += 1;
        self.seen_setup = setup.tag.clone();
        if file_text.contains("bad") {
            Err(format!("{} cannot format", self.tag))
        } else {
            Ok(format!("{}{}", file_text, self.tag))
        }
    }
}

fn setup(tag: &str, diagnostics: usize) -> TagSetup {
    TagSetup { tag: tag.to_string(), diagnostics }
}

fn instance(tag: &str) -> TagPlugin {
    TagPlugin { tag: tag.to_string(), calls: 0, seen_setup: String::new() }
}

#[test]
fn pool_state_creates_up_to_capacity_then_is_busy() {
    let mut state: PoolState<TagPlugin> = PoolState::new(2);
    assert!(!state.must_wait());
    assert!(matches!(state.checkout(), Checkout::Create));
    assert!(matches!(state.checkout(), Checkout::Create));
    assert!(state.must_wait());
    assert!(matches!(state.checkout(), Checkout::Busy));
    assert!(matches!(state.checkout(), Checkout::Busy));
}

#[test]
fn pool_state_capacity_zero_counts_as_one() {
    let mut state: PoolState<TagPlugin> = PoolState::new(0);
    assert!(matches!(state.checkout(), Checkout::Create));
    assert!(matches!(state.checkout(), Checkout::Busy));
}

#[test]
fn pool_state_hands_out_the_instance_released_last() {
    let mut state: PoolState<TagPlugin> = PoolState::new(2);
    assert!(matches!(state.checkout(), Checkout::Create));
    assert!(matches!(state.checkout(), Checkout::Create));
    state.release(instance("first"));
    state.release(instance("second"));
    match state.checkout() {
        Checkout::Instance(p) => assert_eq!(p.tag, "second"),
        _ => panic!("an idle instance was expected"),
    }
    match state.take_if_available() {
        Some(p) => assert_eq!(p.tag, "first"),
        None => panic!("an idle instance was expected"),
    }
    assert!(state.take_if_available().is_none());
}

#[test]
fn pool_state_second_checkout_waits_until_first_release() {
    let mut state: PoolState<TagPlugin> = PoolState::new(1);
    assert!(matches!(state.checkout(), Checkout::Create));
    let held = TagPlugin::initialize(&setup("a", 0)).expect("an instance");
    assert!(matches!(state.checkout(), Checkout::Busy));
    assert!(state.must_wait());
    state.release(held);
    assert!(!state.must_wait());
    assert!(matches!(state.checkout(), Checkout::Instance(_)));
    assert!(state.must_wait());
}

#[test]
fn pool_state_take_if_available_never_creates() {
    let mut state: PoolState<TagPlugin> = PoolState::new(3);
    assert!(state.take_if_available().is_none());
    assert!(state.take_if_available().is_none());
    assert!(matches!(state.checkout(), Checkout::Create));
}

#[test]
fn pool_state_release_adopts_and_then_drops_unknown_instances() {
    let mut state: PoolState<TagPlugin> = PoolState::new(1);
    state.release(instance("x"));
    state.release(instance("y"));
    match state.take_if_available() {
        Some(p) => assert_eq!(p.tag, "x"),
        None => panic!("the adopted instance was expected"),
    }
    assert!(state.take_if_available().is_none());
    assert!(matches!(state.checkout(), Checkout::Busy));
}

#[test]
fn pool_checks_its_configuration_once_when_it_is_made() {
    let sound: PluginPool<TagPlugin> = PluginPool::new("tag".to_string(), 1, setup("!", 0));
    assert_eq!(sound.diagnostics(), 0);
    let broken: PluginPool<TagPlugin> = PluginPool::new("tag".to_string(), 1, setup("!", 3));
    assert_eq!(broken.diagnostics(), 3);
    assert_eq!(broken.diagnostics(), 3);
}

#[test]
fn broken_pool_never_hands_out_an_instance() {
    let pool: PluginPool<TagPlugin> = PluginPool::new("tag".to_string(), 2, setup("!", 3));
    // an instance that finds its way into the pool stays there
    pool.release(instance("idle"));
    assert!(pool.take_if_available().is_none());
    assert!(matches!(
        pool.take_or_create_checking_config_diagnostics(),
        Ok(TakePluginResult::HadDiagnostics(3))
    ));
    assert!(!pool.get_time_snapshot().has_plugin_available);
}

#[test]
fn pool_state_measures_mean_format_time() {
    let mut state: PoolState<TagPlugin> = PoolState::new(1);
    let snapshot = state.time_snapshot();
    assert_eq!(snapshot.startup_time, 0);
    assert_eq!(snapshot.average_format_time, 0);
    assert!(!snapshot.has_plugin_available);
    state.record_startup_time(40);
    state.record_format_time(10);
    state.record_format_time(15);
    state.release(instance("x"));
    let snapshot = state.time_snapshot();
    assert_eq!(snapshot.startup_time, 40);
    assert_eq!(snapshot.average_format_time, 12);
    assert!(snapshot.has_plugin_available);
    // a measurement that does not fit is left out
    state.record_format_time(u64::MAX);
    assert_eq!(state.time_snapshot().average_format_time, 12);
}

#[test]
fn shared_pool_checks_out_and_takes_back() {
    let pool: PluginPool<TagPlugin> = PluginPool::new("tag".to_string(), 1, setup("!", 0));
    assert_eq!(pool.name(), "tag");
    assert!(pool.has_name(&"tag".to_string()));
    assert!(!pool.has_name(&"other".to_string()));
    assert!(pool.take_if_available().is_none());
    let mut plugin = match pool.take_or_create_checking_config_diagnostics() {
        Ok(TakePluginResult::Success(p)) => p,
        _ => panic!("the configuration is sound"),
    };
    assert!(pool.take_if_available().is_none());
    // the call is made with the configuration of the pool
    assert_eq!(pool.format_measuring_time(&mut plugin, "f.txt", "x"), Ok("x!".to_string()));
    assert_eq!(plugin.seen_setup, "!");
    assert_eq!(plugin.calls, 1);
    pool.release(plugin);
    assert!(pool.get_time_snapshot().has_plugin_available);
    let again = pool.take_if_available().expect("the released instance");
    assert_eq!(again.calls, 1);
    pool.release(again);
}

#[test]
fn shared_pool_reports_broken_configuration_every_time() {
    let pool: PluginPool<TagPlugin> = PluginPool::new("tag".to_string(), 2, setup("!", 2));
    for _ in 0..3 {
        match pool.take_or_create_checking_config_diagnostics() {
            Ok(TakePluginResult::HadDiagnostics(count)) => assert_eq!(count, 2),
            _ => panic!("no instance may be handed out"),
        }
    }
    assert!(pool.take_if_available().is_none());
}

#[test]
fn slot_releases_its_instance_to_its_pool() {
    let pool = Arc::new(PluginPool::<TagPlugin>::new("tag".to_string(), 1, setup("!", 0)));
    let empty = OptionalPluginAndPool::from_pool(pool.clone());
    assert!(empty.plugin.is_none());
    empty.release_plugin();
    assert!(pool.take_if_available().is_none());
    let plugin = match pool.take_or_create_checking_config_diagnostics() {
        Ok(TakePluginResult::Success(p)) => p,
        _ => panic!("the configuration is sound"),
    };
    let slot = OptionalPluginAndPool { plugin: Some(plugin), pool: pool.clone() };
    slot.release_plugin();
    assert!(pool.take_if_available().is_some());
}

#[test]
fn failed_creation_fails_the_checkout_and_is_undone() {
    let pool: PluginPool<TagPlugin> = PluginPool::new("tag".to_string(), 1, setup("uncreatable", 0));
    for _ in 0..3 {
        // the capacity of one is not used up by the attempts
        match pool.take_or_create_checking_config_diagnostics() {
            Err(message) => assert_eq!(message, "cannot start"),
            Ok(_) => panic!("no instance can be created"),
        }
    }
    pool.release(instance("stray"));
    assert!(matches!(
        pool.take_or_create_checking_config_diagnostics(),
        Ok(TakePluginResult::Success(_))
    ));
}

#[test]
fn pool_state_forgets_an_instance_that_was_not_created() {
    let mut state: PoolState<TagPlugin> = PoolState::new(1);
    assert!(matches!(state.checkout(), Checkout::Create));
    assert!(state.must_wait());
    state.creation_failed();
    assert!(!state.must_wait());
    // without an open checkout there is nothing to undo
    state.creation_failed();
    assert!(matches!(state.checkout(), Checkout::Create));
    assert!(matches!(state.checkout(), Checkout::Busy));
}
