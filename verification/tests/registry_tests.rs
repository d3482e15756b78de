use format_scheduler::pool::Plugin;
use format_scheduler::pool::PluginPool;
use format_scheduler::registry::PluginPools;
use std::sync::Arc;

struct NoPlugin;

impl Plugin for NoPlugin {
    type Setup = ();

    fn config_diagnostic_count(_setup: &()) -> usize {
        0
    }

    fn initialize(_setup: &()) -> Result<Self, String> {
        Ok(NoPlugin)
    }

    fn format_text(&mut self, _setup: &(), _file_path: &str, file_text: &str) -> Result<String, String> {
        Ok(file_text.to_string())
    }
}

fn names(names: &[&str]) -> Vec<String> {
    names.iter().map(|name| name.to_string()).collect()
}

fn registry(pool_names: &[&str]) -> PluginPools<NoPlugin> {
    PluginPools::new(
        pool_names.iter().map(|name| Arc::new(PluginPool::new(name.to_string(), 1, ()))).collect(),
    )
}

fn sample() -> PluginPools<NoPlugin> {
    let mut pools = registry(&["typescript", "json", "markdown", "prettier"]);
    assert_eq!(pools.associate_extension("ts".to_string(), names(&["typescript"])), Ok(()));
    assert_eq!(pools.associate_extension("json".to_string(), names(&["json"])), Ok(()));
    assert_eq!(pools.associate_extension("md".to_string(), names(&["markdown", "prettier"])), Ok(()));
    assert_eq!(pools.associate_file_name("package.json".to_string(), names(&["prettier", "json"])), Ok(()));
    assert_eq!(pools.associate_file_name(".editorrc".to_string(), names(&["json"])), Ok(()));
    pools
}

#[test]
fn get_pool_finds_pools_by_name() {
    let pools = sample();
    assert_eq!(pools.get_pool("json").expect("a pool").name(), "json");
    assert_eq!(pools.get_pool("prettier").expect("a pool").name(), "prettier");
    assert!(pools.get_pool("yaml").is_none());
    assert!(pools.get_pool("").is_none());
    assert!(pools.get_pool("jso").is_none());
}

#[test]
fn get_pool_gives_the_first_pool_of_a_name() {
    let first = Arc::new(PluginPool::<NoPlugin>::new("same".to_string(), 1, ()));
    let second = Arc::new(PluginPool::<NoPlugin>::new("same".to_string(), 1, ()));
    let pools = PluginPools::new(vec![first.clone(), second.clone()]);
    assert!(Arc::ptr_eq(&pools.get_pool("same").expect("a pool"), &first));
    // the second pool of the name is not kept: a chain only ever meets the first
    let names = vec!["same".to_string(), "same".to_string()];
    let chain = pools.get_pools(&names).expect("known names");
    assert!(chain.iter().all(|pool| Arc::ptr_eq(pool, &first)));
    assert_eq!(Arc::strong_count(&second), 1);
}

#[test]
fn chain_is_resolved_by_extension() {
    let pools = sample();
    assert_eq!(pools.get_plugin_names_from_file_name("src/main.ts"), names(&["typescript"]));
    assert_eq!(pools.get_plugin_names_from_file_name("README.md"), names(&["markdown", "prettier"]));
    assert_eq!(pools.get_plugin_names_from_file_name("C:\\docs\\notes.md"), names(&["markdown", "prettier"]));
    assert_eq!(pools.get_plugin_names_from_file_name("a.b.json"), names(&["json"]));
}

#[test]
fn file_name_goes_before_extension() {
    let pools = sample();
    assert_eq!(pools.get_plugin_names_from_file_name("web/package.json"), names(&["prettier", "json"]));
    assert_eq!(pools.get_plugin_names_from_file_name("package.json"), names(&["prettier", "json"]));
    assert_eq!(pools.get_plugin_names_from_file_name("web/other.json"), names(&["json"]));
    assert_eq!(pools.get_plugin_names_from_file_name(".editorrc"), names(&["json"]));
}

#[test]
fn unmatched_files_have_no_chain() {
    let pools = sample();
    assert!(pools.get_plugin_names_from_file_name("main.rs").is_empty());
    assert!(pools.get_plugin_names_from_file_name("").is_empty());
    assert!(pools.get_plugin_names_from_file_name("Makefile").is_empty());
    // a dot in a directory name is no extension
    assert!(pools.get_plugin_names_from_file_name("dir.ts/file").is_empty());
    // a leading dot starts no extension
    assert!(pools.get_plugin_names_from_file_name("src/.ts").is_empty());
    assert!(pools.get_plugin_names_from_file_name("file.").is_empty());
    // extensions are matched as they are written
    assert!(pools.get_plugin_names_from_file_name("main.TS").is_empty());
    assert!(pools.get_plugin_names_from_file_name("main.ts/").is_empty());
}

#[test]
fn first_rule_of_a_key_wins() {
    let mut pools = registry(&["a", "b"]);
    assert_eq!(pools.associate_extension("x".to_string(), names(&["a"])), Ok(()));
    assert_eq!(pools.associate_extension("x".to_string(), names(&["b"])), Ok(()));
    assert_eq!(pools.get_plugin_names_from_file_name("f.x"), names(&["a"]));
}

#[test]
fn rule_with_unknown_plugin_is_refused() {
    let mut pools = registry(&["a", "b"]);
    assert_eq!(
        pools.associate_extension("x".to_string(), names(&["a", "zzz", "yyy"])),
        Err("zzz".to_string())
    );
    assert_eq!(
        pools.associate_file_name("f".to_string(), names(&["nope"])),
        Err("nope".to_string())
    );
    assert!(pools.get_plugin_names_from_file_name("f.x").is_empty());
    assert!(pools.get_plugin_names_from_file_name("f").is_empty());
    assert_eq!(pools.associate_extension("x".to_string(), names(&[])), Ok(()));
    assert!(pools.get_plugin_names_from_file_name("f.x").is_empty());
}

#[test]
fn get_pools_resolves_a_whole_chain_or_nothing() {
    let pools = sample();
    let chain = pools.get_pools(&names(&["prettier", "json", "prettier"])).expect("known names");
    let found: Vec<&str> = chain.iter().map(|pool| pool.name()).collect();
    assert_eq!(found, vec!["prettier", "json", "prettier"]);
    assert!(pools.get_pools(&names(&["json", "yaml"])).is_none());
    assert!(pools.get_pools(&names(&[])).expect("no names").is_empty());
}
