//! Tests of the lint-plugin registry protocol and checks.
use shingetsu::diagnostic::Severity;
use shingetsu::error::LibError;
use shingetsu::lint_registry::{
    find_duplicate, plugin_active, validate_lint_name, PluginLoadError, PluginRegistry,
    SCHEMA_VERSION,
};

fn declare(reg: &mut PluginRegistry, name: &str, min: Option<u32>) -> Result<(), LibError> {
    reg.declare(
        name.to_string(),
        format!("{name} plugin"),
        Severity::Warning,
        vec!["style".to_string()],
        min,
        None,
    )
}

fn runtime(r: Result<(), LibError>) -> String {
    match r {
        Err(LibError::Runtime { message, .. }) => message,
        other => panic!("expected a runtime error, got {:?}", other),
    }
}

#[test]
fn a_load_yields_its_declaration() {
    let mut reg = PluginRegistry::new();
    reg.begin_load("plugins/a.lua".to_string()).unwrap();
    declare(&mut reg, "alpha", Some(2)).unwrap();
    let d = reg.end_load().unwrap();
    assert_eq!(d.name, "alpha");
    assert_eq!(d.description, "alpha plugin");
    assert_eq!(d.source_path, "plugins/a.lua");
    assert_eq!(d.sets, vec!["style".to_string()]);
    let all = reg.declarations();
    assert_eq!(all.len(), 1);
    assert_eq!(all[0].name, "alpha");
}

#[test]
fn load_protocol_errors() {
    let mut reg = PluginRegistry::new();
    assert!(matches!(reg.end_load(), Err(PluginLoadError::NotLoading)));
    assert_eq!(runtime(declare(&mut reg, "early", None)), "lint.declare called outside of plugin load");
    reg.begin_load("p.lua".to_string()).unwrap();
    let e = reg.begin_load("q.lua".to_string()).unwrap_err();
    assert_eq!(e.message(), "plugin loader is already in the middle of loading another plugin");
    declare(&mut reg, "once", None).unwrap();
    assert_eq!(
        runtime(declare(&mut reg, "twice", None)),
        "lint.declare called more than once in the same plugin file"
    );
    assert_eq!(reg.end_load().unwrap().name, "once");
    reg.begin_load("silent.lua".to_string()).unwrap();
    match reg.end_load() {
        Err(e @ PluginLoadError::MissingDeclare { .. }) => {
            assert_eq!(e.message(), "plugin file silent.lua never called `lint.declare {...}`")
        }
        other => panic!("unexpected {:?}", other),
    }
    assert_eq!(PluginLoadError::NotLoading.message(), "end_load called without a matching begin_load");
    reg.begin_load("aborted.lua".to_string()).unwrap();
    reg.abort_load();
    assert!(reg.begin_load("next.lua".to_string()).is_ok());
    assert_eq!(reg.declarations().len(), 1);
}

#[test]
fn newer_schema_is_refused() {
    let mut reg = PluginRegistry::new();
    reg.begin_load("p.lua".to_string()).unwrap();
    assert_eq!(SCHEMA_VERSION, 3);
    assert_eq!(
        runtime(declare(&mut reg, "future", Some(4))),
        "plugin 'future' requires schema version 4 but this host provides version 3"
    );
    declare(&mut reg, "present", Some(3)).unwrap();
}

#[test]
fn lint_names() {
    assert!(validate_lint_name("no_tabs_2").is_ok());
    assert_eq!(validate_lint_name("").unwrap_err(), "lint name must not be empty");
    assert_eq!(
        validate_lint_name("NoTabs").unwrap_err(),
        "lint name 'NoTabs' must be snake_case ASCII (lowercase letters, digits, underscores)"
    );
    assert_eq!(validate_lint_name("_hidden").unwrap_err(), "lint name '_hidden' must not start with '_'");
}

#[test]
fn plugins_run_for_active_sets() {
    let sets = vec!["style".to_string(), "perf".to_string()];
    let active = vec!["perf".to_string()];
    assert!(plugin_active(&sets, None));
    assert!(plugin_active(&[], Some(&[])));
    assert!(plugin_active(&sets, Some(&active)));
    assert!(!plugin_active(&sets, Some(&[])));
    assert!(!plugin_active(&sets, Some(&["other".to_string()])));
}

#[test]
fn duplicate_plugin_names() {
    let names = vec!["a".to_string(), "shared".to_string(), "shared".to_string()];
    assert_eq!(find_duplicate(&names, &"shared".to_string()), Some(1));
    assert_eq!(find_duplicate(&names, &"new".to_string()), None);
}
