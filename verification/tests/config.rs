//! Tests of the `[check]` configuration: default and active lint sets.
use shingetsu::config::CheckConfig;

fn names(v: &[&str]) -> Vec<String> {
    v.iter().map(|s| s.to_string()).collect()
}

fn with_defaults(d: &[&str]) -> CheckConfig {
    CheckConfig { default_sets: names(d), ..CheckConfig::default() }
}

/// `active_sets` defaults to the configured sets, accepts `enable`
/// additions, and lets `disable` win for the same name.
#[test]
fn active_sets_resolves_defaults_and_overrides() {
    let cfg = with_defaults(&["builtins", "core"]);
    assert_eq!(cfg.active_sets(&[], &[]), names(&["builtins", "core"]));
    assert_eq!(
        cfg.active_sets(&names(&["extra"]), &names(&["core"])),
        names(&["builtins", "extra"])
    );
    assert_eq!(
        cfg.active_sets(&names(&["foo"]), &names(&["foo"])),
        names(&["builtins", "core"])
    );
}

/// When `default_sets` is unset, the implicit default is `["builtins"]`.
#[test]
fn active_sets_implicit_default_builtins() {
    let cfg = CheckConfig::default();
    assert_eq!(cfg.active_sets(&[], &[]), names(&["builtins"]));
}

#[test]
fn active_sets_sorted_and_deduplicated() {
    let cfg = with_defaults(&["zeta", "alpha", "zeta", "Beta"]);
    assert_eq!(
        cfg.active_sets(&names(&["alpha", "mid", "ünï"]), &names(&["nothing"])),
        names(&["Beta", "alpha", "mid", "zeta", "ünï"])
    );
    assert_eq!(cfg.resolved_default_sets(), names(&["zeta", "alpha", "zeta", "Beta"]));
    assert_eq!(CheckConfig::default().resolved_default_sets(), names(&["builtins"]));
}
