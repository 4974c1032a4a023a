//! Tests of the library selection flags, their parsing, and the
//! registration of the standard libraries.
use shingetsu::{register_libs, GlobalEnv, GlobalValue, Libraries, Module};

#[test]
fn register_libs_empty_is_noop() {
    let mut env = GlobalEnv::new();
    register_libs(&mut env, Libraries::empty()).expect("register");
    // Nothing registered — io and os should be absent.
    assert!(env.get_global("io").is_none());
    assert!(env.get_global("os").is_none());
}

#[test]
fn register_libs_builtins_only() {
    let mut env = GlobalEnv::new();
    register_libs(&mut env, Libraries::BUILTINS()).expect("register");
    // Core globals present, io/os absent.
    assert!(env.get_global("print").is_some());
    assert!(env.get_global("io").is_none());
    assert!(env.get_global("os").is_none());
}

#[test]
fn register_libs_stdio_implies_io() {
    let mut env = GlobalEnv::new();
    register_libs(&mut env, Libraries::BUILTINS().union(Libraries::STDIO())).expect("register");
    // STDIO should have pulled in IO.
    assert!(env.get_global("io").is_some());
}

#[test]
fn register_libs_exec_implies_io() {
    let mut env = GlobalEnv::new();
    register_libs(&mut env, Libraries::BUILTINS().union(Libraries::EXEC())).expect("register");
    // EXEC should have pulled in IO.
    assert!(env.get_global("io").is_some());
}

#[test]
fn register_libs_all() {
    let mut env = GlobalEnv::new();
    register_libs(&mut env, Libraries::ALL()).expect("register");
    assert!(env.get_global("io").is_some());
    assert!(env.get_global("os").is_some());
    assert!(env.get_global("print").is_some());
}

#[test]
fn register_libs_sandboxed() {
    let mut env = GlobalEnv::new();
    register_libs(&mut env, Libraries::SANDBOXED()).expect("register");
    assert!(env.get_global("print").is_some());
    assert!(env.get_global("io").is_none());
    assert!(env.get_global("os").is_none());
    assert!(env.get_global("regex").is_some());
}

#[test]
fn register_libs_io_without_stdio() {
    let mut env = GlobalEnv::new();
    register_libs(&mut env, Libraries::BUILTINS().union(Libraries::IO())).expect("register");
    // IO registered but no stdio handles.
    let io = env.get_global("io");
    assert!(io.is_some());
    match io {
        Some(GlobalValue::Table(mods)) => {
            assert!(!mods.contains(&Module::IoStdio));
        }
        other => panic!("expected io table, got {:?}", other),
    }
}

#[test]
fn libraries_all_equals_individual_flags() {
    assert_eq!(
        Libraries::ALL(),
        Libraries::BUILTINS()
            .union(Libraries::OS())
            .union(Libraries::IO())
            .union(Libraries::STDIO())
            .union(Libraries::EXEC())
            .union(Libraries::ENV())
            .union(Libraries::EXIT())
            .union(Libraries::PACKAGE())
            .union(Libraries::LOAD())
            .union(Libraries::TASK())
            .union(Libraries::REGEX())
    );
}

#[test]
fn libraries_all_does_not_include_debug() {
    assert!(!Libraries::ALL().contains(Libraries::DEBUG()));
}

#[test]
fn debug_table_always_present() {
    // Even with empty libs, the sandbox-safe debug table is registered.
    let mut env = GlobalEnv::new();
    register_libs(&mut env, Libraries::empty()).expect("register");
    assert!(env.get_global("debug").is_some());
}

#[test]
fn debug_table_present_in_sandboxed() {
    let mut env = GlobalEnv::new();
    register_libs(&mut env, Libraries::SANDBOXED()).expect("register");
    assert!(env.get_global("debug").is_some());
}

#[test]
fn libraries_from_str_single() {
    let libs: Libraries = "os".parse().expect("parse");
    assert_eq!(libs, Libraries::OS());
}

#[test]
fn libraries_from_str_multiple() {
    let libs: Libraries = "os,io,stdio".parse().expect("parse");
    assert_eq!(libs, Libraries::OS().union(Libraries::IO()).union(Libraries::STDIO()));
}

#[test]
fn libraries_from_str_all() {
    let libs: Libraries = "all".parse().expect("parse");
    assert_eq!(libs, Libraries::ALL());
}

#[test]
fn libraries_from_str_sandboxed() {
    let libs: Libraries = "sandboxed".parse().expect("parse");
    assert_eq!(libs, Libraries::SANDBOXED());
}

#[test]
fn libraries_from_str_case_insensitive() {
    let libs: Libraries = "OS,Io,STDIO".parse().expect("parse");
    assert_eq!(libs, Libraries::OS().union(Libraries::IO()).union(Libraries::STDIO()));
}

#[test]
fn libraries_from_str_with_spaces() {
    let libs: Libraries = "os , io , stdio".parse().expect("parse");
    assert_eq!(libs, Libraries::OS().union(Libraries::IO()).union(Libraries::STDIO()));
}

#[test]
fn libraries_from_str_unknown_errors() {
    let err = "banana".parse::<Libraries>().unwrap_err();
    assert_eq!(err, "unknown library: 'banana'");
}

#[test]
fn libraries_from_str_empty_is_empty() {
    let libs: Libraries = "".parse().expect("parse");
    assert_eq!(libs, Libraries::empty());
}

// Further cases.

#[test]
fn libraries_from_str_unknown_name_is_lower_cased() {
    let err = "os, BaNaNa ,io".parse::<Libraries>().unwrap_err();
    assert_eq!(err, "unknown library: 'banana'");
}

#[test]
fn libraries_from_str_empty_parts_skipped() {
    let libs: Libraries = ",,regex,,".parse().expect("parse");
    assert_eq!(libs, Libraries::REGEX());
}

#[test]
fn register_libs_caches_loaded_tables() {
    let mut env = GlobalEnv::new();
    register_libs(&mut env, Libraries::ALL()).expect("register");
    assert!(env.get_loaded("os").is_some());
    assert!(env.get_loaded("io").is_some());
    assert!(env.get_loaded("debug").is_some());
    assert!(env.get_loaded("regex").is_some());
}

#[test]
fn register_libs_os_table_merges_gated_parts() {
    let mut env = GlobalEnv::new();
    let libs = Libraries::OS().union(Libraries::EXEC()).union(Libraries::ENV());
    register_libs(&mut env, libs).expect("register");
    match env.get_global("os") {
        Some(GlobalValue::Table(mods)) => {
            assert_eq!(mods, vec![Module::Os, Module::OsFs, Module::OsExec, Module::OsEnv]);
        }
        other => panic!("expected os table, got {:?}", other),
    }
}

#[test]
fn register_libs_debug_introspection_only_with_debug() {
    let mut env = GlobalEnv::new();
    register_libs(&mut env, Libraries::DEBUG()).expect("register");
    match env.get_global("debug") {
        Some(GlobalValue::Table(mods)) => {
            assert_eq!(mods, vec![Module::Debug, Module::DebugIntrospection]);
        }
        other => panic!("expected debug table, got {:?}", other),
    }
}

#[test]
fn register_libs_package_sets_loader() {
    let mut env = GlobalEnv::new();
    register_libs(&mut env, Libraries::PACKAGE()).expect("register");
    assert!(env.module_loader_enabled());
}

#[test]
fn register_stdio_without_io_fails() {
    let mut env = GlobalEnv::new();
    let err = shingetsu::io_lib::register_stdio(&mut env).unwrap_err();
    match err {
        shingetsu::error::LibError::Runtime { message, .. } => {
            assert_eq!(message, "io table not found; call io_lib::register() first");
        }
        other => panic!("unexpected error {:?}", other),
    }
}

#[test]
fn registered_types_are_recorded() {
    let mut env = GlobalEnv::new();
    register_libs(&mut env, Libraries::ALL()).expect("register");
    assert!(env.module_type_registered("builtins"));
    assert!(env.module_type_registered("debug"));
    assert!(env.userdata_type_registered("Regex"));
    assert!(env.userdata_type_registered("BytesCaptures"));
    assert!(!env.userdata_type_registered("NoSuchType"));
    let mut builtins_only = GlobalEnv::new();
    register_libs(&mut builtins_only, Libraries::BUILTINS()).expect("register");
    assert!(!builtins_only.userdata_type_registered("Regex"));
}

#[test]
fn libraries_from_str_trims_unicode_white_space() {
    let libs: Libraries = "\u{a0}os ,\u{2003}io\u{3000}".parse().unwrap();
    assert!(libs.contains(Libraries::OS()));
    assert!(libs.contains(Libraries::IO()));
}

#[test]
fn plugin_env_is_sandboxed() {
    let env = shingetsu::new_plugin_env().unwrap();
    assert!(env.get_global("io").is_none());
    assert!(env.get_global("os").is_none());
    assert!(matches!(env.get_global("regex"), Some(GlobalValue::Table(_))));
    assert!(matches!(env.get_global("print"), Some(GlobalValue::Function(_))));
}
