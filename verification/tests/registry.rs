use tanoshi::errors::LoadError;
use tanoshi::registry::{ProviderInfo, Registry};
use tanoshi::Version;

fn host() -> Registry {
    Registry::new("abi-3".to_string(), "rustc-1.45".to_string())
}

fn info(name: &str, major: u64, minor: u64, patch: u64) -> ProviderInfo {
    ProviderInfo {
        name: name.to_string(),
        version: Version { major, minor, patch },
        core_abi: "abi-3".to_string(),
        toolchain: "rustc-1.45".to_string(),
    }
}

#[test]
fn load_then_get_returns_handle_with_same_name() {
    let mut reg = host();
    assert!(reg.load(info("mangadex", 1, 0, 0)).is_ok());
    let h = reg.get(&"mangadex".to_string()).expect("handle must be present");
    assert_eq!(h.name, "mangadex".to_string());
    assert_eq!(h.version, Version { major: 1, minor: 0, patch: 0 });
}

#[test]
fn load_twice_fails_already_loaded() {
    let mut reg = host();
    assert!(reg.load(info("mangadex", 1, 0, 0)).is_ok());
    assert_eq!(reg.load(info("mangadex", 1, 1, 0)), Err(LoadError::AlreadyLoaded));
    // the first handle stands
    let h = reg.get(&"mangadex".to_string()).unwrap();
    assert_eq!(h.version, Version { major: 1, minor: 0, patch: 0 });
}

#[test]
fn unload_without_handle_fails_not_loaded() {
    let mut reg = host();
    assert_eq!(reg.unload(&"mangadex".to_string()), Err(LoadError::NotLoaded));
}

#[test]
fn unload_then_load_succeeds() {
    let mut reg = host();
    assert!(reg.load(info("mangadex", 1, 0, 0)).is_ok());
    assert!(reg.unload(&"mangadex".to_string()).is_ok());
    assert!(reg.get(&"mangadex".to_string()).is_none());
    assert!(reg.load(info("mangadex", 1, 1, 0)).is_ok());
}

#[test]
fn load_with_wrong_core_abi_fails_abi_mismatch() {
    let mut reg = host();
    let mut bad = info("mangadex", 1, 0, 0);
    bad.core_abi = "abi-2".to_string();
    assert_eq!(reg.load(bad), Err(LoadError::AbiMismatch));
    // such a handle is never registered
    assert!(reg.get(&"mangadex".to_string()).is_none());
}

#[test]
fn load_with_wrong_toolchain_fails_abi_mismatch() {
    let mut reg = host();
    let mut bad = info("mangadex", 1, 0, 0);
    bad.toolchain = "rustc-1.44".to_string();
    assert_eq!(reg.load(bad), Err(LoadError::AbiMismatch));
    assert!(reg.get(&"mangadex".to_string()).is_none());
}

#[test]
fn abi_gate_beats_already_loaded() {
    let mut reg = host();
    assert!(reg.load(info("mangadex", 1, 0, 0)).is_ok());
    let mut bad = info("mangadex", 2, 0, 0);
    bad.core_abi = "abi-2".to_string();
    assert_eq!(reg.load(bad), Err(LoadError::AbiMismatch));
}

#[test]
fn describe_names_each_load_error() {
    assert_eq!(LoadError::AbiMismatch.describe(), "core ABI or toolchain version mismatch");
    assert_eq!(LoadError::AlreadyLoaded.describe(), "extension already loaded");
    assert_eq!(LoadError::NotLoaded.describe(), "extension not loaded");
}
