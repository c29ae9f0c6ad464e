use tanoshi::catalog::SourceIndexEntry;
use tanoshi::registry::{ProviderInfo, Registry};
use tanoshi::Version;

fn host() -> Registry {
    Registry::new("abi-3".to_string(), "rustc-1.45".to_string())
}

fn entry(name: &str, major: u64, minor: u64, patch: u64) -> SourceIndexEntry {
    SourceIndexEntry {
        name: name.to_string(),
        path: format!("{}/plugin", name),
        version: Version { major, minor, patch },
        core_abi: "abi-3".to_string(),
        toolchain: "rustc-1.45".to_string(),
        installed: false,
        installed_version: None,
        update_available: false,
    }
}

fn loaded(name: &str, major: u64, minor: u64, patch: u64) -> Registry {
    let mut reg = host();
    reg.load(ProviderInfo {
        name: name.to_string(),
        version: Version { major, minor, patch },
        core_abi: "abi-3".to_string(),
        toolchain: "rustc-1.45".to_string(),
    })
    .unwrap();
    reg
}

#[test]
fn newer_patch_offers_update() {
    let reg = loaded("mangadex", 1, 2, 3);
    let out = tanoshi::catalog::annotate(&reg, &vec![entry("mangadex", 1, 2, 4)]);
    assert!(out[0].installed);
    assert_eq!(out[0].installed_version, Some(Version { major: 1, minor: 2, patch: 3 }));
    assert!(out[0].update_available);
}

#[test]
fn equal_version_offers_no_update() {
    let reg = loaded("mangadex", 1, 2, 3);
    let out = tanoshi::catalog::annotate(&reg, &vec![entry("mangadex", 1, 2, 3)]);
    assert!(out[0].installed);
    assert!(!out[0].update_available);
}

#[test]
fn installed_greater_offers_no_update() {
    let reg = loaded("mangadex", 1, 3, 0);
    let out = tanoshi::catalog::annotate(&reg, &vec![entry("mangadex", 1, 2, 9)]);
    assert!(out[0].installed);
    assert!(!out[0].update_available);
}

#[test]
fn newer_minor_and_major_offer_update() {
    let reg = loaded("mangadex", 1, 2, 3);
    let out = tanoshi::catalog::annotate(
        &reg,
        &vec![entry("mangadex", 1, 3, 0), entry("mangadex", 2, 0, 0)],
    );
    assert!(out[0].update_available);
    assert!(out[1].update_available);
}

#[test]
fn mismatched_abi_hides_update_regardless_of_version() {
    let reg = loaded("mangadex", 1, 2, 3);
    let mut newer_wrong_abi = entry("mangadex", 9, 9, 9);
    newer_wrong_abi.core_abi = "abi-4".to_string();
    let mut equal_wrong_toolchain = entry("mangadex", 1, 2, 3);
    equal_wrong_toolchain.toolchain = "rustc-1.50".to_string();
    let out = tanoshi::catalog::annotate(&reg, &vec![newer_wrong_abi, equal_wrong_toolchain]);
    assert!(out[0].installed);
    assert!(!out[0].update_available);
    assert!(out[1].installed);
    assert!(!out[1].update_available);
}

#[test]
fn unknown_source_is_not_installed() {
    let reg = loaded("mangadex", 1, 2, 3);
    let out = tanoshi::catalog::annotate(&reg, &vec![entry("mangasee", 1, 0, 0)]);
    assert!(!out[0].installed);
    assert_eq!(out[0].installed_version, None);
    assert!(!out[0].update_available);
}

#[test]
fn version_ordering_is_lexicographic() {
    let a = Version { major: 1, minor: 2, patch: 3 };
    assert!(a.lt(&Version { major: 1, minor: 2, patch: 4 }));
    assert!(a.lt(&Version { major: 1, minor: 3, patch: 0 }));
    assert!(a.lt(&Version { major: 2, minor: 0, patch: 0 }));
    assert!(!a.lt(&Version { major: 1, minor: 2, patch: 3 }));
    assert!(!a.lt(&Version { major: 1, minor: 1, patch: 9 }));
    assert!(!a.lt(&Version { major: 0, minor: 9, patch: 9 }));
}
