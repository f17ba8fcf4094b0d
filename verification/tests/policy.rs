use openlogi::policy::{release_arch, should_run};

#[test]
fn sync_setting_off_wins() {
    for v in ["off", "false", "0"] {
        for debug in [false, true] {
            for bundle in [false, true] {
                assert!(!should_run(Some(v), debug, bundle));
            }
        }
    }
}

#[test]
fn sync_setting_on_wins() {
    for v in ["on", "true", "1"] {
        for debug in [false, true] {
            for bundle in [false, true] {
                assert!(should_run(Some(v), debug, bundle));
            }
        }
    }
}

#[test]
fn debug_builds_sync_by_default() {
    assert!(should_run(None, true, true));
    assert!(should_run(None, true, false));
    assert!(should_run(Some("OFF"), true, true));
    assert!(should_run(Some(""), true, true));
}

#[test]
fn release_builds_sync_only_without_bundle() {
    assert!(!should_run(None, false, true));
    assert!(should_run(None, false, false));
    assert!(!should_run(Some("yes"), false, true));
    assert!(should_run(Some("no"), false, false));
}

#[test]
fn release_arch_names() {
    assert_eq!(release_arch("aarch64"), "arm64");
    assert_eq!(release_arch("x86_64"), "x86_64");
    assert_eq!(release_arch("arm64"), "arm64");
    assert_eq!(release_arch("aarch64 "), "aarch64 ");
}
