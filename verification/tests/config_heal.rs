use lean_ctx::config_heal::{config_file_in, heal, pending, HealAction};

#[test]
fn adopts_stray_when_canonical_absent() {
    let report = heal("/tmp/t/config", "/tmp/t/data", true, false).expect("should adopt");
    assert_eq!(report.action, HealAction::Adopted);
    assert_eq!(report.from, "/tmp/t/data/config.toml");
    assert_eq!(report.to, "/tmp/t/config/config.toml");
}

#[test]
fn supersedes_stray_when_canonical_present() {
    let report = heal("/tmp/t/config", "/tmp/t/data", true, true).expect("should supersede");
    assert_eq!(report.action, HealAction::Superseded);
    assert_eq!(report.from, "/tmp/t/data/config.toml");
    assert_eq!(report.to, "/tmp/t/data/config.toml.superseded");
}

#[test]
fn noop_when_no_stray_config() {
    assert!(heal("/tmp/t/config", "/tmp/t/data", false, false).is_none());
    assert!(heal("/tmp/t/config", "/tmp/t/data", false, true).is_none());
}

#[test]
fn noop_for_single_dir_layout() {
    assert!(heal("/tmp/t/lean-ctx", "/tmp/t/lean-ctx", true, true).is_none());
    assert!(heal("/tmp/t/lean-ctx/", "/tmp/t/lean-ctx", true, false).is_none());
}

#[test]
fn is_idempotent() {
    assert!(heal("/tmp/t/config", "/tmp/t/data", true, false).is_some());
    // Second run: the stray file is gone.
    assert!(heal("/tmp/t/config", "/tmp/t/data", false, true).is_none());
}

#[test]
fn pending_reports_the_stray_file() {
    assert_eq!(
        pending("/c", "/d", true),
        Some("/d/config.toml".to_string())
    );
    assert_eq!(pending("/c", "/d", false), None);
    assert_eq!(pending("/d", "/d/", true), None);
}

#[test]
fn joins_like_path_join() {
    assert_eq!(config_file_in("/x/"), "/x/config.toml");
    assert_eq!(config_file_in(""), "config.toml");
    assert_eq!(heal("/a//b", "/a/b", true, false), None);
    assert!(heal("/a/b", "/a/c", true, false).is_some());
}

#[test]
fn same_directory_is_never_healed() {
    let d = "/home/u/.config/lean-ctx";
    assert_eq!(heal(d, d, true, true), None);
    assert_eq!(pending(d, d, true), None);
}
