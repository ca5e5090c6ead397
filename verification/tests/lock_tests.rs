use cspm::collections::{StrMap, StrSet};
use cspm::lock::{dependency_list, LockChild, LockFile, LOCK_VERSION};

fn child(name: &str, version: &str, checksum: &str) -> LockChild {
    LockChild {
        name: name.to_string(),
        version: version.to_string(),
        source: "remote".to_string(),
        checksum: checksum.to_string(),
        dependencies: Vec::new(),
    }
}

#[test]
fn new_lock_file() {
    let l = LockFile::new_default();
    assert_eq!(l.version, LOCK_VERSION);
    assert_eq!(l.version, 1);
    assert!(l.package.is_empty());
    assert!(l.plugins.is_empty());
}

#[test]
fn record_module_replaces_same_entry() {
    let mut l = LockFile::new_default();
    l.record_module(child("osc", "1.0.0", "aa"));
    l.record_module(child("rev", "0.1.0", "bb"));
    l.record_module(child("osc", "1.0.0", "cc"));
    assert_eq!(l.package.len(), 2);
    assert_eq!(l.package[0].name, "rev");
    assert_eq!(l.package[1].name, "osc");
    assert_eq!(l.package[1].checksum, "cc");
    l.record_module(child("osc", "2.0.0", "dd"));
    assert_eq!(l.package.len(), 3);
}

#[test]
fn remove_module_drops_name_and_version() {
    let mut l = LockFile::new_default();
    l.record_module(child("osc", "1.0.0", "aa"));
    l.record_module(child("osc", "2.0.0", "bb"));
    l.remove_module("osc", "1.0.0");
    assert_eq!(l.package.len(), 1);
    assert_eq!(l.package[0].version, "2.0.0");
}

#[test]
fn project_entry_is_unique_and_last() {
    let mut deps = StrMap::new();
    deps.insert("osc".to_string(), "1.0.0".to_string());
    deps.insert("rev".to_string(), "0.2.0".to_string());
    let mut l = LockFile::new_default();
    l.set_project_entry("synth", "0.1.0", &StrMap::new());
    l.record_module(child("osc", "1.0.0", "aa"));
    l.set_project_entry("synth", "0.2.0", &deps);
    assert_eq!(l.package.len(), 2);
    let last = &l.package[1];
    assert_eq!(last.name, "synth");
    assert_eq!(last.version, "0.2.0");
    assert_eq!(last.source, "");
    assert_eq!(last.checksum, "");
    assert_eq!(last.dependencies, vec!["osc@1.0.0".to_string(), "rev@0.2.0".to_string()]);
}

#[test]
fn dependencies_as_full_names() {
    let mut deps = StrMap::new();
    deps.insert("a".to_string(), "1.0.0".to_string());
    assert_eq!(dependency_list(&deps), vec!["a@1.0.0".to_string()]);
    assert!(dependency_list(&StrMap::new()).is_empty());
}

#[test]
fn restore_skips_project_entry() {
    let mut l = LockFile::new_default();
    l.record_module(child("osc", "1.0.0", "aa"));
    l.set_project_entry("synth", "0.1.0", &StrMap::new());
    l.record_module(child("rev", "0.1.0", "bb"));
    assert_eq!(l.modules_to_restore("synth"), vec![0, 2]);
}

#[test]
fn plugins_taken_from_manifest() {
    let mut p = StrSet::new();
    p.insert("reverbsc".to_string());
    let mut l = LockFile::new_default();
    l.set_plugins(&p);
    assert!(l.plugins.contains("reverbsc"));
    assert_eq!(l.plugins.len(), 1);
}
