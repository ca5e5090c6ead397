use cspm::checks::{
    includes_are_src, publish_report, repair_needed, strings_equal, sync_report, PublishReport, RemoteStatus,
    SyncError, ValidateError,
};
use cspm::collections::StrMap;
use cspm::project::initial_manifest;
use cspm::registry::{LocalRegistry, RegistryMode};
use cspm::remote::RemoteRegistryIndex;
use cspm::version::VersionError;

fn index(versions: &[&str], authors: &[&str]) -> RemoteRegistryIndex {
    RemoteRegistryIndex {
        versions: versions.iter().map(|s| s.to_string()).collect(),
        authors: authors.iter().map(|s| s.to_string()).collect(),
        description: String::new(),
    }
}

fn modules(text: Option<&str>) -> LocalRegistry {
    let mut r = LocalRegistry::new("cs_modules/.cs_modules_index.json", RegistryMode::ModulesMode);
    r.read_internal_registry(text).unwrap();
    r
}

#[test]
fn equal_string_lists() {
    let a = vec!["x".to_string(), "y".to_string()];
    assert!(strings_equal(&a, &a.clone()));
    assert!(!strings_equal(&a, &vec!["y".to_string(), "x".to_string()]));
    assert!(!strings_equal(&a, &vec!["x".to_string()]));
}

#[test]
fn clean_publish() {
    let mut m = initial_manifest("osc", true);
    m.package.authors = vec!["me".to_string()];
    let r = publish_report(&m, true, None, true, &vec![true], Some("cs_modules\n.config.toml\n"), true, true);
    assert_eq!(r, Ok(PublishReport { warnings: 0, errors: 0 }));
}

#[test]
fn publish_counts() {
    let mut m = initial_manifest("osc", true);
    m.package.authors = vec!["me".to_string()];
    let remote = index(&["0.1.0"], &["other"]);
    let r = publish_report(&m, false, Some(&remote), false, &vec![true, false, true], Some("cs_modules\n"), true, true);
    assert_eq!(r, Ok(PublishReport { warnings: 5, errors: 2 }));
    let same = index(&["0.1.0"], &["me"]);
    let r2 = publish_report(&m, true, Some(&same), true, &vec![], None, false, false);
    assert_eq!(r2, Ok(PublishReport { warnings: 1, errors: 1 }));
    m.package.authors.clear();
    let r3 = publish_report(&m, true, None, true, &vec![], Some(""), false, false);
    assert_eq!(r3, Ok(PublishReport { warnings: 0, errors: 1 }));
}

#[test]
fn publish_with_bad_version() {
    let mut m = initial_manifest("osc", true);
    m.package.version = "v.1.0".to_string();
    let r = publish_report(&m, true, None, true, &vec![], Some(""), false, false);
    assert_eq!(r, Err(VersionError::InvalidFormat));
}

#[test]
fn repair_decision() {
    let mut m = initial_manifest("synth", false);
    assert_eq!(repair_needed(&m, &modules(None)), Ok(false));
    m.dependencies.insert("osc".to_string(), "1.0.0".to_string());
    let unread = LocalRegistry::new("idx.json", RegistryMode::ModulesMode);
    assert_eq!(repair_needed(&m, &unread), Ok(true));
    assert_eq!(repair_needed(&m, &modules(Some("{\"osc\": \"1.0.0\"}"))), Ok(false));
    assert_eq!(repair_needed(&m, &modules(Some("{\"osc\": \"0.9.0\"}"))), Ok(true));
    assert_eq!(repair_needed(&m, &modules(Some("{}"))), Ok(true));
    let mut cache = LocalRegistry::new("cache.json", RegistryMode::CacheMode);
    cache.read_internal_registry(Some("{\"osc\": [\"1.0.0\"]}")).unwrap();
    assert_eq!(repair_needed(&m, &cache), Err(ValidateError::CorruptedIndex));
}

#[test]
fn sync_states() {
    let mut m = initial_manifest("synth", false);
    let mut indexes: StrMap<RemoteRegistryIndex> = StrMap::new();
    let unread = LocalRegistry::new("idx.json", RegistryMode::ModulesMode);
    assert_eq!(sync_report(&m, &indexes, &unread).unwrap().len(), 0);
    m.dependencies.insert("osc".to_string(), "1.0.0".to_string());
    m.dependencies.insert("rev".to_string(), "0.2.0".to_string());
    m.dependencies.insert("lfo".to_string(), "0.1.0".to_string());
    m.dependencies.insert("env".to_string(), "1.0.0".to_string());
    assert!(matches!(sync_report(&m, &indexes, &unread), Err(SyncError::RegistryUnavailable)));
    indexes.insert("osc".to_string(), index(&["0.9.0", "1.0.0"], &["me"]));
    indexes.insert("rev".to_string(), index(&["0.2.0", "0.3.0"], &["me"]));
    indexes.insert("lfo".to_string(), index(&[], &["me"]));
    let reg = modules(Some("{\"osc\": \"1.0.0\"}"));
    let report = sync_report(&m, &indexes, &reg).unwrap();
    assert_eq!(report.len(), 4);
    for d in report.iter() {
        match d.name.as_str() {
            "osc" => {
                assert_eq!(d.declared, "1.0.0");
                assert!(matches!(d.remote, RemoteStatus::UpToDate));
                assert!(d.installed);
            },
            "rev" => {
                assert!(matches!(&d.remote, RemoteStatus::Outdated { latest } if latest == "0.3.0"));
                assert!(!d.installed);
            },
            "lfo" => assert!(matches!(d.remote, RemoteStatus::NoVersions)),
            "env" => assert!(matches!(d.remote, RemoteStatus::NotInRemote)),
            other => panic!("unexpected {}", other),
        }
    }
}

#[test]
fn included_paths_compared_as_paths() {
    let included = vec![
        "src".to_string(),
        "./src".to_string(),
        "src/".to_string(),
        "src//".to_string(),
        "docs".to_string(),
        "/home/p/src".to_string(),
        "/other/src".to_string(),
        "src/a".to_string(),
    ];
    assert_eq!(
        includes_are_src("/home/p", &included, "src"),
        vec![true, true, true, true, false, true, false, false]
    );
    assert_eq!(includes_are_src("/home/p", &vec!["./a".to_string()], "a/."), vec![true]);
}
