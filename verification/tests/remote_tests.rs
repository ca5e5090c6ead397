use cspm::names::ModuleTools;
use cspm::remote::{
    child_url, classify_item, contains_string, GitHubItem, ItemAction, RemoteRegistry,
    RemoteRegistryIndex, ResolveError,
};

fn index(versions: &[&str]) -> RemoteRegistryIndex {
    RemoteRegistryIndex {
        versions: versions.iter().map(|s| s.to_string()).collect(),
        authors: vec!["me".to_string()],
        description: "a module".to_string(),
    }
}

#[test]
fn urls() {
    assert_eq!(child_url("https://x.org/res", "osc"), "https://x.org/res/osc");
    let r = RemoteRegistry::new("https://x.org/index.json", "https://x.org/res");
    assert_eq!(r.index_url, "https://x.org/index.json");
    assert_eq!(r.package_url("osc", "1.0.0"), "https://x.org/res/osc/1.0.0");
}

#[test]
fn listing_items() {
    let file = GitHubItem {
        name: "a.udo".to_string(),
        item_type: "file".to_string(),
        download_url: Some("https://raw/a.udo".to_string()),
    };
    match classify_item("https://api/dir", &file) {
        ItemAction::Download { url, name } => {
            assert_eq!(url, "https://raw/a.udo");
            assert_eq!(name, "a.udo");
        },
        _ => panic!("expected a download"),
    }
    let no_url = GitHubItem { name: "b".to_string(), item_type: "file".to_string(), download_url: None };
    assert!(matches!(classify_item("https://api/dir", &no_url), ItemAction::Skip));
    let dir = GitHubItem { name: "sub".to_string(), item_type: "dir".to_string(), download_url: None };
    match classify_item("https://api/dir", &dir) {
        ItemAction::Descend { url, name } => {
            assert_eq!(url, "https://api/dir/sub");
            assert_eq!(name, "sub");
        },
        _ => panic!("expected a folder"),
    }
    let link = GitHubItem { name: "l".to_string(), item_type: "symlink".to_string(), download_url: None };
    assert!(matches!(classify_item("https://api/dir", &link), ItemAction::Skip));
}

#[test]
fn string_membership() {
    let list = vec!["1.0.0".to_string(), "1.1.0".to_string()];
    assert!(contains_string(&list, "1.1.0"));
    assert!(!contains_string(&list, "1.2.0"));
    assert!(!contains_string(&Vec::new(), ""));
}

#[test]
fn resolving_versions() {
    let ix = index(&["1.0.0", "1.1.0", "2.0.0"]);
    assert_eq!(ModuleTools::resolve_module_version("osc", None, Some(&ix)).unwrap(), "2.0.0");
    assert_eq!(
        ModuleTools::resolve_module_version("osc", Some("1.1.0".to_string()), Some(&ix)).unwrap(),
        "1.1.0"
    );
    match ModuleTools::resolve_module_version("osc", Some("3.0.0".to_string()), Some(&ix)) {
        Err(ResolveError::VersionNotFound { name, version }) => {
            assert_eq!(name, "osc");
            assert_eq!(version, "3.0.0");
        },
        other => panic!("unexpected {:?}", other),
    }
    match ModuleTools::resolve_module_version("osc", None, None) {
        Err(ResolveError::ModuleNotFound { name }) => assert_eq!(name, "osc"),
        other => panic!("unexpected {:?}", other),
    }
    match ModuleTools::resolve_module_version("osc", None, Some(&index(&[]))) {
        Err(ResolveError::ModuleNotFound { name }) => assert_eq!(name, "osc"),
        other => panic!("unexpected {:?}", other),
    }
}
