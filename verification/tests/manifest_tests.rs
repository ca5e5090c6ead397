use cspm::collections::{StrMap, StrSet};
use cspm::manifest::{update_manifest, EntryPointError, MainEntry, MainPackage, Manifest, ManifestError};
use cspm::project::initial_manifest;
use cspm::registry::{LocalRegistry, RegistryMode};

fn entry(src: &str, csd: Option<&str>, orc: Option<&str>, sco: Option<&str>, udo: Option<&str>) -> MainEntry {
    MainEntry {
        src: src.to_string(),
        csd: csd.map(|s| s.to_string()),
        orc: orc.map(|s| s.to_string()),
        sco: sco.map(|s| s.to_string()),
        udo: udo.map(|s| s.to_string()),
    }
}

fn manifest_with(mode: &str, main: MainEntry) -> Manifest {
    Manifest {
        package: MainPackage {
            name: "synth".to_string(),
            version: "0.1.0".to_string(),
            mode: mode.to_string(),
            description: String::new(),
            repository: String::new(),
            authors: vec!["me".to_string()],
            license: "MIT".to_string(),
            cs_version: "7.0".to_string(),
            included: vec!["src".to_string()],
        },
        main,
        dependencies: StrMap::new(),
        plugins: StrSet::new(),
    }
}

#[test]
fn main_entry_empty() {
    assert!(entry("", None, None, None, None).is_empty());
    assert!(!entry("src", None, None, None, None).is_empty());
    assert_eq!(entry("", None, None, None, None).get_entry_point(), Err(EntryPointError::Empty));
}

#[test]
fn entry_point_cases() {
    assert_eq!(entry("src", None, None, None, Some("a.udo")).get_entry_point().unwrap(), (String::new(), String::new()));
    assert_eq!(entry("src", Some("a.csd"), Some("a.orc"), Some("a.sco"), None).get_entry_point(), Err(EntryPointError::ManyEntryPoints));
    assert_eq!(entry("src", Some("a.csd"), Some("a.orc"), None, None).get_entry_point().unwrap(), ("a.csd".to_string(), String::new()));
    assert_eq!(entry("src", Some("a.csd"), None, None, None).get_entry_point().unwrap(), ("a.csd".to_string(), String::new()));
    assert_eq!(entry("src", None, Some("a.orc"), Some("a.sco"), None).get_entry_point().unwrap(), ("a.orc".to_string(), "a.sco".to_string()));
    assert_eq!(entry("src", None, Some("a.orc"), None, None).get_entry_point(), Err(EntryPointError::MissingEntryPoint));
    assert_eq!(entry("src", None, None, None, None).get_entry_point(), Err(EntryPointError::MissingEntryPoint));
}

#[test]
fn mandatory_fields() {
    let m = manifest_with("cs-project", entry("src", Some("a.csd"), None, None, None));
    assert!(m.mandatory_fields_exists());
    let mut m2 = manifest_with("cs-project", entry("src", Some("a.csd"), None, None, None));
    m2.package.authors.clear();
    assert!(!m2.mandatory_fields_exists());
    let fresh = initial_manifest("synth", false);
    assert!(!fresh.mandatory_fields_exists());
}

#[test]
fn module_mode_follows_the_documented_modes() {
    assert!(manifest_with("cs-module", entry("src", None, None, None, Some("a.udo"))).check_module_mode());
    assert!(!manifest_with("cs-module", entry("src", Some("a.csd"), None, None, None)).check_module_mode());
    assert!(manifest_with("cs-project", entry("src", Some("a.csd"), None, None, None)).check_module_mode());
    assert!(manifest_with("cs-project", entry("src", None, Some("a.orc"), Some("a.sco"), None)).check_module_mode());
    assert!(!manifest_with("cs-project", entry("src", None, Some("a.orc"), None, None)).check_module_mode());
    assert!(!manifest_with("other", entry("src", Some("a.csd"), Some("a.orc"), None, None)).check_module_mode());
}

#[test]
fn csound_version_check() {
    let m = manifest_with("cs-project", entry("src", Some("a.csd"), None, None, None));
    assert!(m.check_csound_versions(Some("7.0".to_string())));
    assert!(!m.check_csound_versions(Some("6.18".to_string())));
    assert!(!m.check_csound_versions(None));
}

#[test]
fn add_dependency_replaces_version() {
    let mut m = manifest_with("cs-project", entry("src", Some("a.csd"), None, None, None));
    m.add_dependency("osc", "1.0.0");
    m.add_dependency("osc", "1.2.0");
    assert_eq!(m.dependencies.get("osc"), Some(&"1.2.0".to_string()));
    assert_eq!(m.dependencies.len(), 1);
    update_manifest(&mut m, "rev", "0.3.0");
    assert_eq!(m.dependencies.get("rev"), Some(&"0.3.0".to_string()));
}

#[test]
fn update_from_file_takes_everything() {
    let mut m = manifest_with("cs-project", entry("src", Some("a.csd"), None, None, None));
    let other = initial_manifest("other", true);
    m.update_from_file(other);
    assert_eq!(m.package.name, "other");
    assert_eq!(m.main.udo, Some("src/other.udo".to_string()));
}

#[test]
fn manifest_deps_against_registry() {
    let mut m = manifest_with("cs-project", entry("src", Some("a.csd"), None, None, None));
    m.add_dependency("osc", "1.0.0");
    let unread = LocalRegistry::new("x", RegistryMode::ModulesMode);
    assert!(matches!(m.check_manifest_deps(&unread), Err(ManifestError::RegistryUnavailable)));

    let mut reg = LocalRegistry::new("x", RegistryMode::ModulesMode);
    reg.read_internal_registry(None).unwrap();
    match m.check_manifest_deps(&reg) {
        Err(ManifestError::NotInstalled { name, declared }) => {
            assert_eq!(name, "osc");
            assert_eq!(declared, "1.0.0");
        }
        _ => panic!("not installed expected"),
    }
    reg.add_entry_to_registry("osc", "0.9.0");
    match m.check_manifest_deps(&reg) {
        Err(ManifestError::VersionMismatch { name, declared, installed }) => {
            assert_eq!((name.as_str(), declared.as_str(), installed.as_str()), ("osc", "1.0.0", "0.9.0"));
        }
        _ => panic!("mismatch expected"),
    }
    reg.add_entry_to_registry("osc", "1.0.0");
    assert!(m.check_manifest_deps(&reg).is_ok());

    let mut cache = LocalRegistry::new("c", RegistryMode::CacheMode);
    cache.read_internal_registry(None).unwrap();
    assert!(m.check_manifest_deps(&cache).is_ok());
}
