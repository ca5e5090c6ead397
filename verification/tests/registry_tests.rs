use cspm::registry::{LocalRegistry, RegistryData, RegistryError, RegistryMode};

fn modules_registry(text: Option<&str>) -> LocalRegistry {
    let mut r = LocalRegistry::new("cs_modules/.cs_modules_index.json", RegistryMode::ModulesMode);
    r.read_internal_registry(text).unwrap();
    r
}

fn cache_registry(text: Option<&str>) -> LocalRegistry {
    let mut r = LocalRegistry::new(".cs_modules_cache_index.json", RegistryMode::CacheMode);
    r.read_internal_registry(text).unwrap();
    r
}

#[test]
fn new_registry_is_not_loaded() {
    let r = LocalRegistry::new("idx.json", RegistryMode::ModulesMode);
    assert!(r.registry.is_none());
    assert_eq!(r.registry_path(), "idx.json");
    assert_eq!(r.registry_mode(), RegistryMode::ModulesMode);
    assert!(matches!(r.write_internal_registry(), Err(RegistryError::NotLoaded)));
    assert!(matches!(r.check_version_conflicts("a", "1.0.0"), Err(RegistryError::NotLoaded)));
    assert_eq!(r.query_registry("a"), None);
}

#[test]
fn missing_file_reads_as_empty() {
    let r = modules_registry(None);
    assert!(r.from_registry_to_list().is_empty());
    assert_eq!(r.query_registry("a"), None);
}

#[test]
fn read_modules_index_text() {
    let r = modules_registry(Some("{\"osc\": \"1.0.0\", \"rev\": \"0.2.0\"}"));
    assert_eq!(r.query_registry("osc"), Some("1.0.0".to_string()));
    assert_eq!(r.query_registry("rev"), Some("0.2.0".to_string()));
    assert_eq!(r.query_registry("lfo"), None);
    let list = r.from_registry_to_list();
    assert_eq!(list.len(), 2);
    assert!(list.contains("osc@1.0.0"));
    assert!(list.contains("rev@0.2.0"));
}

#[test]
fn invalid_index_is_refused_and_registry_kept() {
    let mut r = modules_registry(Some("{\"osc\": \"1.0.0\"}"));
    assert!(matches!(r.read_internal_registry(Some("not json")), Err(RegistryError::InvalidIndex)));
    assert_eq!(r.query_registry("osc"), Some("1.0.0".to_string()));
    let mut c = LocalRegistry::new("c.json", RegistryMode::CacheMode);
    assert!(matches!(c.read_internal_registry(Some("{\"osc\": \"1.0.0\"}")), Err(RegistryError::InvalidIndex)));
    assert!(c.registry.is_none());
}

#[test]
fn query_after_add() {
    let mut r = modules_registry(None);
    r.add_entry_to_registry("osc", "1.0.0");
    assert_eq!(r.query_registry("osc"), Some("1.0.0".to_string()));
    r.add_entry_to_registry("osc", "1.1.0");
    assert_eq!(r.query_registry("osc"), Some("1.1.0".to_string()));
}

#[test]
fn remove_after_add_modules() {
    let mut r = modules_registry(None);
    r.add_entry_to_registry("osc", "1.0.0");
    r.remove_entry_from_registry("osc@2.0.0".to_string());
    assert_eq!(r.query_registry("osc"), Some("1.0.0".to_string()));
    r.remove_entry_from_registry("osc@1.0.0".to_string());
    assert_eq!(r.query_registry("osc"), None);
    r.add_entry_to_registry("rev", "0.1.0");
    r.remove_entry_from_registry("rev".to_string());
    assert_eq!(r.query_registry("rev"), None);
}

#[test]
fn cache_add_and_remove_versions() {
    let mut c = cache_registry(Some("{\"osc\": [\"1.0.0\"]}"));
    c.add_entry_to_registry("osc", "1.1.0");
    match &c.registry {
        Some(RegistryData::CacheRegistry(m)) => {
            let set = m.get("osc").unwrap();
            assert_eq!(set.len(), 2);
            assert!(set.contains("1.0.0") && set.contains("1.1.0"));
        }
        _ => panic!("cache expected"),
    }
    c.remove_entry_from_registry("osc@1.0.0".to_string());
    c.remove_entry_from_registry("osc@1.1.0".to_string());
    match &c.registry {
        Some(RegistryData::CacheRegistry(m)) => assert!(m.get("osc").is_none()),
        _ => panic!("cache expected"),
    }
    assert_eq!(c.query_registry("osc"), None);
    assert!(c.from_registry_to_list().is_empty());
}

#[test]
fn conflicts() {
    let mut r = modules_registry(None);
    r.add_entry_to_registry("osc", "1.0.0");
    assert!(r.check_version_conflicts("osc", "1.0.0").is_ok());
    assert!(r.check_version_conflicts("rev", "3.0.0").is_ok());
    match r.check_version_conflicts("osc", "2.0.0") {
        Err(RegistryError::Conflict { name, requested, installed }) => {
            assert_eq!(name, "osc");
            assert_eq!(requested, "2.0.0");
            assert_eq!(installed, "1.0.0");
        }
        _ => panic!("conflict expected"),
    }
    let c = cache_registry(None);
    assert!(c.check_version_conflicts("osc", "2.0.0").is_ok());
}

#[test]
fn write_then_read_modules_index() {
    let mut r = modules_registry(None);
    r.add_entry_to_registry("rev", "0.2.0");
    r.add_entry_to_registry("osc", "1.0.0");
    let text = r.write_internal_registry().unwrap();
    assert_eq!(text, "{\n  \"osc\": \"1.0.0\",\n  \"rev\": \"0.2.0\"\n}");
    let back = modules_registry(Some(&text));
    assert_eq!(back.query_registry("osc"), Some("1.0.0".to_string()));
    assert_eq!(back.query_registry("rev"), Some("0.2.0".to_string()));
    assert_eq!(back.from_registry_to_list().len(), 2);
}

#[test]
fn write_then_read_cache_index() {
    let mut c = cache_registry(None);
    c.add_entry_to_registry("osc", "1.1.0");
    c.add_entry_to_registry("osc", "1.0.0");
    let text = c.write_internal_registry().unwrap();
    assert_eq!(text, "{\n  \"osc\": [\n    \"1.0.0\",\n    \"1.1.0\"\n  ]\n}");
    let back = cache_registry(Some(&text));
    match &back.registry {
        Some(RegistryData::CacheRegistry(m)) => {
            let set = m.get("osc").unwrap();
            assert!(set.contains("1.0.0") && set.contains("1.1.0"));
            assert_eq!(set.len(), 2);
        }
        _ => panic!("cache expected"),
    }
}

#[test]
fn installed_entries() {
    let r = modules_registry(Some("{\"osc\": \"1.0.0\"}"));
    assert_eq!(r.installed_entry("osc"), Some("osc@1.0.0".to_string()));
    assert_eq!(r.installed_entry("rev"), None);
    let c = cache_registry(Some("{\"osc\": [\"1.0.0\"]}"));
    assert_eq!(c.installed_entry("osc"), None);
}
