use cspm::actions::{
    apply_plugin_changes, classify_update, csound_arguments, init_module_flag, install_action,
    plugin_changes, risset_install_options, undeclared_module, update_check, InstallAction,
    UpdateAction, UpdateCheck, UpdateError,
};
use cspm::collections::{StrMap, StrSet};
use cspm::remote::RemoteRegistryIndex;
use cspm::actions::update_candidates;
use cspm::registry::{LocalRegistry, RegistryMode};
use cspm::version::VersionError;

fn strings(v: &[&str]) -> Vec<String> {
    v.iter().map(|s| s.to_string()).collect()
}

fn set_of(v: &[&str]) -> StrSet {
    StrSet::from_vec(strings(v))
}

fn sorted(s: &StrSet) -> Vec<String> {
    let mut v = s.items_vec().clone();
    v.sort();
    v
}

#[test]
fn install_action_cases() {
    assert_eq!(install_action(None, "1.0.0"), Ok(InstallAction::Install));
    assert_eq!(install_action(Some("1.0.0"), "1.0.0"), Ok(InstallAction::AlreadyInstalled));
    assert_eq!(install_action(Some("1.0.0"), "1.2.0"), Ok(InstallAction::Reinstall));
    assert_eq!(install_action(Some("2.0.0"), "1.2.0"), Ok(InstallAction::Reinstall));
    assert_eq!(install_action(Some("a.b.c"), "1.0.0"), Err(VersionError::InvalidFormat));
    assert_eq!(install_action(Some("1.0.0"), "x.y.z"), Err(VersionError::InvalidFormat));
    assert_eq!(install_action(Some("a.b.c"), "1.0"), Err(VersionError::InvalidFormat));
}

#[test]
fn update_classification() {
    assert!(matches!(classify_update("osc", "1.0.0", "1.0.0"), Ok(UpdateAction::AlreadyCurrent)));
    assert!(matches!(classify_update("osc", "2.0.0", "1.0.0"), Ok(UpdateAction::UpToDate)));
    match classify_update("osc", "1.0.0", "1.1.0") {
        Ok(UpdateAction::Update { entry }) => assert_eq!(entry, "osc@1.1.0"),
        _ => panic!("expected an update"),
    }
    assert!(matches!(classify_update("osc", "1.0.q", "1.1.0"), Err(VersionError::InvalidFormat)));
}

#[test]
fn first_undeclared_module() {
    let mut deps: StrMap<String> = StrMap::new();
    deps.insert("osc".to_string(), "1.0.0".to_string());
    deps.insert("rev".to_string(), "0.2.0".to_string());
    assert_eq!(undeclared_module(&strings(&["osc", "rev"]), &deps), None);
    assert_eq!(undeclared_module(&strings(&["osc", "lfo", "env"]), &deps), Some("lfo".to_string()));
    assert_eq!(undeclared_module(&Vec::new(), &deps), None);
}

#[test]
fn plugin_changes_with_install() {
    let (add, remove) = plugin_changes(&strings(&["install", "--force", "klib", "-f", "poly"]));
    assert_eq!(sorted(&add), strings(&["klib", "poly"]));
    assert!(remove.is_empty());
    let (add, _) = plugin_changes(&strings(&["install", "p1"]));
    assert_eq!(sorted(&add), strings(&["p1"]));
}

#[test]
fn plugin_changes_with_remove() {
    let (add, remove) = plugin_changes(&strings(&["remove", "klib", "-f", "poly"]));
    assert!(add.is_empty());
    assert_eq!(sorted(&remove), strings(&["klib", "poly"]));
}

#[test]
fn plugin_changes_without_command() {
    let (add, remove) = plugin_changes(&strings(&["list", "klib"]));
    assert!(add.is_empty());
    assert!(remove.is_empty());
}

#[test]
fn applying_plugin_changes() {
    let mut plugins = set_of(&["klib", "poly"]);
    apply_plugin_changes(&mut plugins, &set_of(&["beosc", "klib"]), &set_of(&["poly"]));
    assert_eq!(sorted(&plugins), strings(&["beosc", "klib"]));
}

#[test]
fn risset_arguments() {
    let plugins = set_of(&["klib", "poly"]);
    let args = risset_install_options(&plugins);
    assert_eq!(args[0], "install");
    assert_eq!(args.len(), 3);
    let mut rest = args[1..].to_vec();
    rest.sort();
    assert_eq!(rest, strings(&["klib", "poly"]));
    assert_eq!(risset_install_options(&StrSet::new()), strings(&["install"]));
}

#[test]
fn csound_argument_list() {
    let opts = strings(&["-odac", "-m0"]);
    assert_eq!(
        csound_arguments(&("main.csd".to_string(), String::new()), &opts),
        strings(&["main.csd", "-odac", "-m0"])
    );
    assert_eq!(
        csound_arguments(&("a.orc".to_string(), "a.sco".to_string()), &opts),
        strings(&["a.orc", "a.sco", "-odac", "-m0"])
    );
    assert_eq!(
        csound_arguments(&("a.orc".to_string(), "a.sco".to_string()), &Vec::new()),
        strings(&["a.orc", "a.sco"])
    );
}

#[test]
fn init_flags() {
    assert!(init_module_flag(true, false));
    assert!(!init_module_flag(true, true));
    assert!(!init_module_flag(false, true));
    assert!(!init_module_flag(false, false));
}

fn index(versions: &[&str]) -> RemoteRegistryIndex {
    RemoteRegistryIndex { versions: strings(versions), authors: Vec::new(), description: String::new() }
}

#[test]
fn update_checks() {
    let ix = index(&["1.0.0", "1.2.0"]);
    assert!(matches!(update_check("osc", None, Some(&ix)), Ok(UpdateCheck::NotInstalled)));
    match update_check("osc", Some("1.0.0"), Some(&ix)) {
        Ok(UpdateCheck::Decided(UpdateAction::Update { entry })) => assert_eq!(entry, "osc@1.2.0"),
        _ => panic!("expected an update"),
    }
    assert!(matches!(
        update_check("osc", Some("1.2.0"), Some(&ix)),
        Ok(UpdateCheck::Decided(UpdateAction::AlreadyCurrent))
    ));
    assert!(matches!(
        update_check("osc", Some("2.0.0"), Some(&ix)),
        Ok(UpdateCheck::Decided(UpdateAction::UpToDate))
    ));
    match update_check("osc", Some("1.0.0"), None) {
        Err(UpdateError::ModuleNotFound { name }) => assert_eq!(name, "osc"),
        _ => panic!("expected a missing module"),
    }
    assert!(matches!(update_check("osc", Some("1.0.0"), Some(&index(&[]))), Err(UpdateError::ModuleNotFound { .. })));
    assert!(matches!(update_check("osc", Some("v.1.0"), Some(&ix)), Err(UpdateError::InvalidVersion)));
    assert!(matches!(update_check("osc", Some("1.0.0"), Some(&index(&["x.y.z"]))), Err(UpdateError::InvalidVersion)));
}

#[test]
fn update_candidate_modules() {
    let mut reg = LocalRegistry::new("idx.json", RegistryMode::ModulesMode);
    reg.read_internal_registry(Some("{\"osc\": \"1.0.0\"}")).unwrap();
    assert_eq!(update_candidates(&reg, None), strings(&["osc"]));
    assert_eq!(update_candidates(&reg, Some(&strings(&["rev", "lfo"]))), strings(&["rev", "lfo"]));
    let unread = LocalRegistry::new("idx.json", RegistryMode::ModulesMode);
    assert!(update_candidates(&unread, None).is_empty());
}
