use cspm::project::{initial_manifest, main_script_name, removal_target, RemoveError};

#[test]
fn script_names() {
    assert_eq!(main_script_name("synth", true), "synth.udo");
    assert_eq!(main_script_name("synth", false), "synth.csd");
}

#[test]
fn new_project_manifest() {
    let m = initial_manifest("synth", false);
    assert_eq!(m.package.name, "synth");
    assert_eq!(m.package.version, "0.1.0");
    assert_eq!(m.package.mode, "cs-project");
    assert!(m.check_module_mode());
    assert_eq!(m.package.included, vec!["src".to_string()]);
    assert_eq!(m.main.src, "src");
    assert_eq!(m.main.csd, Some("src/synth.csd".to_string()));
    assert_eq!(m.main.udo, None);
    assert!(m.dependencies.is_empty());
    assert!(m.plugins.is_empty());
}

#[test]
fn new_module_manifest() {
    let m = initial_manifest("osc", true);
    assert_eq!(m.main.udo, Some("src/osc.udo".to_string()));
    assert_eq!(m.package.mode, "cs-module");
    assert!(m.check_module_mode());
    assert_eq!(m.main.csd, None);
    assert_eq!(m.main.orc, None);
    assert_eq!(m.main.sco, None);
}

#[test]
fn removal_targets() {
    let mut m = initial_manifest("synth", false);
    m.dependencies.insert("osc".to_string(), "1.0.0".to_string());
    assert_eq!(removal_target(&m, "rev").unwrap(), None);
    assert_eq!(removal_target(&m, "osc").unwrap(), Some("osc@1.0.0".to_string()));
    m.dependencies.insert("lfo@0.3.0".to_string(), "0.3.0".to_string());
    assert_eq!(removal_target(&m, "lfo@0.3.0").unwrap(), Some("lfo@0.3.0@0.3.0".to_string()));
    m.dependencies.insert("env@2.0.0".to_string(), "1.0.0".to_string());
    match removal_target(&m, "env@2.0.0") {
        Err(RemoveError::VersionMismatch { provided, declared }) => {
            assert_eq!(provided, "2.0.0");
            assert_eq!(declared, "1.0.0");
        },
        other => panic!("unexpected {:?}", other),
    }
}
