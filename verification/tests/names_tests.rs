use cspm::names::{full_name, meta_file_name, parse_add_request, parse_module_request, AddRequestError, ModuleTools};

#[test]
fn parse_module_name_with_version() {
    assert_eq!(ModuleTools::parse_module_name("synth@1.0.0"), ("synth".to_string(), "1.0.0".to_string()));
}

#[test]
fn parse_module_name_without_version() {
    assert_eq!(ModuleTools::parse_module_name("synth"), ("synth".to_string(), String::new()));
}

#[test]
fn parse_module_name_drops_after_second_at() {
    assert_eq!(ModuleTools::parse_module_name("a@b@c"), ("a".to_string(), "b".to_string()));
    assert_eq!(ModuleTools::parse_module_name(""), (String::new(), String::new()));
    assert_eq!(ModuleTools::parse_module_name("@1"), (String::new(), "1".to_string()));
}

#[test]
fn full_name_round_trip() {
    let f = full_name("reverb", "2.1.3");
    assert_eq!(f, "reverb@2.1.3");
    assert_eq!(ModuleTools::parse_module_name(&f), ("reverb".to_string(), "2.1.3".to_string()));
}

#[test]
fn add_request_forms() {
    assert_eq!(parse_add_request("osc").unwrap(), ("osc".to_string(), None));
    assert_eq!(parse_add_request("osc@1.2.0").unwrap(), ("osc".to_string(), Some("1.2.0".to_string())));
    assert_eq!(parse_add_request("osc@1@2"), Err(AddRequestError::BadSyntax));
    assert_eq!(parse_add_request("osc@").unwrap(), ("osc".to_string(), Some(String::new())));
}

#[test]
fn module_request_empty_version_is_none() {
    assert_eq!(parse_module_request("osc@"), ("osc".to_string(), None));
    assert_eq!(parse_module_request("osc@0.1.0"), ("osc".to_string(), Some("0.1.0".to_string())));
}

#[test]
fn meta_file_name_form() {
    assert_eq!(meta_file_name("osc", "1.0.0"), ".osc@1.0.0_meta.json");
}
