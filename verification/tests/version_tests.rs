use cspm::version::{parse_u32, Version, VersionError, VersionStatus};

#[test]
fn parse_plain_version() {
    let v = Version::parse("1.2.3").unwrap();
    assert_eq!(v, Version { major: 1, minor: 2, patch: 3 });
}

#[test]
fn parse_ignores_extra_components() {
    let v = Version::parse("4.5.6.7").unwrap();
    assert_eq!(v, Version { major: 4, minor: 5, patch: 6 });
}

#[test]
fn parse_accepts_plus_sign_like_u32_from_str() {
    let v = Version::parse("+1.0.2").unwrap();
    assert_eq!(v, Version { major: 1, minor: 0, patch: 2 });
}

#[test]
fn parse_rejects_semantic_suffix() {
    assert_eq!(Version::parse("1.2.3-beta"), Err(VersionError::InvalidFormat));
}

#[test]
fn parse_rejects_empty_and_letters() {
    assert_eq!(Version::parse(""), Err(VersionError::InvalidFormat));
    assert_eq!(Version::parse("a.b"), Err(VersionError::InvalidFormat));
    assert_eq!(Version::parse("1..2"), Err(VersionError::InvalidFormat));
}

#[test]
fn parse_rejects_overflow() {
    assert_eq!(Version::parse("4294967296.0.0"), Err(VersionError::InvalidFormat));
    assert_eq!(Version::parse("4294967295.0.0").unwrap().major, 4294967295);
}

#[test]
fn parse_defined_only_without_short_numeric_versions() {
    assert!(!Version::is_parse_defined("1.2"));
    assert!(!Version::is_parse_defined("7"));
    assert!(Version::is_parse_defined("1.x"));
    assert!(Version::is_parse_defined("1.2.3"));
    assert!(Version::is_parse_defined(""));
}

#[test]
fn parse_u32_cases() {
    assert_eq!(parse_u32("0"), Some(0));
    assert_eq!(parse_u32("007"), Some(7));
    assert_eq!(parse_u32("+"), None);
    assert_eq!(parse_u32("-1"), None);
    assert_eq!(parse_u32(" 1"), None);
    assert_eq!(parse_u32("4294967295"), Some(u32::MAX));
    assert_eq!(parse_u32("99999999999999999999"), None);
}

#[test]
fn compare_orders_by_major_minor_patch() {
    let a = Version { major: 1, minor: 2, patch: 3 };
    let b = Version { major: 1, minor: 3, patch: 0 };
    let c = Version { major: 2, minor: 0, patch: 0 };
    assert_eq!(a.compare(&b), VersionStatus::Old);
    assert_eq!(b.compare(&a), VersionStatus::Young);
    assert_eq!(c.compare(&b), VersionStatus::Young);
    assert_eq!(a.compare(&a), VersionStatus::Same);
    let d = Version { major: 1, minor: 2, patch: 4 };
    assert_eq!(d.compare(&a), VersionStatus::Young);
}

#[test]
fn compare_antisymmetric_and_transitive_on_values() {
    let a = Version { major: 0, minor: 9, patch: 9 };
    let b = Version { major: 1, minor: 0, patch: 0 };
    let c = Version { major: 1, minor: 0, patch: 1 };
    assert_eq!(c.compare(&b), VersionStatus::Young);
    assert_eq!(b.compare(&a), VersionStatus::Young);
    assert_eq!(c.compare(&a), VersionStatus::Young);
    assert_eq!(a.compare(&c), VersionStatus::Old);
}
