use cspm::csound::csound_version_from_output;

#[test]
fn version_on_stdout() {
    assert_eq!(
        csound_version_from_output("Csound version 6.18.1 (double samples) Nov 2023\n", ""),
        Some("6.18.1".to_string())
    );
}

#[test]
fn version_on_stderr() {
    assert_eq!(
        csound_version_from_output("", "--Csound version 7.0 (beta)\n"),
        Some("7.0".to_string())
    );
}

#[test]
fn no_version() {
    assert_eq!(csound_version_from_output("no csound here", ""), None);
}
