use cspm::gitignore::{
    check_gitignore, gitignore_additions, gitignore_status, gitignore_with_additions, text_has_line,
    GitignoreError,
    GitignoreStatus,
};

#[test]
fn lines_are_trimmed() {
    assert!(text_has_line("target\n  cs_modules  \n", "cs_modules"));
    assert!(text_has_line("a\r\ncs_modules\r\n", "cs_modules"));
    assert!(!text_has_line("cs_modules_old\n", "cs_modules"));
    assert!(!text_has_line("", "cs_modules"));
}

#[test]
fn status_of_text() {
    assert_eq!(
        gitignore_status("/cs_modules\n.config.toml\n"),
        GitignoreStatus { has_modules: true, has_config: true }
    );
    assert_eq!(gitignore_status("target\n"), GitignoreStatus { has_modules: false, has_config: false });
}

#[test]
fn checking_gitignore() {
    assert_eq!(
        check_gitignore(None, true, true),
        Err(GitignoreError { missing_file: true, modules_not_ignored: false, config_not_ignored: false })
    );
    assert_eq!(check_gitignore(Some("cs_modules\n.config.toml\n"), true, true), Ok(()));
    assert_eq!(
        check_gitignore(Some("cs_modules\n"), true, true),
        Err(GitignoreError { missing_file: false, modules_not_ignored: false, config_not_ignored: true })
    );
    assert_eq!(check_gitignore(Some("cs_modules\n"), true, false), Ok(()));
    assert_eq!(check_gitignore(Some(""), false, false), Ok(()));
}

#[test]
fn lines_to_append() {
    let none = GitignoreStatus { has_modules: false, has_config: false };
    assert_eq!(gitignore_additions(none, true, true), vec!["cs_modules".to_string(), ".config.toml".to_string()]);
    assert_eq!(gitignore_additions(none, false, true), vec![".config.toml".to_string()]);
    let both = GitignoreStatus { has_modules: true, has_config: true };
    assert!(gitignore_additions(both, true, true).is_empty());
}

#[test]
fn appended_line_is_listed() {
    let text = "target\n".to_string() + "cs_modules" + "\n";
    assert!(text_has_line(&text, "cs_modules"));
    let joined = "target".to_string() + "cs_modules" + "\n";
    assert!(!text_has_line(&joined, "cs_modules"));
}

#[test]
fn appending_entries() {
    let adds = vec!["cs_modules".to_string(), ".config.toml".to_string()];
    assert_eq!(gitignore_with_additions("target", &adds), "target\ncs_modules\n.config.toml\n");
    assert_eq!(gitignore_with_additions("target\n", &adds), "target\ncs_modules\n.config.toml\n");
    assert_eq!(gitignore_with_additions("", &adds), "cs_modules\n.config.toml\n");
    assert_eq!(gitignore_with_additions("target", &Vec::new()), "target");
    let joined = gitignore_with_additions("target", &adds);
    assert!(text_has_line(&joined, "target"));
    assert!(text_has_line(&joined, "cs_modules"));
    assert!(text_has_line(&joined, ".config.toml"));
}
