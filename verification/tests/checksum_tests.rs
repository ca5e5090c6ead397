use cspm::checksum::{checksum_matches, to_hex_lower};
use cspm::names::ModuleTools;

#[test]
fn hex_encoding() {
    assert_eq!(to_hex_lower(&vec![0x00, 0x0f, 0xa5, 0xff]), "000fa5ff");
    assert_eq!(to_hex_lower(&Vec::new()), "");
}

#[test]
fn checksum_of_nothing() {
    assert_eq!(
        ModuleTools::compute_checksum(&Vec::new()),
        "e3b0c44298fc1c149afbf4c8996fb92427ae41e4649b934ca495991b7852b855"
    );
}

#[test]
fn checksum_of_files() {
    let one = vec![(b"src/a.udo".to_vec(), b"instr 1".to_vec())];
    assert_eq!(
        ModuleTools::compute_checksum(&one),
        "a28071b9ec084c3156257f95bd5fb1f2908fd9d40ab22435865522a5328f0b30"
    );
    let two = vec![(b"a".to_vec(), Vec::new()), (b"b".to_vec(), Vec::new())];
    assert_eq!(
        ModuleTools::compute_checksum(&two),
        "fb8e20fc2e4c3f248c60c39bd652f3c1347298bb977b8b4d5903b85055620603"
    );
}

#[test]
fn checksum_comparison() {
    assert!(checksum_matches("abc", "abc"));
    assert!(!checksum_matches("abc", "abd"));
}

#[test]
fn distinct_digests_distinct_checksums() {
    assert_ne!(to_hex_lower(&vec![0x01, 0x02]), to_hex_lower(&vec![0x01, 0x03]));
    assert_ne!(to_hex_lower(&vec![0x12]), to_hex_lower(&vec![0x21]));
    assert_eq!(to_hex_lower(&vec![0xab, 0xcd]), "abcd");
}

#[test]
fn checksum_is_sixty_four_hex_digits() {
    let c = ModuleTools::compute_checksum(&vec![(b"x".to_vec(), b"y".to_vec())]);
    assert_eq!(c.len(), 64);
    assert!(c.chars().all(|ch| ch.is_ascii_digit() || ('a'..='f').contains(&ch)));
    let same = ModuleTools::compute_checksum(&vec![(b"x".to_vec(), b"y".to_vec())]);
    assert_eq!(c, same);
}

#[test]
fn checksum_takes_files_in_path_order() {
    let listed = vec![(b"a.b".to_vec(), b"1".to_vec()), (b"a/b".to_vec(), b"2".to_vec())];
    let reversed = vec![(b"a/b".to_vec(), b"2".to_vec()), (b"a.b".to_vec(), b"1".to_vec())];
    assert_eq!(
        ModuleTools::compute_checksum(&listed),
        "42803ca8b49a281ad5ea0e3e128a64d3932575ae42b69c45f78377dbe9b100a8"
    );
    assert_eq!(ModuleTools::compute_checksum(&listed), ModuleTools::compute_checksum(&reversed));
    let two = vec![(b"b".to_vec(), Vec::new()), (b"a".to_vec(), Vec::new())];
    assert_eq!(
        ModuleTools::compute_checksum(&two),
        "fb8e20fc2e4c3f248c60c39bd652f3c1347298bb977b8b4d5903b85055620603"
    );
}
