use cspm::path_order::{path_less, sort_entries};

#[test]
fn separator_comes_first() {
    assert!(path_less(&b"a/b".to_vec(), &b"a.b".to_vec()));
    assert!(!path_less(&b"a.b".to_vec(), &b"a/b".to_vec()));
    assert!(path_less(&b"a/c".to_vec(), &b"ab/c".to_vec()));
    assert!(path_less(&b"a".to_vec(), &b"a/b".to_vec()));
    assert!(!path_less(&b"a".to_vec(), &b"a".to_vec()));
    assert!(path_less(&b"A".to_vec(), &b"a".to_vec()));
}

#[test]
fn entries_sorted_by_path() {
    let entries = vec![
        (b"src/z.udo".to_vec(), b"1".to_vec()),
        (b"Cspm.toml".to_vec(), b"2".to_vec()),
        (b"src.bak".to_vec(), b"3".to_vec()),
        (b"src/a.udo".to_vec(), b"4".to_vec()),
    ];
    let sorted: Vec<Vec<u8>> = sort_entries(&entries).into_iter().map(|e| e.0).collect();
    assert_eq!(
        sorted,
        vec![b"Cspm.toml".to_vec(), b"src/a.udo".to_vec(), b"src/z.udo".to_vec(), b"src.bak".to_vec()]
    );
}
