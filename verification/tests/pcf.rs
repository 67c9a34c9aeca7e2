use mononoke_types::{check_pcf, ErrorKind, MPath};

fn check_pcf_paths(paths: Vec<(&str, bool)>) -> Result<(), ErrorKind> {
    let mut paths: Vec<(MPath, bool)> = paths
        .into_iter()
        .map(|(path, is_changed)| {
            (
                MPath::new(path.as_bytes()).expect("invalid input path"),
                is_changed,
            )
        })
        .collect();
    // The input calls for a *sorted* list -- this is important.
    paths.sort_unstable();
    check_pcf(&paths)
}

#[test]
fn pcf() {
    check_pcf_paths(vec![("foo", true), ("bar", true)])
        .expect("unexpected Err - no directories");
    check_pcf_paths(vec![("foo", true), ("foo/bar", true)])
        .expect_err("unexpected OK - foo is a prefix of foo/bar");
    check_pcf_paths(vec![("foo", false), ("foo/bar", true)])
        .expect("unexpected Err - foo is a prefix of foo/bar but is_changed is false");
    check_pcf_paths(vec![("foo", true), ("foo/bar", false)])
        .expect_err("unexpected OK - foo/bar's is_changed state does not matter");
    check_pcf_paths(vec![("foo", true), ("foo1", true)])
        .expect("unexpected Err - foo is not a path prefix of foo1");
    check_pcf_paths(vec![])
        .expect("unexpected Err - empty path list has no prefixes");
    // '/' is ASCII 0x2f
    check_pcf_paths(vec![
        ("foo/bar", true),
        ("foo/bar\x2e", true),
        ("foo/bar/baz", true),
        ("foo/bar\x30", true),
    ])
    .expect_err("unexpected OK - other paths and prefixes");
}

#[test]
fn pcf_error_names_both_paths() {
    let err = check_pcf_paths(vec![("foo", true), ("foo/bar", true)]).unwrap_err();
    assert_eq!(
        err,
        ErrorKind::NotPathConflictFree(
            MPath::new(b"foo").unwrap(),
            MPath::new(b"foo/bar").unwrap()
        )
    );
}
