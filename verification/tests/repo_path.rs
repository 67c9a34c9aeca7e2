use mononoke_types::{MPath, RepoPath};

#[test]
fn repo_path_make() {
    let path = MPath::new(b"abc").unwrap();
    assert_eq!(
        RepoPath::dir(&path.to_vec()).unwrap(),
        RepoPath::dir(b"abc").unwrap()
    );
    assert_ne!(
        RepoPath::dir(&path.to_vec()).unwrap(),
        RepoPath::file(b"abc").unwrap()
    );
}

#[test]
fn repo_path_kinds() {
    let root = RepoPath::root();
    let dir = RepoPath::dir(b"a/b").unwrap();
    let file = RepoPath::file(b"a/b/c").unwrap();

    assert!(root.is_root() && !root.is_dir() && !root.is_file() && root.is_tree());
    assert!(!dir.is_root() && dir.is_dir() && !dir.is_file() && dir.is_tree());
    assert!(!file.is_root() && !file.is_dir() && file.is_file() && !file.is_tree());

    assert_eq!(root.len(), 0);
    assert_eq!(dir.len(), 3);
    assert_eq!(file.len(), 5);

    assert_eq!(root.mpath(), None);
    assert_eq!(dir.mpath(), Some(&MPath::new(b"a/b").unwrap()));
    assert_eq!(root.into_mpath(), None);
    assert_eq!(file.into_mpath(), Some(MPath::new(b"a/b/c").unwrap()));
}

#[test]
fn repo_path_rejects_invalid() {
    assert!(RepoPath::dir(b"").is_err());
    assert!(RepoPath::file(b"//").is_err());
    assert!(RepoPath::dir(b"a\0b").is_err());
}
