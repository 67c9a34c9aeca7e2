use mononoke_types::{ErrorKind, InvalidPathReason, MPath, MPathElement};

#[test]
fn path_make() {
    let path = MPath::new(b"1234abc");
    assert!(MPath::new(b"1234abc").is_ok());
    assert_eq!(path.unwrap().to_vec().len(), 7);
}

#[test]
fn empty_paths() {
    fn assert_empty(path: &str) {
        MPath::new(path.as_bytes()).expect_err(&format!(
            "unexpected OK - path '{}' is logically empty",
            path,
        ));
    }
    assert_empty("");
    assert_empty("/");
    assert_empty("//");
    assert_empty("///");
    assert_empty("////");
}

#[test]
fn components() {
    let foo = MPath::new(b"foo").unwrap();
    let foo_bar1 = MPath::new(b"foo/bar1").unwrap();
    let foo_bar12 = MPath::new(b"foo/bar12").unwrap();
    let baz = MPath::new(b"baz").unwrap();

    assert_eq!(foo.common_components(foo.elements()), 1);
    assert_eq!(foo.common_components(foo_bar1.elements()), 1);
    assert_eq!(foo.common_components(foo_bar12.elements()), 1);
    assert_eq!(foo_bar1.common_components(foo_bar1.elements()), 2);
    assert_eq!(foo.common_components(baz.elements()), 0);
    assert_eq!(foo.common_components(&MPath::iter_opt(None)), 0);

    assert_eq!(foo_bar1.take_prefix_components(0).unwrap(), None);
    assert_eq!(
        foo_bar1.take_prefix_components(1).unwrap(),
        Some(foo.clone())
    );
    assert_eq!(
        foo_bar1.take_prefix_components(2).unwrap(),
        Some(foo_bar1.clone())
    );
    foo_bar1
        .take_prefix_components(3)
        .expect_err("unexpected OK - too many components");
}

#[test]
fn bad_path() {
    assert!(MPath::new(b"\0").is_err());
}

#[test]
fn bad_path2() {
    assert!(MPath::new(b"abc\0").is_err());
}

#[test]
fn bad_path3() {
    assert!(MPath::new(b"ab\0cde").is_err());
}

#[test]
fn path_cmp() {
    let a = MPath::new(b"a").unwrap();
    let b = MPath::new(b"b").unwrap();

    assert!(a < b);
    assert!(a == a);
    assert!(b == b);
    assert!(a <= a);
    assert!(a <= b);
}

#[test]
fn bad_path_byte_one() {
    assert!(MPath::new(b"ab\x01c").is_err());
    assert_eq!(
        MPath::new(b"ab\x01c").unwrap_err(),
        ErrorKind::InvalidPath(b"ab\x01c".to_vec(), InvalidPathReason::ByteValueOne)
    );
}

#[test]
fn bad_path_newline() {
    assert!(MPath::new(b"ab\nc").is_err());
    assert_eq!(
        MPath::new(b"ab\nc").unwrap_err(),
        ErrorKind::InvalidPath(b"ab\nc".to_vec(), InvalidPathReason::NewlineByte)
    );
}

#[test]
fn bad_element() {
    assert_eq!(
        MPathElement::new(Vec::new()).unwrap_err(),
        ErrorKind::InvalidPath(Vec::new(), InvalidPathReason::EmptyPathElement)
    );
    assert_eq!(
        MPathElement::new(b"a/b".to_vec()).unwrap_err(),
        ErrorKind::InvalidPath(b"a/b".to_vec(), InvalidPathReason::SlashInPathElement)
    );
    assert_eq!(
        MPathElement::new(b"a\0b".to_vec()).unwrap_err(),
        ErrorKind::InvalidPath(b"a\0b".to_vec(), InvalidPathReason::NulByte)
    );
    assert!(MPathElement::new(b"ab".to_vec()).is_ok());
}

#[test]
fn canonical_idempotent() {
    // Duplicate, leading and trailing separators collapse; component
    // content is preserved; re-parsing the canonical bytes is a fixpoint.
    let messy = MPath::new(b"//foo///bar/").unwrap();
    assert_eq!(messy.to_vec(), b"foo/bar".to_vec());
    let again = MPath::new(&messy.to_vec()).unwrap();
    assert_eq!(messy, again);
    assert_eq!(again.to_vec(), b"foo/bar".to_vec());
}

#[test]
fn path_len_matches_canonical() {
    let p = MPath::new(b"foo/bar1").unwrap();
    assert_eq!(p.len(), 8);
    assert_eq!(p.len(), p.to_vec().len());
    let q = MPath::new(b"//a//b//").unwrap();
    assert_eq!(q.len(), q.to_vec().len());
    assert_eq!(q.len(), 3);
}

#[test]
fn prefix_relation() {
    let foo = MPath::new(b"foo").unwrap();
    let foo_bar = MPath::new(b"foo/bar").unwrap();
    let foo1 = MPath::new(b"foo1").unwrap();
    assert!(foo.is_prefix_of(&foo_bar));
    assert!(!foo.is_prefix_of(&foo1));
    assert!(foo.is_prefix_of(&foo));
    assert!(!foo_bar.is_prefix_of(&foo));
}

#[test]
fn too_many_prefix_components_error() {
    let p = MPath::new(b"foo/bar").unwrap();
    assert_eq!(
        p.take_prefix_components(5).unwrap_err(),
        ErrorKind::TooManyPrefixComponents(5, 2)
    );
}

#[test]
fn split_dirname_and_basename() {
    let p = MPath::new(b"a/b/c").unwrap();
    assert_eq!(p.basename().as_bytes(), b"c");
    let (dir, base) = p.split_dirname();
    assert_eq!(base.as_bytes(), b"c");
    assert_eq!(dir, Some(MPath::new(b"a/b").unwrap()));
    let single = MPath::new(b"a").unwrap();
    let (dir, base) = single.split_dirname();
    assert_eq!(base.as_bytes(), b"a");
    assert_eq!(dir, None);
}

#[test]
fn join_paths() {
    let p = MPath::new(b"a/b").unwrap();
    let more = MPath::new(b"c/d").unwrap();
    let joined = p.join(more.elements());
    assert_eq!(joined, MPath::new(b"a/b/c/d").unwrap());

    let el = MPathElement::new(b"e".to_vec()).unwrap();
    assert_eq!(p.join_element(Some(&el)), MPath::new(b"a/b/e").unwrap());
    assert_eq!(p.join_element(None), p);

    assert_eq!(
        MPath::join_opt(Some(&p), more.elements()),
        Some(MPath::new(b"a/b/c/d").unwrap())
    );
    assert_eq!(MPath::join_opt(None, &Vec::new()), None);
    assert_eq!(
        MPath::join_opt(None, more.elements()),
        Some(more.clone())
    );
    assert_eq!(
        MPath::join_opt_element(None, &el),
        MPath::new(b"e").unwrap()
    );
    assert_eq!(
        MPath::join_element_opt(Some(&p), None),
        Some(p.clone())
    );
    assert_eq!(MPath::join_element_opt(None, None), None);
    assert_eq!(
        MPath::join_element_opt(None, Some(&el)),
        Some(MPath::new(b"e").unwrap())
    );
}

#[test]
fn element_extend() {
    let mut el = MPathElement::new(b"ab".to_vec()).unwrap();
    el.extend(b"cd");
    assert_eq!(el.as_bytes(), b"abcd");
    assert_eq!(el.to_bytes(), b"abcd".to_vec());
    assert_eq!(el.len(), 4);
}

#[test]
fn iter_opt_elements() {
    let p = MPath::new(b"x/y").unwrap();
    let els = MPath::iter_opt(Some(&p));
    assert_eq!(els.len(), 2);
    assert_eq!(els[0].as_bytes(), b"x");
    assert_eq!(els[1].as_bytes(), b"y");
    assert_eq!(MPath::into_iter_opt(Some(p)).len(), 2);
    assert_eq!(MPath::into_iter_opt(None).len(), 0);
    assert_eq!(p_num(), 2);
}

fn p_num() -> usize {
    MPath::new(b"x/y").unwrap().num_components()
}

#[test]
fn pel_builds_first_element() {
    let el = mononoke_types::path::pel("foo");
    assert_eq!(el.as_bytes(), b"foo");
    let el2 = mononoke_types::path::pel("bar/baz");
    assert_eq!(el2.as_bytes(), b"bar");
}
