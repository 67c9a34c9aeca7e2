use mononoke_types::wire::{WirePath, WirePathElement};
use mononoke_types::{MPath, MPathElement};

#[test]
fn bad_path_thrift() {
    let bad_wire = WirePath(vec![WirePathElement(b"abc\0".to_vec())]);
    MPath::from_wire(bad_wire).expect_err("unexpected OK - embedded null");

    let bad_wire = WirePath(vec![WirePathElement(b"def/ghi".to_vec())]);
    MPath::from_wire(bad_wire).expect_err("unexpected OK - embedded slash");
}

#[test]
fn empty_wire_path_rejected() {
    MPath::from_wire(WirePath(Vec::new())).expect_err("unexpected OK - no elements");
}

#[test]
fn path_wire_roundtrip() {
    let p = MPath::new(b"foo/bar/baz").unwrap();
    let wire = p.clone().into_wire();
    let p2 = MPath::from_wire(wire).expect("wire round trips should always be valid");
    assert_eq!(p, p2);
}

#[test]
fn pathelement_wire_roundtrip() {
    let e = MPathElement::new(b"quux".to_vec()).unwrap();
    let wire = e.clone().into_wire();
    let e2 = MPathElement::from_wire(wire).expect("wire round trips should always be valid");
    assert_eq!(e, e2);
}
