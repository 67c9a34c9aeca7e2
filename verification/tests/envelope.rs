use mononoke_types::wire::{WireHash, WireNodeEnvelope};
use mononoke_types::{
    ErrorKind, HgChangesetEnvelope, HgChangesetEnvelopeMut, HgEnvelopeBlob, HgNodeHash,
    WireDataDefect, WireStructure,
};

fn sample_envelope() -> HgChangesetEnvelope {
    HgChangesetEnvelopeMut {
        node_id: HgNodeHash::from_bytes(vec![7; 20]).unwrap(),
        p1: Some(HgNodeHash::from_bytes(vec![1; 20]).unwrap()),
        p2: None,
        contents: b"changeset payload".to_vec(),
    }
    .freeze()
}

#[test]
fn bad_thrift() {
    let mut wire_ce = WireNodeEnvelope {
        node_id: WireHash(vec![1; 20]),
        p1: Some(WireHash(vec![2; 20])),
        p2: None,
        // contents must be present
        contents: None,
    };

    HgChangesetEnvelope::from_wire(wire_ce.clone())
        .expect_err("unexpected OK -- missing contents");

    wire_ce.contents = Some(b"abc".to_vec());
    wire_ce.node_id = WireHash(vec![1; 19]);

    HgChangesetEnvelope::from_wire(wire_ce).expect_err("unexpected OK -- wrong hash length");
}

#[test]
fn missing_contents_error_is_distinct() {
    let wire_ce = WireNodeEnvelope {
        node_id: WireHash(vec![1; 20]),
        p1: None,
        p2: None,
        contents: None,
    };
    assert_eq!(
        HgChangesetEnvelope::from_wire(wire_ce).unwrap_err(),
        ErrorKind::InvalidWireData(
            WireStructure::HgChangesetEnvelope,
            WireDataDefect::MissingContents
        )
    );
    // An empty-but-present payload is valid.
    let wire_ce = WireNodeEnvelope {
        node_id: WireHash(vec![1; 20]),
        p1: None,
        p2: None,
        contents: Some(Vec::new()),
    };
    let e = HgChangesetEnvelope::from_wire(wire_ce).unwrap();
    assert_eq!(e.contents().len(), 0);
}

#[test]
fn bad_parent_hash_length() {
    let wire_ce = WireNodeEnvelope {
        node_id: WireHash(vec![1; 20]),
        p1: Some(WireHash(vec![2; 21])),
        p2: None,
        contents: Some(b"x".to_vec()),
    };
    assert_eq!(
        HgChangesetEnvelope::from_wire(wire_ce).unwrap_err(),
        ErrorKind::InvalidWireData(
            WireStructure::HgChangesetEnvelope,
            WireDataDefect::BadHashLength(21)
        )
    );
}

#[test]
fn bad_hash_from_bytes() {
    assert_eq!(
        HgNodeHash::from_bytes(vec![3; 19]).unwrap_err(),
        ErrorKind::InvalidWireData(WireStructure::HgNodeHash, WireDataDefect::BadHashLength(19))
    );
    assert_eq!(HgNodeHash::from_bytes(vec![3; 20]).unwrap().as_bytes(), &[3u8; 20][..]);
}

#[test]
fn thrift_roundtrip() {
    let ce = sample_envelope();
    let wire_ce = ce.clone().into_wire();
    let ce2 = HgChangesetEnvelope::from_wire(wire_ce)
        .expect("wire round trips should always be valid");
    assert_eq!(ce, ce2);
}

#[test]
fn blob_roundtrip() {
    let ce = sample_envelope();
    let blob = ce.clone().into_blob();
    let ce2 = HgChangesetEnvelope::from_blob(blob)
        .expect("blob round trips should always be valid");
    assert_eq!(ce, ce2);
}

#[test]
fn blob_garbage_rejected() {
    HgChangesetEnvelope::from_blob(HgEnvelopeBlob(vec![9, 9, 9]))
        .expect_err("unexpected OK -- not a framed envelope");
    assert_eq!(
        HgChangesetEnvelope::from_blob(HgEnvelopeBlob(Vec::new())).unwrap_err(),
        ErrorKind::BlobDeserializeError(WireStructure::HgChangesetEnvelope)
    );
    // Trailing bytes after a well-formed frame are rejected too.
    let mut bytes = sample_envelope().into_blob().0;
    bytes.push(0);
    assert_eq!(
        HgChangesetEnvelope::from_blob(HgEnvelopeBlob(bytes)).unwrap_err(),
        ErrorKind::BlobDeserializeError(WireStructure::HgChangesetEnvelope)
    );
}

#[test]
fn envelope_accessors() {
    let ce = sample_envelope();
    assert_eq!(ce.node_id().as_bytes(), &[7u8; 20][..]);
    let (p1, p2) = ce.parents();
    assert_eq!(p1.map(|h| h.as_bytes().to_vec()), Some(vec![1; 20]));
    assert!(p2.is_none());
    assert_eq!(ce.contents(), &b"changeset payload".to_vec());

    let thawed = ce.clone().into_mut();
    assert_eq!(thawed.contents, b"changeset payload".to_vec());
    let refrozen = thawed.freeze();
    assert_eq!(ce, refrozen);
}
