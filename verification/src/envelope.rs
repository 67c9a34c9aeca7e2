//! The content-addressed changeset envelope: a hash-identified,
//! parent-linked record around an opaque payload, with a mutable builder
//! form, a frozen form, and byte-exact wire and blob conversions. The
//! envelope is a carrier: no field is recomputed, and whether `node_id`
//! really is the hash of `contents` is the hashing collaborator's concern,
//! by design, not an oversight.

use vstd::prelude::*;
use vstd::slice::slice_to_vec;

use crate::codec::{dec_envelope, decode_envelope, enc_envelope, encode_envelope,
    lemma_codec_roundtrip};
use crate::errors::{ErrorKind, WireDataDefect, WireStructure};
use crate::wire::{WireHash, WireNodeEnvelope, WireNodeEnvelopeView};

verus! {

/// The fixed byte length of a node hash.
pub const HASH_LEN: usize = 20;

/// A fixed-length node hash. Every value of this type holds exactly
/// `HASH_LEN` bytes; the length is checked wherever a hash is decoded.
#[derive(Debug, PartialEq, Eq, Hash)]
pub struct HgNodeHash {
    bytes: Vec<u8>,
}

impl View for HgNodeHash {
    type V = Seq<u8>;

    closed spec fn view(&self) -> Seq<u8> {
        self.bytes@
    }
}

impl Clone for HgNodeHash {
    fn clone(&self) -> (r: Self)
        ensures
            r@ == self@,
    {
        proof {
            use_type_invariant(self);
        }
        HgNodeHash { bytes: slice_to_vec(self.bytes.as_slice()) }
    }
}

impl HgNodeHash {
    #[verifier::type_invariant]
    spec fn len_inv(self) -> bool {
        self.bytes@.len() == HASH_LEN
    }

    /// Wrap bytes already known to have the hash length.
    pub fn new(bytes: Vec<u8>) -> (r: Self)
        requires
            bytes@.len() == HASH_LEN,
        ensures
            r@ == bytes@,
    {
        HgNodeHash { bytes }
    }

    /// Validate raw bytes as a hash: exactly the fixed length, or an error
    /// carrying the length that was found.
    pub fn from_bytes(bytes: Vec<u8>) -> (r: Result<Self, ErrorKind>)
        ensures
            match r {
                Ok(h) => bytes@.len() == HASH_LEN && h@ == bytes@,
                Err(e) => {
                    &&& bytes@.len() != HASH_LEN
                    &&& e matches ErrorKind::InvalidWireData(st, d) && st
                        == WireStructure::HgNodeHash && (d matches WireDataDefect::BadHashLength(
                        n,
                    ) && n == bytes@.len())
                },
            },
    {
        if bytes.len() != HASH_LEN {
            return Err(
                ErrorKind::InvalidWireData(
                    WireStructure::HgNodeHash,
                    WireDataDefect::BadHashLength(bytes.len()),
                ),
            );
        }
        Ok(HgNodeHash { bytes })
    }

    /// Encode to the wire form: the raw bytes.
    pub fn into_wire(self) -> (r: WireHash)
        ensures
            r@ == self@,
            r@.len() == HASH_LEN,
    {
        proof {
            use_type_invariant(&self);
        }
        WireHash(self.bytes)
    }

    /// Borrow the hash bytes; always exactly the fixed length.
    pub fn as_bytes(&self) -> (r: &[u8])
        ensures
            r@ == self@,
            r@.len() == HASH_LEN,
    {
        proof {
            use_type_invariant(self);
        }
        self.bytes.as_slice()
    }
}

/// The mathematical shape of an envelope: its hash, optional parents, and
/// payload bytes.
pub struct HgChangesetEnvelopeView {
    pub node_id: Seq<u8>,
    pub p1: Option<Seq<u8>>,
    pub p2: Option<Seq<u8>>,
    pub contents: Seq<u8>,
}

pub open spec fn view_opt_node_hash(o: Option<HgNodeHash>) -> Option<Seq<u8>> {
    match o {
        Some(h) => Some(h@),
        None => None,
    }
}

/// Every hash in the envelope has the fixed length; true of every envelope
/// value by the hash type's invariant.
pub open spec fn envelope_view_wf(v: HgChangesetEnvelopeView) -> bool {
    &&& v.node_id.len() == HASH_LEN
    &&& (v.p1 matches Some(h) ==> h.len() == HASH_LEN)
    &&& (v.p2 matches Some(h) ==> h.len() == HASH_LEN)
}

/// The wire shape of an envelope: the same fields, with the payload marked
/// present.
pub open spec fn wire_view_of(v: HgChangesetEnvelopeView) -> WireNodeEnvelopeView {
    WireNodeEnvelopeView { node_id: v.node_id, p1: v.p1, p2: v.p2, contents: Some(v.contents) }
}

/// Whether a wire envelope decodes: hashes of the right length wherever
/// present, and the contents field present (an empty payload is valid, an
/// absent one is not).
pub open spec fn envelope_wire_ok(v: WireNodeEnvelopeView) -> bool {
    &&& v.node_id.len() == HASH_LEN
    &&& (v.p1 matches Some(h) ==> h.len() == HASH_LEN)
    &&& (v.p2 matches Some(h) ==> h.len() == HASH_LEN)
    &&& v.contents is Some
}

/// The first defect of a wire envelope, in the order decoding checks the
/// fields, or `None` when it decodes.
pub open spec fn envelope_wire_defect(v: WireNodeEnvelopeView) -> Option<WireDataDefect> {
    if v.node_id.len() != HASH_LEN {
        Some(WireDataDefect::BadHashLength(v.node_id.len() as usize))
    } else if v.p1 matches Some(h) && h.len() != HASH_LEN {
        Some(WireDataDefect::BadHashLength(v.p1->Some_0.len() as usize))
    } else if v.p2 matches Some(h) && h.len() != HASH_LEN {
        Some(WireDataDefect::BadHashLength(v.p2->Some_0.len() as usize))
    } else if v.contents is None {
        Some(WireDataDefect::MissingContents)
    } else {
        None
    }
}

/// Wire round trip for envelopes: the wire form of any envelope (hashes of
/// the fixed length, contents present) is exactly what `from_wire` accepts,
/// and both directions keep the fields unchanged, so decoding an envelope's
/// wire form yields an envelope with the same fields.
pub proof fn lemma_envelope_wire_roundtrip(v: HgChangesetEnvelopeView)
    requires
        envelope_view_wf(v),
    ensures
        envelope_wire_ok(wire_view_of(v)),
{
}

/// Blob round trip for envelopes: the encoded blob of an envelope's wire
/// form frames back to that wire form, which then decodes as `from_wire`
/// promises, so reading back a stored envelope yields the same fields.
pub proof fn lemma_envelope_blob_roundtrip(v: HgChangesetEnvelopeView)
    requires
        envelope_view_wf(v),
        v.contents.len() <= u64::MAX,
    ensures
        dec_envelope(enc_envelope(wire_view_of(v))) == Some(wire_view_of(v)),
        envelope_wire_ok(wire_view_of(v)),
{
    lemma_codec_roundtrip(wire_view_of(v));
}

/// A mutable representation of a changeset node: the staging form in which
/// an envelope is assembled before it is frozen.
#[derive(Clone, Debug, Eq, PartialEq)]
pub struct HgChangesetEnvelopeMut {
    pub node_id: HgNodeHash,
    pub p1: Option<HgNodeHash>,
    pub p2: Option<HgNodeHash>,
    pub contents: Vec<u8>,
}

impl View for HgChangesetEnvelopeMut {
    type V = HgChangesetEnvelopeView;

    open spec fn view(&self) -> HgChangesetEnvelopeView {
        HgChangesetEnvelopeView {
            node_id: self.node_id@,
            p1: view_opt_node_hash(self.p1),
            p2: view_opt_node_hash(self.p2),
            contents: self.contents@,
        }
    }
}

impl HgChangesetEnvelopeMut {
    /// Freeze the builder into an immutable envelope. No validation is
    /// re-run: the builder's hashes are already well-formed by type.
    pub fn freeze(self) -> (r: HgChangesetEnvelope)
        ensures
            r@ == self@,
            envelope_view_wf(r@),
    {
        proof {
            use_type_invariant(&self.node_id);
            if let Some(h) = &self.p1 {
                use_type_invariant(h);
            }
            if let Some(h) = &self.p2 {
                use_type_invariant(h);
            }
        }
        HgChangesetEnvelope { inner: self }
    }
}

/// A frozen changeset envelope: immutable once published, convertible to
/// and from the wire and blob forms without loss.
#[derive(Clone, Debug, Eq, PartialEq)]
pub struct HgChangesetEnvelope {
    inner: HgChangesetEnvelopeMut,
}

impl View for HgChangesetEnvelope {
    type V = HgChangesetEnvelopeView;

    closed spec fn view(&self) -> HgChangesetEnvelopeView {
        self.inner@
    }
}

/// A serialized envelope as stored in the blob store.
#[derive(Clone, Debug, PartialEq, Eq)]
pub struct HgEnvelopeBlob(pub Vec<u8>);

impl View for HgEnvelopeBlob {
    type V = Seq<u8>;

    open spec fn view(&self) -> Seq<u8> {
        self.0@
    }
}

impl HgChangesetEnvelope {
    /// Decode a wire envelope: the node id must have the hash length, so
    /// must each parent that is present, and the contents must be present.
    /// The first violated rule is reported.
    pub fn from_wire(fe: WireNodeEnvelope) -> (r: Result<Self, ErrorKind>)
        ensures
            match r {
                Ok(e) => {
                    &&& envelope_wire_ok(fe@)
                    &&& envelope_view_wf(e@)
                    &&& e@.node_id == fe@.node_id
                    &&& e@.p1 == fe@.p1
                    &&& e@.p2 == fe@.p2
                    &&& fe@.contents == Some(e@.contents)
                },
                Err(err) => {
                    &&& !envelope_wire_ok(fe@)
                    &&& err matches ErrorKind::InvalidWireData(st, d) && st
                        == WireStructure::HgChangesetEnvelope && envelope_wire_defect(fe@)
                        == Some(d)
                },
            },
    {
        let WireNodeEnvelope { node_id, p1, p2, contents } = fe;
        if node_id.0.len() != HASH_LEN {
            return Err(
                ErrorKind::InvalidWireData(
                    WireStructure::HgChangesetEnvelope,
                    WireDataDefect::BadHashLength(node_id.0.len()),
                ),
            );
        }
        let node_id = HgNodeHash::new(node_id.0);
        let p1 = match p1 {
            None => None,
            Some(h) => {
                if h.0.len() != HASH_LEN {
                    return Err(
                        ErrorKind::InvalidWireData(
                            WireStructure::HgChangesetEnvelope,
                            WireDataDefect::BadHashLength(h.0.len()),
                        ),
                    );
                }
                Some(HgNodeHash::new(h.0))
            },
        };
        let p2 = match p2 {
            None => None,
            Some(h) => {
                if h.0.len() != HASH_LEN {
                    return Err(
                        ErrorKind::InvalidWireData(
                            WireStructure::HgChangesetEnvelope,
                            WireDataDefect::BadHashLength(h.0.len()),
                        ),
                    );
                }
                Some(HgNodeHash::new(h.0))
            },
        };
        let contents = match contents {
            None => {
                return Err(
                    ErrorKind::InvalidWireData(
                        WireStructure::HgChangesetEnvelope,
                        WireDataDefect::MissingContents,
                    ),
                );
            },
            Some(c) => c,
        };
        Ok(HgChangesetEnvelope { inner: HgChangesetEnvelopeMut { node_id, p1, p2, contents } })
    }

    /// Deserialize from a blob: the codec frames the bytes, then the wire
    /// structure is validated as in `from_wire`.
    pub fn from_blob(blob: HgEnvelopeBlob) -> (r: Result<Self, ErrorKind>)
        ensures
            match dec_envelope(blob@) {
                None => r matches Err(e) && e == ErrorKind::BlobDeserializeError(
                    WireStructure::HgChangesetEnvelope,
                ),
                Some(wv) => match r {
                    Ok(e) => {
                        &&& envelope_wire_ok(wv)
                        &&& envelope_view_wf(e@)
                        &&& e@.node_id == wv.node_id
                        &&& e@.p1 == wv.p1
                        &&& e@.p2 == wv.p2
                        &&& wv.contents == Some(e@.contents)
                    },
                    Err(err) => {
                        &&& !envelope_wire_ok(wv)
                        &&& err matches ErrorKind::InvalidWireData(st, d) && st
                            == WireStructure::HgChangesetEnvelope && envelope_wire_defect(wv)
                            == Some(d)
                    },
                },
            },
    {
        match decode_envelope(blob.0.as_slice()) {
            None => Err(ErrorKind::BlobDeserializeError(WireStructure::HgChangesetEnvelope)),
            Some(w) => Self::from_wire(w),
        }
    }

    /// The ID of this changeset as recorded. It is expected to match the
    /// hash computed from the contents, but that is enforced by the hashing
    /// collaborator, never re-verified here.
    pub fn node_id(&self) -> (r: &HgNodeHash)
        ensures
            r@ == self@.node_id,
    {
        &self.inner.node_id
    }

    /// The parent hashes of this node. The order matters: `p1` is the
    /// primary parent.
    pub fn parents(&self) -> (r: (Option<&HgNodeHash>, Option<&HgNodeHash>))
        ensures
            match r.0 {
                Some(h) => self@.p1 == Some(h@),
                None => self@.p1 is None,
            },
            match r.1 {
                Some(h) => self@.p2 == Some(h@),
                None => self@.p2 is None,
            },
    {
        (self.inner.p1.as_ref(), self.inner.p2.as_ref())
    }

    /// The changeset contents as raw bytes.
    pub fn contents(&self) -> (r: &Vec<u8>)
        ensures
            r@ == self@.contents,
    {
        &self.inner.contents
    }

    /// Thaw into the mutable representation for copy-and-modify workflows.
    pub fn into_mut(self) -> (r: HgChangesetEnvelopeMut)
        ensures
            r@ == self@,
    {
        self.inner
    }

    /// Encode to the wire form: the same fields, the payload present. The
    /// result always satisfies what `from_wire` checks, so the wire round
    /// trip gives the envelope back.
    pub fn into_wire(self) -> (r: WireNodeEnvelope)
        ensures
            r@ == wire_view_of(self@),
            envelope_wire_ok(r@),
            self@.contents.len() <= usize::MAX,
    {
        proof {
            assert(vstd::std_specs::vec::spec_vec_len(&self.inner.contents)
                == self.inner.contents@.len());
            use_type_invariant(&self.inner.node_id);
            if let Some(h) = &self.inner.p1 {
                use_type_invariant(h);
            }
            if let Some(h) = &self.inner.p2 {
                use_type_invariant(h);
            }
        }
        let HgChangesetEnvelopeMut { node_id, p1, p2, contents } = self.inner;
        let p1 = match p1 {
            Some(h) => Some(h.into_wire()),
            None => None,
        };
        let p2 = match p2 {
            Some(h) => Some(h.into_wire()),
            None => None,
        };
        WireNodeEnvelope { node_id: node_id.into_wire(), p1, p2, contents: Some(contents) }
    }

    /// Serialize into a blob. The blob frames back to exactly the wire form
    /// of this envelope, so the blob round trip gives the envelope back.
    pub fn into_blob(self) -> (r: HgEnvelopeBlob)
        ensures
            r@ == enc_envelope(wire_view_of(self@)),
            dec_envelope(r@) == Some(wire_view_of(self@)),
            envelope_wire_ok(wire_view_of(self@)),
    {
        let wire = self.into_wire();
        proof {
            assert(wire@.node_id.len() <= u64::MAX);
            assert((wire@.p1 matches Some(b) ==> b.len() <= u64::MAX));
            assert((wire@.p2 matches Some(b) ==> b.len() <= u64::MAX));
            assert((wire@.contents matches Some(b) ==> b.len() <= u64::MAX));
            lemma_codec_roundtrip(wire@);
        }
        HgEnvelopeBlob(encode_envelope(&wire))
    }
}

} // verus!
