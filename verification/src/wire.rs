//! Wire structures: the plain, unvalidated shapes in which paths, hashes and
//! node envelopes travel between the store and the structured-binary codec.
//! Decoding into the validated in-memory types happens elsewhere and is
//! all-or-nothing; these carriers perform no checks of their own.

use vstd::prelude::*;

verus! {

/// One path segment as carried on the wire: raw bytes, not yet validated.
#[derive(Clone, Debug, PartialEq, Eq)]
pub struct WirePathElement(pub Vec<u8>);

impl View for WirePathElement {
    type V = Seq<u8>;

    open spec fn view(&self) -> Seq<u8> {
        self.0@
    }
}

/// A path as carried on the wire: a sequence of raw segments.
#[derive(Clone, Debug, PartialEq, Eq)]
pub struct WirePath(pub Vec<WirePathElement>);

impl View for WirePath {
    type V = Seq<Seq<u8>>;

    open spec fn view(&self) -> Seq<Seq<u8>> {
        self.0@.map_values(|e: WirePathElement| e@)
    }
}

/// A node hash as carried on the wire: raw bytes whose length is only
/// checked when the value is decoded into an in-memory hash.
#[derive(Clone, Debug, PartialEq, Eq)]
pub struct WireHash(pub Vec<u8>);

impl View for WireHash {
    type V = Seq<u8>;

    open spec fn view(&self) -> Seq<u8> {
        self.0@
    }
}

/// A node envelope as carried on the wire. `contents` is optional here so
/// that an envelope whose payload field is entirely absent can be told apart
/// from one with an empty-but-present payload; decoding rejects the former.
#[derive(Clone, Debug, PartialEq, Eq)]
pub struct WireNodeEnvelope {
    pub node_id: WireHash,
    pub p1: Option<WireHash>,
    pub p2: Option<WireHash>,
    pub contents: Option<Vec<u8>>,
}

/// The mathematical shape of a wire envelope.
pub struct WireNodeEnvelopeView {
    pub node_id: Seq<u8>,
    pub p1: Option<Seq<u8>>,
    pub p2: Option<Seq<u8>>,
    pub contents: Option<Seq<u8>>,
}

pub open spec fn view_opt_hash(o: Option<WireHash>) -> Option<Seq<u8>> {
    match o {
        Some(h) => Some(h@),
        None => None,
    }
}

pub open spec fn view_opt_bytes(o: Option<Vec<u8>>) -> Option<Seq<u8>> {
    match o {
        Some(b) => Some(b@),
        None => None,
    }
}

impl View for WireNodeEnvelope {
    type V = WireNodeEnvelopeView;

    open spec fn view(&self) -> WireNodeEnvelopeView {
        WireNodeEnvelopeView {
            node_id: self.node_id@,
            p1: view_opt_hash(self.p1),
            p2: view_opt_hash(self.p2),
            contents: view_opt_bytes(self.contents),
        }
    }
}

} // verus!
