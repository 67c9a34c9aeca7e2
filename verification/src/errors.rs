//! The error taxonomy shared by the path model and the node envelope. All
//! errors here are deterministic validation failures returned to the
//! immediate caller; nothing is retried and no partial result is produced.

use vstd::prelude::*;

use crate::path::MPath;

verus! {

/// Why a raw byte string was rejected as a path or as a path element.
#[derive(Clone, Copy, Debug, PartialEq, Eq)]
pub enum InvalidPathReason {
    /// A path element must not be empty.
    EmptyPathElement,
    /// A path must keep at least one component once empty segments are
    /// dropped, so the empty string or a string of separators is rejected.
    EmptyPath,
    /// NUL is reserved as an end-of-field marker elsewhere in the system.
    NulByte,
    /// Byte value 1 is reserved as a key/value separator in adjacent
    /// move-metadata encodings.
    ByteValueOne,
    /// The separator may split a raw path but never sit inside an element.
    SlashInPathElement,
    /// Newline is reserved as a record separator in adjacent encodings.
    NewlineByte,
}

/// Which wire structure a decode failure refers to.
#[derive(Clone, Copy, Debug, PartialEq, Eq)]
pub enum WireStructure {
    MPathElement,
    MPath,
    HgNodeHash,
    HgChangesetEnvelope,
}

/// What was wrong with a decoded wire structure.
#[derive(Clone, Debug, PartialEq, Eq)]
pub enum WireDataDefect {
    /// A wire path element failed validation; carries the raw element bytes
    /// and the rule they broke.
    BadPathElement(Vec<u8>, InvalidPathReason),
    /// A wire path carried no elements at all.
    EmptyPath,
    /// A hash field did not have exactly the fixed hash length; carries the
    /// length that was found.
    BadHashLength(usize),
    /// The contents field was entirely absent (an empty-but-present payload
    /// is valid; a missing one is not).
    MissingContents,
}

/// The typed failures of this crate.
#[derive(Clone, Debug, PartialEq, Eq)]
pub enum ErrorKind {
    /// Raw bytes were rejected as a path or path element; carries the
    /// offending input and the rule it broke.
    InvalidPath(Vec<u8>, InvalidPathReason),
    /// A wire structure decoded into a value violating a core invariant.
    InvalidWireData(WireStructure, WireDataDefect),
    /// The binary codec could not frame the blob bytes at all.
    BlobDeserializeError(WireStructure),
    /// A changed path is a component-wise prefix of a later path in the same
    /// change set; carries the ancestor and the descendant.
    NotPathConflictFree(MPath, MPath),
    /// More leading components were requested than the path has; carries the
    /// requested and the available count.
    TooManyPrefixComponents(usize, usize),
}

} // verus!
