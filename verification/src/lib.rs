//! Core data-integrity types of a content-addressed version-control store:
//! validated repository paths with byte-exact, order-preserving semantics, a
//! conflict-freedom check over sorted change sets, and a hash-identified node
//! envelope with a strict wire and blob form.

pub mod codec;
pub mod envelope;
pub mod errors;
pub mod path;
pub mod pcf;
pub mod wire;

pub use envelope::{HgChangesetEnvelope, HgChangesetEnvelopeMut, HgEnvelopeBlob, HgNodeHash};
pub use errors::{ErrorKind, InvalidPathReason, WireDataDefect, WireStructure};
pub use path::{MPath, MPathElement, RepoPath};
pub use pcf::check_pcf;
