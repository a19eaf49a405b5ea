//! Content-addressed container store with a verified binary codec.
//!
//! The crate encodes markdown into compressed, self-describing documents
//! (`Marqant`), wraps arbitrary typed payloads into versioned binary
//! containers (`M8Container`), and stores containers in a registry keyed
//! by the SHA-256 digest of their payload (`M8Nexus`).

use vstd::prelude::*;

pub mod clock;
pub mod commentary;
pub mod compress;
pub mod consent;
pub mod digest;
pub mod engine;
pub mod hex;
pub mod m8;
pub mod marqant;
pub mod nexus;
pub mod semantic;
pub mod text;
pub mod wire;

verus! {

/// The error taxonomy of the crate.
///
/// `Format` signals corrupt or foreign input: a magic mismatch, a truncated
/// buffer, an unparseable header, or a failure of the compressor.
/// `Engine` signals a failure of the external memory engine; the value under
/// construction is discarded.  A registry miss is not an error: lookups
/// return `Option`.
#[derive(Clone, Copy, Debug, PartialEq, Eq, Structural)]
pub enum M8Error {
    Format,
    Engine,
}

} // verus!
