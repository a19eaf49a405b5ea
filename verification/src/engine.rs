//! The external memory engine capability.
//!
//! The engine is an opaque collaborator that stores text under numeric
//! handles and serves wave patterns for them.  Container construction
//! takes it as an injected capability, so the codec and registry logic
//! never depend on a concrete engine; a small in-memory engine is
//! provided for tests and standalone use.

use vstd::prelude::*;
use vstd::string::StringExecFns;

verus! {

/// A wave pattern: an amplitude, a frequency and a phase.
#[derive(Clone, Copy, Debug, PartialEq, Eq, Structural)]
pub struct WaveTriple {
    pub amplitude: u32,
    pub frequency: u32,
    pub phase: u32,
}

/// An internal failure of the engine.
#[derive(Clone, Copy, Debug, PartialEq, Eq, Structural)]
pub struct EngineFailure;

/// What container construction needs from a memory engine.  Nothing is
/// assumed of the results: callers state what holds whatever the engine
/// returns.  Calls carry no timeout; a slow engine stalls only the one
/// construction that called it, never the registry.
pub trait MemoryEngine {
    /// Stores a text with an importance from 0 to 9; returns its handle,
    /// or fails on an internal error.
    fn store_text(&mut self, text: &str, importance: u8) -> (r: Result<u64, EngineFailure>)
        requires
            importance <= 9,
    ;

    /// Fetches the wave pattern bound to a handle; fails when the handle
    /// is unknown.
    fn fetch_pattern(&mut self, handle: u64) -> (r: Result<WaveTriple, EngineFailure>);
}

/// A deterministic in-memory engine: handles are indices into the list
/// of stored texts.
pub struct InMemoryEngine {
    texts: Vec<String>,
}

impl InMemoryEngine {
    /// An engine with nothing stored.
    pub fn new() -> (e: InMemoryEngine) {
        InMemoryEngine { texts: Vec::new() }
    }
}

impl MemoryEngine for InMemoryEngine {
    fn store_text(&mut self, text: &str, importance: u8) -> (r: Result<u64, EngineFailure>) {
        let handle = self.texts.len() as u64;
        self.texts.push(String::from_str(text));
        Ok(handle)
    }

    fn fetch_pattern(&mut self, handle: u64) -> (r: Result<WaveTriple, EngineFailure>) {
        if handle < self.texts.len() as u64 {
            let len = self.texts[handle as usize].as_str().as_bytes().len();
            Ok(WaveTriple {
                amplitude: (len as u64 % 0x1_0000_0000) as u32,
                frequency: (handle % 0x1_0000_0000) as u32,
                phase: ((handle / 0x1_0000_0000) % 0x1_0000_0000) as u32,
            })
        } else {
            Err(EngineFailure)
        }
    }
}

} // verus!
