//! Error values raised by the capture and storage engine.

use vstd::prelude::*;

verus! {

/// Failures surfaced by the capture engine. Filesystem failures belong to the
/// unverified storage backend wrapping this crate and are not represented here.
#[derive(Debug, Clone, Copy, PartialEq, Eq, Structural)]
pub enum MicroscopeError {
    /// A stored element or byte count does not match the declared shape.
    InvalidShape { expected: usize, got: usize },
    /// A layer index at or beyond the configured layer count.
    LayerNotFound { layer: usize, total: usize },
    /// No chunks are stored under the requested (layer, component) key.
    KeyNotFound { layer: usize },
    /// A chunk index at or beyond the number of chunks stored for the key.
    ChunkIndexOutOfRange { chunk_index: usize, available: usize },
}

} // verus!
