//! Identifier types exchanged with the attention-analysis collaborator.
//!
//! Attention-pattern analysis itself works on floating-point attention
//! weights and is an external collaborator of the capture engine; only the
//! classification vocabulary it reports back lives here.

use vstd::prelude::*;

verus! {

/// Behaviors an attention head can be classified as.
#[derive(Debug, Clone, Copy, PartialEq, Eq, Hash, Structural)]
pub enum HeadType {
    /// Attends primarily to the previous token.
    PreviousToken,
    /// Attends to the beginning of the sequence.
    BeginningOfSequence,
    /// Attends uniformly across positions.
    Uniform,
    /// Copies patterns seen before (induction).
    Induction,
    /// Detects duplicated tokens.
    DuplicateToken,
    /// Moves the indirect object's name to the final position.
    NameMover,
    /// Inhibits the subject's name from being copied.
    SInhibition,
    /// Redundant name mover.
    BackupNameMover,
    /// Unclassified pattern.
    Other,
}

} // verus!
