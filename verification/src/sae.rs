//! Configuration types exchanged with the sparse-autoencoder collaborator.
//!
//! Encoding and decoding themselves are floating-point matrix work and live
//! with the external collaborator; only the configuration vocabulary it
//! shares with the capture engine lives here.

use vstd::prelude::*;

verus! {

/// Activation function of a sparse autoencoder.
#[derive(Debug, Clone, Copy, PartialEq, Eq)]
pub enum ActivationType {
    /// Rectified linear activation.
    ReLU,
    /// Keep only the top `k` activations per position.
    TopK(usize),
    /// Rectified linear activation with a jump threshold.
    JumpReLU,
}

/// Configuration of a sparse autoencoder.
#[derive(Debug, Clone)]
pub struct SAEConfig {
    /// Input dimension (the model's hidden size).
    pub d_in: usize,
    /// Feature dimension (number of autoencoder features).
    pub d_sae: usize,
    /// Activation function type.
    pub activation: ActivationType,
    /// Whether the encoder has a bias.
    pub encoder_bias: bool,
    /// Whether the decoder has a bias.
    pub decoder_bias: bool,
}

} // verus!
