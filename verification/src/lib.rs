//! Activation capture and storage engine for transformer interpretability.
//!
//! The crate records intermediate tensors produced while a network processes
//! a sequence and keeps them available for later analysis under a memory
//! budget:
//!
//! - [`activation::ActivationTracer`]: the session-scoped recorder that
//!   accumulates tensors for one forward pass, gated by an idle/active state
//!   and a per-layer validity check.
//! - [`streaming::ActivationStorage`]: the append-only chunked tensor store,
//!   one byte stream per (layer, component) key, with an in-memory metadata
//!   index mapping chunk index to byte offset, size, and shape.
//! - [`streaming::ActivationRingBuffer`]: the fixed-capacity circular buffer
//!   for sliding-window access to the most recent tensors of one key.
//! - [`streaming::MemoryEstimator`]: the advisor that picks a capture
//!   strategy from the model's dimensions and a memory limit.
//!
//! Tensor elements are carried as the bit patterns of 32-bit floats, one
//! `u32` word per element, so storage and retrieval are bit-exact and need no
//! numeric reasoning; the unverified host boundary converts between `f32`
//! buffers and these words, mirrors the store's byte streams to disk, and
//! (de)serializes traces. Attention-pattern analysis, circuit discovery,
//! causal interventions, sparse-autoencoder work and host-language bindings
//! are external collaborators; only the identifier types they exchange with
//! the capture engine live here.

pub mod activation;
pub mod attention;
pub mod circuit;
pub mod config;
pub mod decimal;
pub mod errors;
pub mod hooks;
pub mod sae;
pub mod streaming;
pub mod tensor;

pub use config::MicroscopeConfig;
pub use errors::MicroscopeError;
