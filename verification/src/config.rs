//! Engine-wide configuration.

use vstd::prelude::*;

verus! {

/// Configuration for the capture engine: the model's dimensions and the
/// host-side processing knobs.
#[derive(Debug, Clone)]
pub struct MicroscopeConfig {
    /// Model architecture name (llama, mistral, gpt2, …).
    pub architecture: String,
    /// Number of layers in the model.
    pub num_layers: usize,
    /// Number of attention heads.
    pub num_heads: usize,
    /// Hidden dimension size.
    pub hidden_size: usize,
    /// Whether the backend should memory-map large tensors.
    pub use_mmap: bool,
    /// Maximum batch size for parallel processing.
    pub max_batch_size: usize,
}

impl Default for MicroscopeConfig {
    /// Defaults sized for a 32-layer model with a 4096-wide hidden state.
    fn default() -> (r: MicroscopeConfig)
        ensures
            r.architecture@ == "llama"@,
            r.num_layers == 32,
            r.num_heads == 32,
            r.hidden_size == 4096,
            r.use_mmap == true,
            r.max_batch_size == 32,
    {
        MicroscopeConfig {
            architecture: "llama".to_owned(),
            num_layers: 32,
            num_heads: 32,
            hidden_size: 4096,
            use_mmap: true,
            max_batch_size: 32,
        }
    }
}

} // verus!
