use microscope::sae::{ActivationType, SAEConfig};

#[test]
fn test_sae_config_fields() {
    let config = SAEConfig {
        d_in: 64,
        d_sae: 256,
        activation: ActivationType::TopK(8),
        encoder_bias: true,
        decoder_bias: false,
    };
    assert_eq!(config.d_in, 64);
    assert_eq!(config.d_sae, 256);
    assert!(matches!(config.activation, ActivationType::TopK(8)));
    assert!(config.encoder_bias);
    assert!(!config.decoder_bias);
    assert_ne!(ActivationType::ReLU, ActivationType::JumpReLU);
}
