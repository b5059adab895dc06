use microscope::config::MicroscopeConfig;
use microscope::streaming::{CaptureStrategy, MemoryEstimator, StreamingConfig};

#[test]
fn test_memory_estimator() {
    // Small model should fit in memory: the estimate at batch 1 and
    // sequence length 1024 is 113,246,208 bytes, under the 4 GiB limit.
    let strategy = MemoryEstimator::suggest_strategy(
        12, // layers
        768, // hidden
        4 * 1024 * 1024 * 1024, // 4GB
    );
    assert_eq!(strategy, CaptureStrategy::InMemory);

    // Large model: the estimate is 8,053,063,680 bytes — above the 4 GiB
    // limit but below four times it, so key-layer capture is advised.
    let strategy = MemoryEstimator::suggest_strategy(
        80, // layers (70B model)
        8192, // hidden
        4 * 1024 * 1024 * 1024, // 4GB
    );
    assert_eq!(strategy, CaptureStrategy::SelectiveLayers(vec![0, 1, 39, 40, 41, 78, 79]));

    // The same model against a 1 GiB budget overshoots even four times the
    // limit and must stream to disk.
    let strategy = MemoryEstimator::suggest_strategy(80, 8192, 1024 * 1024 * 1024);
    assert_eq!(strategy, CaptureStrategy::Streaming);
}

#[test]
fn test_estimate_formula_exact_values() {
    // 12 layers * 3 components * 1 * 1024 * 768 * 4 bytes.
    assert_eq!(MemoryEstimator::estimate_full_capture(12, 768, 1, 1024), 113_246_208);
    assert_eq!(MemoryEstimator::estimate_full_capture(1, 1, 1, 1), 12);
    assert_eq!(MemoryEstimator::estimate_full_capture(0, 768, 1, 1024), 0);
    assert_eq!(MemoryEstimator::estimate_full_capture(12, 0, 4, 1024), 0);
}

#[test]
fn test_selective_strategy_in_middle_band() {
    // The estimate for (12, 768) at batch 1, sequence 1024 is 113246208
    // bytes; a limit of half that puts the model in the selective band.
    let strategy = MemoryEstimator::suggest_strategy(12, 768, 56_623_104);
    assert_eq!(strategy, CaptureStrategy::SelectiveLayers(vec![0, 1, 5, 6, 7, 10, 11]));
}

#[test]
fn test_key_layers_clips_and_deduplicates() {
    assert_eq!(MemoryEstimator::key_layers(0), Vec::<usize>::new());
    assert_eq!(MemoryEstimator::key_layers(1), vec![0]);
    assert_eq!(MemoryEstimator::key_layers(2), vec![0, 1]);
    assert_eq!(MemoryEstimator::key_layers(3), vec![0, 1, 2]);
    assert_eq!(MemoryEstimator::key_layers(6), vec![0, 1, 2, 3, 4, 5]);
    assert_eq!(MemoryEstimator::key_layers(12), vec![0, 1, 5, 6, 7, 10, 11]);
    assert_eq!(MemoryEstimator::key_layers(80), vec![0, 1, 39, 40, 41, 78, 79]);
}

#[test]
fn test_selective_config() {
    let config = StreamingConfig::selective(
        "/tmp/microscope_strategy_tests".to_string(),
        vec![0, 5, 10],
    );

    assert_eq!(config.capture_layers, vec![0, 5, 10]);
}

#[test]
fn test_for_large_model_config() {
    let config = StreamingConfig::for_large_model("/tmp/microscope_strategy_tests".to_string());
    assert_eq!(config.memory_limit_bytes, 8 * 1024 * 1024 * 1024);
    assert_eq!(config.capture_components, vec!["residual".to_string()]);
    assert!(config.capture_layers.is_empty());
    assert_eq!(config.ring_buffer_size, 100);
}

#[test]
fn test_streaming_config_default() {
    let config = StreamingConfig::default();
    assert_eq!(config.memory_limit_bytes, 4 * 1024 * 1024 * 1024);
    assert_eq!(
        config.capture_components,
        vec!["residual".to_string(), "attn_out".to_string(), "mlp_out".to_string()]
    );
    assert!(config.capture_layers.is_empty());
    assert_eq!(config.ring_buffer_size, 1000);
    assert!(config.use_mmap);
}

#[test]
fn test_default_config() {
    let config = MicroscopeConfig::default();
    assert_eq!(config.num_layers, 32);
    assert!(config.use_mmap);
}
