use microscope::errors::MicroscopeError;
use microscope::streaming::{ActivationStorage, StreamingConfig};
use microscope::tensor::Tensor;

fn test_config(layers: Vec<usize>, components: Vec<&str>) -> StreamingConfig {
    let mut config = StreamingConfig::default();
    config.storage_dir = "/tmp/microscope_storage_tests".to_string();
    config.capture_layers = layers;
    config.capture_components = components.into_iter().map(|s| s.to_string()).collect();
    config
}

fn filled(b: usize, s: usize, h: usize, f: impl Fn(usize, usize, usize) -> f32) -> Tensor {
    let mut data: Vec<u32> = Vec::new();
    for bi in 0..b {
        for si in 0..s {
            for hi in 0..h {
                data.push(f(bi, si, hi).to_bits());
            }
        }
    }
    Tensor::new(vec![b, s, h], data).unwrap()
}

#[test]
fn test_storage_creation() {
    let mut config = StreamingConfig::default();
    config.storage_dir = "/tmp/microscope_storage_tests".to_string();

    let storage = ActivationStorage::new(config);
    assert!(storage.available_layers().is_empty());
}

#[test]
fn test_store_and_load() {
    let config = test_config(vec![0], vec!["residual"]);
    let mut storage = ActivationStorage::new(config);

    let data = filled(1, 10, 64, |b, s, h| (b + s + h) as f32);
    storage.store(0, "residual", &data, (0, 10)).unwrap();
    storage.flush().unwrap();

    let loaded = storage.load(0, "residual", 0).unwrap();
    assert_eq!(loaded.shape, data.shape);
    assert_eq!(loaded.data[0], data.data[0]);
    // Round-trip durability: the loaded chunk is bit-identical.
    assert_eq!(loaded.data, data.data);
}

#[test]
fn test_filter_transparency() {
    // A layer outside the allow-list: no metadata, no bytes, no error.
    let mut storage = ActivationStorage::new(test_config(vec![0], vec!["residual"]));
    let data = filled(1, 2, 2, |_, _, _| 1.0);
    storage.store(3, "residual", &data, (0, 2)).unwrap();
    assert!(storage.get_metadata(3, "residual").is_none());
    assert_eq!(storage.total_size_bytes(), 0);
    assert!(storage.available_layers().is_empty());

    // A component outside the allow-list: likewise.
    storage.store(0, "mlp_out", &data, (0, 2)).unwrap();
    assert!(storage.get_metadata(0, "mlp_out").is_none());
    assert_eq!(storage.total_size_bytes(), 0);
    assert!(storage.available_layers().is_empty());

    // An allowed pair still lands.
    storage.store(0, "residual", &data, (0, 2)).unwrap();
    assert!(storage.get_metadata(0, "residual").is_some());
}

#[test]
fn test_cleanup_is_idempotent() {
    let mut storage = ActivationStorage::new(test_config(vec![], vec!["residual"]));
    let data = filled(1, 2, 2, |_, _, _| 1.0);
    storage.store(0, "residual", &data, (0, 2)).unwrap();
    assert!(!storage.available_layers().is_empty());

    storage.cleanup().unwrap();
    assert!(storage.available_layers().is_empty());
    assert_eq!(storage.total_size_bytes(), 0);

    storage.cleanup().unwrap();
    assert!(storage.available_layers().is_empty());
    assert_eq!(storage.total_size_bytes(), 0);
}

#[test]
fn test_load_missing_key() {
    let storage = ActivationStorage::new(test_config(vec![], vec!["residual"]));
    let r = storage.load(1, "residual", 0);
    assert!(matches!(r, Err(MicroscopeError::KeyNotFound { layer: 1 })));
}

#[test]
fn test_load_chunk_index_out_of_range() {
    let mut storage = ActivationStorage::new(test_config(vec![], vec!["residual"]));
    let data = filled(1, 2, 2, |_, _, _| 1.0);
    storage.store(0, "residual", &data, (0, 2)).unwrap();
    let r = storage.load(0, "residual", 1);
    assert!(matches!(
        r,
        Err(MicroscopeError::ChunkIndexOutOfRange { chunk_index: 1, available: 1 })
    ));
}

#[test]
fn test_metadata_records_offsets_in_arrival_order() {
    let mut storage = ActivationStorage::new(test_config(vec![], vec!["residual"]));
    let first = filled(1, 2, 3, |_, _, h| h as f32);
    let second = filled(1, 4, 3, |_, s, _| s as f32);
    storage.store(0, "residual", &first, (0, 2)).unwrap();
    storage.store(0, "residual", &second, (2, 6)).unwrap();

    let chunks = storage.get_metadata(0, "residual").unwrap();
    assert_eq!(chunks.len(), 2);
    assert_eq!(chunks[0].offset, 0);
    assert_eq!(chunks[0].size_bytes, 24);
    assert_eq!(chunks[0].shape, vec![1, 2, 3]);
    assert_eq!(chunks[0].token_range, (0, 2));
    assert_eq!(chunks[0].dtype, "f32");
    assert_eq!(chunks[0].layer, 0);
    assert_eq!(chunks[0].component, "residual");
    assert_eq!(chunks[1].offset, 24);
    assert_eq!(chunks[1].size_bytes, 48);
    assert_eq!(chunks[1].token_range, (2, 6));

    // Both chunks load back bit-identically.
    assert_eq!(storage.load(0, "residual", 0).unwrap().data, first.data);
    assert_eq!(storage.load(0, "residual", 1).unwrap().data, second.data);
}

#[test]
fn test_total_size_sums_every_chunk() {
    let mut storage = ActivationStorage::new(test_config(vec![], vec!["residual", "attn_out"]));
    let data = filled(1, 2, 2, |_, _, _| 1.0);
    storage.store(0, "residual", &data, (0, 2)).unwrap();
    storage.store(0, "attn_out", &data, (0, 2)).unwrap();
    storage.store(5, "residual", &data, (0, 2)).unwrap();
    assert_eq!(storage.total_size_bytes(), 3 * 16);
}

#[test]
fn test_available_layers_sorted_and_deduplicated() {
    let mut storage = ActivationStorage::new(test_config(vec![], vec!["residual"]));
    let data = filled(1, 2, 2, |_, _, _| 1.0);
    storage.store(5, "residual", &data, (0, 2)).unwrap();
    storage.store(0, "residual", &data, (0, 2)).unwrap();
    storage.store(5, "residual", &data, (2, 4)).unwrap();
    assert_eq!(storage.available_layers(), vec![0, 5]);
}
