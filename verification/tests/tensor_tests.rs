use microscope::errors::MicroscopeError;
use microscope::tensor::Tensor;

fn filled(b: usize, s: usize, h: usize, f: impl Fn(usize, usize, usize) -> f32) -> Tensor {
    let mut data: Vec<u32> = Vec::new();
    for bi in 0..b {
        for si in 0..s {
            for hi in 0..h {
                data.push(f(bi, si, hi).to_bits());
            }
        }
    }
    Tensor::new(vec![b, s, h], data).unwrap()
}

#[test]
fn test_tensor_new_rejects_wrong_rank() {
    let r = Tensor::new(vec![2, 3], vec![0u32; 6]);
    assert!(matches!(r, Err(MicroscopeError::InvalidShape { expected: 3, got: 2 })));
}

#[test]
fn test_tensor_new_rejects_zero_dimension() {
    let r = Tensor::new(vec![2, 0, 3], Vec::new());
    assert!(matches!(r, Err(MicroscopeError::InvalidShape { .. })));
}

#[test]
fn test_tensor_new_rejects_count_mismatch() {
    let r = Tensor::new(vec![2, 3, 4], vec![0u32; 23]);
    assert!(matches!(r, Err(MicroscopeError::InvalidShape { expected: 24, got: 23 })));
}

#[test]
fn test_tensor_new_accepts_matching_buffer() {
    let t = Tensor::new(vec![2, 3, 4], vec![7u32; 24]).unwrap();
    assert_eq!(t.shape, vec![2, 3, 4]);
    assert_eq!(t.num_elements(), 24);
}

#[test]
fn test_tensor_fallback_is_single_zero() {
    let t = Tensor::new_or_fallback(vec![1, 2], vec![0u32; 2]);
    assert_eq!(t.shape, vec![1, 1, 1]);
    assert_eq!(t.data, vec![0u32]);
}

#[test]
fn test_le_bytes_round_trip_is_bit_exact() {
    let t = filled(2, 3, 4, |b, s, h| (b as f32 + s as f32 * 0.25 + h as f32) * -1.5);
    let bytes = t.to_le_bytes();
    assert_eq!(bytes.len(), 4 * 24);
    let back = Tensor::from_le_bytes(vec![2, 3, 4], &bytes).unwrap();
    assert_eq!(back.shape, t.shape);
    assert_eq!(back.data, t.data);
}

#[test]
fn test_le_bytes_layout_is_little_endian() {
    let t = Tensor::new(vec![1, 1, 1], vec![0x0403_0201u32]).unwrap();
    let bytes = t.to_le_bytes();
    assert_eq!(bytes, vec![0x01u8, 0x02, 0x03, 0x04]);
}

#[test]
fn test_from_le_bytes_rejects_wrong_byte_count() {
    let t = filled(1, 2, 2, |_, _, _| 1.0);
    let mut bytes = t.to_le_bytes();
    bytes.pop();
    let r = Tensor::from_le_bytes(vec![1, 2, 2], &bytes);
    assert!(matches!(r, Err(MicroscopeError::InvalidShape { expected: 16, got: 15 })));
}
