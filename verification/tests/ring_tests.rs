use microscope::streaming::ActivationRingBuffer;
use microscope::tensor::Tensor;

fn tagged(v: f32) -> Tensor {
    Tensor::new(vec![1, 4, 4], vec![v.to_bits(); 16]).unwrap()
}

fn tag(t: &Tensor) -> f32 {
    f32::from_bits(t.data[0])
}

#[test]
fn test_ring_buffer() {
    let mut buffer = ActivationRingBuffer::new(3, 0, "residual".to_string());

    // Push 5 items into a buffer of size 3.
    for i in 0..5 {
        buffer.push(tagged(i as f32));
    }

    // Should have 3 items.
    assert_eq!(buffer.len(), 3);

    // Most recent should be 4, 3, 2.
    let recent = buffer.recent(3);
    assert_eq!(recent.len(), 3);
    assert_eq!(tag(recent[0]), 4.0);
    assert_eq!(tag(recent[1]), 3.0);
    assert_eq!(tag(recent[2]), 2.0);
}

#[test]
fn test_ring_exactly_capacity_pushes() {
    let mut buffer = ActivationRingBuffer::new(3, 0, "residual".to_string());
    for i in 0..3 {
        buffer.push(tagged(i as f32));
    }
    assert_eq!(buffer.len(), 3);
    let all = buffer.all();
    assert_eq!(all.len(), 3);
    assert_eq!(tag(all[0]), 0.0);
    assert_eq!(tag(all[1]), 1.0);
    assert_eq!(tag(all[2]), 2.0);
    let recent = buffer.recent(3);
    assert_eq!(tag(recent[0]), 2.0);
    assert_eq!(tag(recent[2]), 0.0);
}

#[test]
fn test_ring_capacity_plus_one_pushes() {
    let mut buffer = ActivationRingBuffer::new(3, 0, "residual".to_string());
    for i in 0..4 {
        buffer.push(tagged(i as f32));
    }
    assert_eq!(buffer.len(), 3);
    let all = buffer.all();
    assert_eq!(tag(all[0]), 1.0);
    assert_eq!(tag(all[1]), 2.0);
    assert_eq!(tag(all[2]), 3.0);
}

#[test]
fn test_ring_twice_capacity_pushes() {
    let mut buffer = ActivationRingBuffer::new(3, 0, "residual".to_string());
    for i in 0..6 {
        buffer.push(tagged(i as f32));
    }
    assert_eq!(buffer.len(), 3);
    let all = buffer.all();
    assert_eq!(tag(all[0]), 3.0);
    assert_eq!(tag(all[1]), 4.0);
    assert_eq!(tag(all[2]), 5.0);
}

#[test]
fn test_ring_recent_caps_at_count() {
    let mut buffer = ActivationRingBuffer::new(5, 2, "attn_out".to_string());
    buffer.push(tagged(1.0));
    buffer.push(tagged(2.0));
    let recent = buffer.recent(10);
    assert_eq!(recent.len(), 2);
    assert_eq!(tag(recent[0]), 2.0);
    assert_eq!(tag(recent[1]), 1.0);
}

#[test]
fn test_ring_clear_keeps_capacity() {
    let mut buffer = ActivationRingBuffer::new(3, 0, "residual".to_string());
    for i in 0..4 {
        buffer.push(tagged(i as f32));
    }
    buffer.clear();
    assert!(buffer.is_empty());
    assert_eq!(buffer.len(), 0);
    assert_eq!(buffer.capacity(), 3);
    assert!(buffer.recent(3).is_empty());
    assert!(buffer.all().is_empty());

    // The buffer is usable again after a clear, starting from slot zero.
    buffer.push(tagged(7.0));
    assert_eq!(buffer.len(), 1);
    assert_eq!(tag(buffer.recent(1)[0]), 7.0);
}
