use microscope::activation::{Activation, ActivationTracer};
use microscope::errors::MicroscopeError;
use microscope::tensor::Tensor;

fn const_tensor(b: usize, s: usize, h: usize, v: f32) -> Tensor {
    Tensor::new(vec![b, s, h], vec![v.to_bits(); b * s * h]).unwrap()
}

#[test]
fn test_activation_creation() {
    let data = const_tensor(1, 10, 512, 1.0);
    let act = Activation::new(0, "residual", data);

    assert_eq!(act.layer, 0);
    assert_eq!(act.component, "residual");
    assert_eq!(act.shape, vec![1, 10, 512]);
}

#[test]
fn test_activation_strict_and_lenient_accessors() {
    let good = Activation::new(1, "residual", const_tensor(1, 2, 3, 0.5));
    assert!(good.try_as_tensor().is_ok());
    assert_eq!(good.as_tensor().data, vec![0.5f32.to_bits(); 6]);

    // An activation whose declared shape does not match its buffer: the
    // strict accessor reports it, the lenient one degrades to the fallback.
    let bad = Activation { layer: 0, component: "residual".to_string(), shape: vec![2, 2, 2], data: vec![0u32; 3] };
    assert!(matches!(bad.try_as_tensor(), Err(MicroscopeError::InvalidShape { .. })));
    let fallback = bad.as_tensor();
    assert_eq!(fallback.shape, vec![1, 1, 1]);
    assert_eq!(fallback.data, vec![0u32]);
}

#[test]
fn test_tracer_workflow() {
    let mut tracer = ActivationTracer::new(32);

    tracer.start_trace("llama", vec![1, 2, 3]);
    assert!(tracer.is_enabled());

    let data = const_tensor(1, 3, 4096, 1.0);
    tracer.record(0, "residual", data).unwrap();

    let trace = tracer.stop_trace().unwrap();
    assert_eq!(trace.input_tokens, vec![1, 2, 3]);
    assert!(trace.get(0, "residual").is_some());
}

#[test]
fn test_idle_record_is_silent_success() {
    let mut tracer = ActivationTracer::new(8);
    assert!(!tracer.is_enabled());
    let r = tracer.record(3, "residual", const_tensor(1, 1, 4, 2.0));
    assert!(r.is_ok());
    assert!(tracer.stop_trace().is_none());
}

#[test]
fn test_bounds_error_whether_idle_or_active() {
    let mut tracer = ActivationTracer::new(8);
    // Idle: the layer bound is still checked.
    let r = tracer.record(8, "residual", const_tensor(1, 1, 4, 0.0));
    assert!(matches!(r, Err(MicroscopeError::LayerNotFound { layer: 8, total: 8 })));

    // Active: same error, and nothing is recorded.
    tracer.start_trace("gpt2", vec![7]);
    let r = tracer.record(9, "residual", const_tensor(1, 1, 4, 0.0));
    assert!(matches!(r, Err(MicroscopeError::LayerNotFound { layer: 9, total: 8 })));
    let trace = tracer.stop_trace().unwrap();
    assert!(trace.activations.is_empty());
}

#[test]
fn test_record_overwrites_duplicate_key() {
    let mut tracer = ActivationTracer::new(4);
    tracer.start_trace("gpt2", vec![]);
    tracer.record(0, "residual", const_tensor(1, 1, 2, 1.0)).unwrap();
    tracer.record(0, "residual", const_tensor(1, 1, 2, 9.0)).unwrap();
    let trace = tracer.stop_trace().unwrap();
    assert_eq!(trace.activations.len(), 1);
    let act = trace.get(0, "residual").unwrap();
    assert_eq!(act.data, vec![9.0f32.to_bits(); 2]);
}

#[test]
fn test_start_discards_previous_trace() {
    let mut tracer = ActivationTracer::new(4);
    tracer.start_trace("gpt2", vec![1]);
    tracer.record(0, "residual", const_tensor(1, 1, 2, 1.0)).unwrap();
    tracer.start_trace("gpt2", vec![2]);
    let trace = tracer.stop_trace().unwrap();
    assert_eq!(trace.input_tokens, vec![2]);
    assert!(trace.activations.is_empty());
    assert!(tracer.stop_trace().is_none());
}

#[test]
fn test_should_capture_follows_allow_list() {
    let mut tracer = ActivationTracer::new(4);
    assert!(tracer.should_capture("residual"));
    assert!(tracer.should_capture("attn_out"));
    assert!(tracer.should_capture("mlp_out"));
    assert!(!tracer.should_capture("embedding"));

    tracer.set_capture_components(vec!["embedding".to_string()]);
    assert!(tracer.should_capture("embedding"));
    assert!(!tracer.should_capture("residual"));
}

#[test]
fn test_trace_get_and_layer_activations() {
    let mut tracer = ActivationTracer::new(4);
    tracer.start_trace("gpt2", vec![]);
    tracer.record(0, "residual", const_tensor(1, 1, 2, 0.0)).unwrap();
    tracer.record(0, "attn_out", const_tensor(1, 1, 2, 1.0)).unwrap();
    tracer.record(2, "residual", const_tensor(1, 1, 2, 2.0)).unwrap();
    let trace = tracer.stop_trace().unwrap();

    assert!(trace.get(0, "residual").is_some());
    assert!(trace.get(1, "residual").is_none());
    assert!(trace.get(0, "mlp_out").is_none());
    assert_eq!(trace.layer_activations(0).len(), 2);
    assert_eq!(trace.layer_activations(1).len(), 0);
    assert_eq!(trace.layer_activations(2).len(), 1);
}

#[test]
fn test_residual_stream_has_one_slot_per_layer() {
    let mut tracer = ActivationTracer::new(4);
    tracer.start_trace("gpt2", vec![]);
    tracer.record(0, "residual", const_tensor(1, 1, 2, 0.0)).unwrap();
    tracer.record(1, "attn_out", const_tensor(1, 1, 2, 1.0)).unwrap();
    tracer.record(2, "residual", const_tensor(1, 1, 2, 2.0)).unwrap();
    let trace = tracer.stop_trace().unwrap();

    let stream = trace.residual_stream();
    assert_eq!(stream.len(), 3);
    assert!(stream[0].is_some());
    assert!(stream[1].is_none());
    assert!(stream[2].is_some());
    assert_eq!(stream[2].unwrap().data, vec![2.0f32.to_bits(); 2]);
}
