//! Session-scoped activation capture: single captured tensors, the trace
//! built during one forward pass, and the tracer that gates recording.

use crate::errors::MicroscopeError;
use crate::tensor::Tensor;
use vstd::prelude::*;

verus! {

/// A single activation captured at a specific layer.
#[derive(Debug)]
pub struct Activation {
    /// Layer index where this activation was captured.
    pub layer: usize,
    /// Component name (e.g. "attn_out", "mlp_out", "residual").
    pub component: String,
    /// Shape of the tensor `[batch, seq_len, hidden]`.
    pub shape: Vec<usize>,
    /// Flattened element bit patterns, row-major.
    pub data: Vec<u32>,
}

/// Ghost image of one activation.
pub ghost struct ActivationModel {
    /// Layer index.
    pub layer: usize,
    /// Component name characters.
    pub component: Seq<char>,
    /// Declared shape.
    pub shape: Seq<usize>,
    /// Element bit patterns.
    pub data: Seq<u32>,
}

/// The ghost image of an activation.
pub open spec fn activation_model(a: Activation) -> ActivationModel {
    ActivationModel { layer: a.layer, component: a.component@, shape: a.shape@, data: a.data@ }
}

impl Activation {
    /// Shape and buffer agree as in a well-formed tensor.
    pub open spec fn wf(&self) -> bool {
        Tensor::spec_valid(self.shape@, self.data@)
    }

    /// Capture a tensor under a (layer, component) key.
    pub fn new(layer: usize, component: &str, data: Tensor) -> (r: Activation)
        ensures
            r.layer == layer,
            r.component@ == component@,
            r.shape@ == data.shape@,
            r.data@ == data.data@,
            data.wf() ==> r.wf(),
    {
        let Tensor { shape, data } = data;
        Activation { layer, component: component.to_owned(), shape, data }
    }

    /// Strict accessor: the captured tensor, or a shape error when the
    /// declared shape does not match the buffer.
    pub fn try_as_tensor(&self) -> (r: Result<Tensor, MicroscopeError>)
        ensures
            Tensor::spec_valid(self.shape@, self.data@) <==> r is Ok,
            r matches Ok(t) ==> t.shape@ == self.shape@ && t.data@ == self.data@ && t.wf(),
            r is Err ==> r == Err::<Tensor, MicroscopeError>(
                crate::tensor::spec_shape_error(self.shape@, 1, self.data@.len() as usize),
            ),
    {
        Tensor::new(self.shape.clone(), self.data.clone())
    }

    /// Lenient accessor: the captured tensor, degrading to the zero-filled
    /// fallback instead of failing on a mismatched shape.
    pub fn as_tensor(&self) -> (r: Tensor)
        ensures
            r.wf(),
            Tensor::spec_valid(self.shape@, self.data@) ==> r.shape@ == self.shape@ && r.data@
                == self.data@,
            !Tensor::spec_valid(self.shape@, self.data@) ==> r.is_fallback(),
    {
        Tensor::new_or_fallback(self.shape.clone(), self.data.clone())
    }

    /// Number of elements held.
    pub fn num_elements(&self) -> (r: usize)
        ensures
            r == self.data@.len(),
    {
        self.data.len()
    }
}

impl Clone for Activation {
    /// Cloning preserves every field exactly.
    fn clone(&self) -> (r: Self)
        ensures
            activation_model(r) == activation_model(*self),
    {
        let shape = self.shape.clone();
        let data = self.data.clone();
        assert(shape@ =~= self.shape@);
        assert(data@ =~= self.data@);
        Activation { layer: self.layer, component: self.component.clone(), shape, data }
    }
}

/// The key an activation is filed under.
pub open spec fn key_of_act(a: Activation) -> (usize, Seq<char>) {
    (a.layer, a.component@)
}

/// The activations a borrowed list refers to.
pub open spec fn spec_values(s: Seq<&Activation>) -> Seq<Activation> {
    s.map_values(|a: &Activation| *a)
}

/// Whether an activation belongs to `layer`.
pub open spec fn spec_layer_pred(layer: usize) -> spec_fn(Activation) -> bool {
    |a: Activation| a.layer == layer
}

/// Whether some activation in the list is filed under `k`.
spec fn act_has_key(acts: Seq<Activation>, k: (usize, Seq<char>)) -> bool {
    exists|i: int| 0 <= i < acts.len() && key_of_act(#[trigger] acts[i]) == k
}

/// The activation filed under `k` (meaningful when keys are unique).
spec fn act_at(acts: Seq<Activation>, k: (usize, Seq<char>)) -> Activation {
    acts[choose|i: int| 0 <= i < acts.len() && key_of_act(#[trigger] acts[i]) == k]
}

/// With unique keys, the activation found at index `i` is the one the model
/// sees.
proof fn lemma_act_at(acts: Seq<Activation>, k: (usize, Seq<char>), i: int)
    requires
        forall|p: int, q: int|
            0 <= p < q < acts.len() ==> key_of_act(#[trigger] acts[p]) != key_of_act(
                #[trigger] acts[q],
            ),
        0 <= i < acts.len(),
        key_of_act(acts[i]) == k,
    ensures
        act_has_key(acts, k),
        act_at(acts, k) == acts[i],
{
    assert(act_has_key(acts, k));
    let j = choose|j: int| 0 <= j < acts.len() && key_of_act(#[trigger] acts[j]) == k;
    if i != j {
        if i < j {
            assert(key_of_act(acts[i]) != key_of_act(acts[j]));
        } else {
            assert(key_of_act(acts[j]) != key_of_act(acts[i]));
        }
    }
}

/// Index of the activation filed under `(layer, component)`, if any.
fn find_act(acts: &Vec<Activation>, layer: usize, component: &String) -> (r: Option<usize>)
    ensures
        match r {
            Some(i) => i < acts@.len() && key_of_act(acts@[i as int]) == (layer, component@),
            None => !act_has_key(acts@, (layer, component@)),
        },
{
    let mut i: usize = 0;
    while i < acts.len()
        invariant
            i <= acts@.len(),
            forall|j: int| 0 <= j < i ==> key_of_act(#[trigger] acts@[j]) != (layer, component@),
        decreases acts@.len() - i,
    {
        if acts[i].layer == layer && acts[i].component == *component {
            return Some(i);
        }
        i = i + 1;
    }
    None
}

/// A complete trace of the activations captured during one forward pass.
#[derive(Debug)]
pub struct ActivationTrace {
    /// Captured activations; one per (layer, component) key.
    pub activations: Vec<Activation>,
    /// The input tokens that produced this trace.
    pub input_tokens: Vec<u32>,
    /// Model architecture used.
    pub architecture: String,
}

impl ActivationTrace {
    /// Structural invariant: unique keys and well-formed activations.
    pub closed spec fn wf(&self) -> bool {
        &&& forall|p: int, q: int|
            0 <= p < q < self.activations@.len() ==> key_of_act(#[trigger] self.activations@[p])
                != key_of_act(#[trigger] self.activations@[q])
        &&& forall|i: int|
            0 <= i < self.activations@.len() ==> (#[trigger] self.activations@[i]).wf()
    }

    /// The ghost image of the trace's contents: activations by key.
    pub closed spec fn view(&self) -> Map<(usize, Seq<char>), ActivationModel> {
        Map::new(
            |k: (usize, Seq<char>)| act_has_key(self.activations@, k),
            |k: (usize, Seq<char>)| activation_model(act_at(self.activations@, k)),
        )
    }

    /// Create a new empty trace.
    pub fn new(architecture: &str, input_tokens: Vec<u32>) -> (r: ActivationTrace)
        ensures
            r.wf(),
            r.view() == Map::<(usize, Seq<char>), ActivationModel>::empty(),
            r.architecture@ == architecture@,
            r.input_tokens@ == input_tokens@,
    {
        let r = ActivationTrace {
            activations: Vec::new(),
            input_tokens,
            architecture: architecture.to_owned(),
        };
        proof {
            assert(r.view() =~= Map::<(usize, Seq<char>), ActivationModel>::empty());
        }
        r
    }

    /// File an activation under its (layer, component) key, replacing any
    /// prior value for that key: the last write wins, with no error on a
    /// duplicate.
    pub fn add(&mut self, activation: Activation)
        requires
            old(self).wf(),
            activation.wf(),
        ensures
            final(self).wf(),
            final(self).view() == old(self).view().insert(
                (activation.layer, activation.component@),
                activation_model(activation),
            ),
            final(self).architecture@ == old(self).architecture@,
            final(self).input_tokens@ == old(self).input_tokens@,
    {
        let ghost k = key_of_act(activation);
        let ghost acts0 = self.activations@;
        let ghost target = old(self).view().insert(k, activation_model(activation));
        let found = find_act(&self.activations, activation.layer, &activation.component);
        let idx: usize;
        match found {
            Some(i) => {
                self.activations[i] = activation;
                idx = i;
            },
            None => {
                idx = self.activations.len();
                self.activations.push(activation);
            },
        }
        proof {
            let acts1 = self.activations@;
            assert(idx < acts1.len());
            assert(key_of_act(acts1[idx as int]) == k);
            assert(forall|j: int| 0 <= j < acts1.len() && j != idx ==> acts1[j] == acts0[j]);
            assert(acts1[idx as int] == activation);
            assert forall|p: int, q: int| 0 <= p < q < acts1.len() implies key_of_act(
                #[trigger] acts1[p],
            ) != key_of_act(#[trigger] acts1[q]) by {
                if p != idx && q != idx {
                    assert(key_of_act(acts0[p]) != key_of_act(acts0[q]));
                } else if p == idx {
                    assert(key_of_act(acts1[q]) == key_of_act(acts0[q]));
                } else {
                    assert(key_of_act(acts1[p]) == key_of_act(acts0[p]));
                }
            }
            lemma_act_at(acts1, k, idx as int);
            assert forall|k2: (usize, Seq<char>)|
                self.view().contains_key(k2) <==> target.contains_key(k2) by {
                if k2 != k {
                    if act_has_key(acts1, k2) {
                        let j = choose|j: int|
                            0 <= j < acts1.len() && key_of_act(#[trigger] acts1[j]) == k2;
                        assert(j != idx);
                        assert(acts0[j] == acts1[j] && j < acts0.len());
                        assert(act_has_key(acts0, k2));
                    }
                    if act_has_key(acts0, k2) {
                        let j = choose|j: int|
                            0 <= j < acts0.len() && key_of_act(#[trigger] acts0[j]) == k2;
                        assert(j != idx);
                        assert(acts1[j] == acts0[j]);
                        assert(act_has_key(acts1, k2));
                    }
                } else {
                    assert(act_has_key(acts1, k));
                }
            }
            assert forall|k2: (usize, Seq<char>)|
                self.view().contains_key(k2) implies self.view()[k2] == target[k2] by {
                if k2 == k {
                    assert(self.view()[k2] == activation_model(act_at(acts1, k)));
                } else {
                    let j = choose|j: int|
                        0 <= j < acts1.len() && key_of_act(#[trigger] acts1[j]) == k2;
                    assert(j != idx);
                    assert(acts1[j] == acts0[j] && j < acts0.len());
                    lemma_act_at(acts1, k2, j);
                    lemma_act_at(acts0, k2, j);
                }
            }
            assert(self.view() =~= target);
        }
    }

    /// The activation filed under `(layer, component)`, if one was recorded.
    pub fn get(&self, layer: usize, component: &str) -> (r: Option<&Activation>)
        requires
            self.wf(),
        ensures
            match r {
                Some(a) => self.view().contains_key((layer, component@)) && activation_model(*a)
                    == self.view()[(layer, component@)] && a.wf(),
                None => !self.view().contains_key((layer, component@)),
            },
    {
        let comp_owned: String = component.to_owned();
        match find_act(&self.activations, layer, &comp_owned) {
            Some(i) => {
                proof {
                    lemma_act_at(self.activations@, (layer, component@), i as int);
                }
                Some(&self.activations[i])
            },
            None => None,
        }
    }

    /// Every activation recorded for one layer, in filing order: exactly the
    /// filing sequence restricted to that layer.
    pub fn layer_activations(&self, layer: usize) -> (r: Vec<&Activation>)
        requires
            self.wf(),
        ensures
            spec_values(r@) == self.activations@.filter(spec_layer_pred(layer)),
            forall|i: int|
                0 <= i < r@.len() ==> (#[trigger] r@[i]).layer == layer && self.view().contains_key(
                    key_of_act(*r@[i]),
                ) && self.view()[key_of_act(*r@[i])] == activation_model(*r@[i]),
            forall|k: (usize, Seq<char>)|
                #[trigger] self.view().contains_key(k) && k.0 == layer ==> exists|i: int|
                    0 <= i < r@.len() && key_of_act(*(#[trigger] r@[i])) == k,
    {
        let mut r: Vec<&Activation> = Vec::new();
        let mut i: usize = 0;
        proof {
            reveal(Seq::filter);
            assert(self.activations@.take(0) =~= Seq::<Activation>::empty());
            assert(spec_values(r@) =~= self.activations@.take(0).filter(spec_layer_pred(layer)));
        }
        while i < self.activations.len()
            invariant
                self.wf(),
                i <= self.activations@.len(),
                spec_values(r@) == self.activations@.take(i as int).filter(spec_layer_pred(layer)),
                forall|p: int|
                    0 <= p < r@.len() ==> (#[trigger] r@[p]).layer == layer && act_has_key(
                        self.activations@,
                        key_of_act(*r@[p]),
                    ) && act_at(self.activations@, key_of_act(*r@[p])) == *r@[p],
                forall|j: int|
                    0 <= j < i && (#[trigger] self.activations@[j]).layer == layer ==> exists|p: int|
                        0 <= p < r@.len() && key_of_act(*(#[trigger] r@[p])) == key_of_act(
                            self.activations@[j],
                        ),
            decreases self.activations@.len() - i,
        {
            let ghost r0 = r@;
            let ghost t1 = self.activations@.take(i as int + 1);
            proof {
                reveal(Seq::filter);
                assert(t1.drop_last() =~= self.activations@.take(i as int));
                assert(t1.last() == self.activations@[i as int]);
            }
            if self.activations[i].layer == layer {
                proof {
                    lemma_act_at(self.activations@, key_of_act(self.activations@[i as int]), i as int);
                }
                r.push(&self.activations[i]);
                proof {
                    assert(forall|p: int| 0 <= p < r0.len() ==> r@[p] == r0[p]);
                    assert(key_of_act(*r@[r@.len() - 1]) == key_of_act(
                        self.activations@[i as int],
                    ));
                    assert(spec_values(r@) =~= spec_values(r0).push(self.activations@[i as int]));
                    assert(spec_values(r@) =~= t1.filter(spec_layer_pred(layer)));
                }
            } else {
                proof {
                    assert(spec_values(r@) =~= t1.filter(spec_layer_pred(layer)));
                }
            }
            i = i + 1;
        }
        proof {
            assert(self.activations@.take(self.activations@.len() as int) =~= self.activations@);
        }
        proof {
            assert forall|k: (usize, Seq<char>)|
                #[trigger] self.view().contains_key(k) && k.0 == layer implies exists|p: int|
                0 <= p < r@.len() && key_of_act(*(#[trigger] r@[p])) == k by {
                let j = choose|j: int|
                    0 <= j < self.activations@.len() && key_of_act(
                        #[trigger] self.activations@[j],
                    ) == k;
                assert(self.activations@[j].layer == layer);
            }
        }
        r
    }

    /// The residual-stream activation of every layer up to the highest layer
    /// recorded, one optional slot per layer. An empty trace yields a single
    /// empty slot for layer zero.
    pub fn residual_stream(&self) -> (r: Vec<Option<&Activation>>)
        requires
            self.wf(),
        ensures
            r@.len() >= 1,
            forall|k: (usize, Seq<char>)| #[trigger] self.view().contains_key(k) ==> k.0 < r@.len(),
            r@.len() > 1 ==> exists|k: (usize, Seq<char>)|
                #[trigger] self.view().contains_key(k) && k.0 == r@.len() - 1,
            forall|l: int|
                0 <= l < r@.len() ==> match #[trigger] r@[l] {
                    Some(a) => self.view().contains_key((l as usize, "residual"@))
                        && activation_model(*a) == self.view()[(l as usize, "residual"@)],
                    None => !self.view().contains_key((l as usize, "residual"@)),
                },
    {
        let mut max_layer: usize = 0;
        let mut i: usize = 0;
        while i < self.activations.len()
            invariant
                i <= self.activations@.len(),
                forall|j: int| 0 <= j < i ==> (#[trigger] self.activations@[j]).layer <= max_layer,
                max_layer == 0 || exists|j: int|
                    0 <= j < i && (#[trigger] self.activations@[j]).layer == max_layer,
            decreases self.activations@.len() - i,
        {
            if self.activations[i].layer > max_layer {
                max_layer = self.activations[i].layer;
            }
            i = i + 1;
        }
        proof {
            assert forall|k: (usize, Seq<char>)|
                #[trigger] self.view().contains_key(k) implies k.0 <= max_layer by {
                let j = choose|j: int|
                    0 <= j < self.activations@.len() && key_of_act(
                        #[trigger] self.activations@[j],
                    ) == k;
            }
        }

        let mut r: Vec<Option<&Activation>> = Vec::new();
        let mut l: usize = 0;
        loop
            invariant_except_break
                r@.len() == l,
            invariant
                self.wf(),
                l <= max_layer,
                forall|j: int| 0 <= j < i ==> (#[trigger] self.activations@[j]).layer <= max_layer,
                i == self.activations@.len(),
                max_layer == 0 || exists|j: int|
                    0 <= j < i && (#[trigger] self.activations@[j]).layer == max_layer,
                forall|p: int|
                    0 <= p < r@.len() ==> match #[trigger] r@[p] {
                        Some(a) => self.view().contains_key((p as usize, "residual"@))
                            && activation_model(*a) == self.view()[(p as usize, "residual"@)],
                        None => !self.view().contains_key((p as usize, "residual"@)),
                    },
            ensures
                r@.len() == max_layer + 1,
            decreases max_layer - l,
        {
            let slot = self.get(l, "residual");
            r.push(slot);
            if l == max_layer {
                break ;
            }
            l = l + 1;
        }
        proof {
            assert(r@.len() == max_layer + 1);
            if max_layer > 0 {
                let j = choose|j: int|
                    0 <= j < self.activations@.len() && (#[trigger] self.activations@[j]).layer
                        == max_layer;
                lemma_act_at(self.activations@, key_of_act(self.activations@[j]), j);
                assert(self.view().contains_key(key_of_act(self.activations@[j])));
            }
        }
        r
    }
}

/// Ghost image of a completed or in-progress trace.
pub ghost struct TraceModel {
    /// Architecture name characters.
    pub architecture: Seq<char>,
    /// The input tokens that produced the trace.
    pub input_tokens: Seq<u32>,
    /// Activations by (layer, component) key.
    pub activations: Map<(usize, Seq<char>), ActivationModel>,
}

/// The ghost image of a trace.
pub open spec fn trace_model(t: ActivationTrace) -> TraceModel {
    TraceModel {
        architecture: t.architecture@,
        input_tokens: t.input_tokens@,
        activations: t.view(),
    }
}

/// Ghost image of the tracer: layer bound, component allow-list, and the
/// session state — `None` while idle, `Some` while a trace is being built.
pub ghost struct TracerModel {
    /// Number of layers in the model.
    pub num_layers: usize,
    /// Components worth capturing.
    pub components: Seq<Seq<char>>,
    /// The trace under construction, if a session is active.
    pub current: Option<TraceModel>,
}

/// What `record` returns: the layer bound is checked first, in every state,
/// so misuse is caught even while idle.
pub open spec fn spec_record_result(m: TracerModel, layer: usize) -> Result<(), MicroscopeError> {
    if layer >= m.num_layers {
        Err(MicroscopeError::LayerNotFound { layer, total: m.num_layers })
    } else {
        Ok(())
    }
}

/// How `record` moves the session state: a rejected layer or an idle session
/// changes nothing; an active session files the activation under its key,
/// overwriting any prior value.
pub open spec fn spec_record_state(
    m: TracerModel,
    layer: usize,
    comp: Seq<char>,
    shape: Seq<usize>,
    data: Seq<u32>,
) -> TracerModel {
    if layer >= m.num_layers {
        m
    } else {
        match m.current {
            None => m,
            Some(t) => TracerModel {
                current: Some(
                    TraceModel {
                        activations: t.activations.insert(
                            (layer, comp),
                            ActivationModel { layer, component: comp, shape, data },
                        ),
                        ..t
                    },
                ),
                ..m
            },
        }
    }
}

/// The state after `stop_trace`: idle, everything else untouched.
pub open spec fn spec_stop_state(m: TracerModel) -> TracerModel {
    TracerModel { current: None, ..m }
}

/// What `stop_trace` returns: the trace under construction, if any.
pub open spec fn spec_stop_result(m: TracerModel) -> Option<TraceModel> {
    m.current
}

/// Idle no-op law: while the tracer is idle, `record` leaves the state
/// untouched — so a following `stop_trace` still returns nothing — and
/// succeeds for every valid layer index.
pub proof fn lemma_idle_record_no_op(
    m: TracerModel,
    layer: usize,
    comp: Seq<char>,
    shape: Seq<usize>,
    data: Seq<u32>,
)
    requires
        m.current is None,
    ensures
        spec_record_state(m, layer, comp, shape, data) == m,
        layer < m.num_layers ==> spec_record_result(m, layer) is Ok,
        spec_stop_result(spec_record_state(m, layer, comp, shape, data)) is None,
{
}

/// Bounds check independent of state: a layer at or beyond the configured
/// count always yields the layer-bounds error and leaves the state untouched,
/// idle or active.
pub proof fn lemma_bounds_check_state_independent(
    m: TracerModel,
    layer: usize,
    comp: Seq<char>,
    shape: Seq<usize>,
    data: Seq<u32>,
)
    requires
        layer >= m.num_layers,
    ensures
        spec_record_result(m, layer) == Err::<(), MicroscopeError>(
            MicroscopeError::LayerNotFound { layer, total: m.num_layers },
        ),
        spec_record_state(m, layer, comp, shape, data) == m,
{
}

/// The session-scoped recorder: accumulates activations for one forward pass,
/// gating every `record` by an idle/active state, a layer bound, and — on the
/// producer side — a component allow-list. The design assumes one owner; a
/// host embedding it under shared access wraps it in its own lock.
#[derive(Debug)]
pub struct ActivationTracer {
    /// Number of layers in the model.
    num_layers: usize,
    /// The trace being built; `None` while idle.
    current_trace: Option<ActivationTrace>,
    /// Components worth capturing, consulted by producers via
    /// `should_capture`.
    capture_components: Vec<String>,
}

impl ActivationTracer {
    /// The ghost image of the tracer.
    pub closed spec fn view(&self) -> TracerModel {
        TracerModel {
            num_layers: self.num_layers,
            components: self.capture_components@.map_values(|s: String| s@),
            current: match self.current_trace {
                Some(t) => Some(trace_model(t)),
                None => None,
            },
        }
    }

    /// Structural invariant: an active trace is well-formed.
    pub closed spec fn wf(&self) -> bool {
        match self.current_trace {
            Some(t) => t.wf(),
            None => true,
        }
    }

    /// A new, idle tracer for a model of `num_layers` layers, capturing the
    /// three standard components.
    pub fn new(num_layers: usize) -> (r: ActivationTracer)
        ensures
            r.wf(),
            r.view().num_layers == num_layers,
            r.view().current is None,
            r.view().components =~= seq!["residual"@, "attn_out"@, "mlp_out"@],
    {
        let mut capture_components: Vec<String> = Vec::new();
        capture_components.push("residual".to_owned());
        capture_components.push("attn_out".to_owned());
        capture_components.push("mlp_out".to_owned());
        let r = ActivationTracer { num_layers, current_trace: None, capture_components };
        proof {
            assert(r.view().components =~= seq!["residual"@, "attn_out"@, "mlp_out"@]);
        }
        r
    }

    /// Begin a session: any trace still under construction is silently
    /// discarded and a fresh empty one is installed.
    pub fn start_trace(&mut self, architecture: &str, input_tokens: Vec<u32>)
        requires
            old(self).wf(),
        ensures
            final(self).wf(),
            final(self).view() == (TracerModel {
                current: Some(
                    TraceModel {
                        architecture: architecture@,
                        input_tokens: input_tokens@,
                        activations: Map::empty(),
                    },
                ),
                ..old(self).view()
            }),
    {
        let trace = ActivationTrace::new(architecture, input_tokens);
        self.current_trace = Some(trace);
    }

    /// End the session and hand the completed trace out; while idle this
    /// returns nothing and is not an error.
    pub fn stop_trace(&mut self) -> (r: Option<ActivationTrace>)
        requires
            old(self).wf(),
        ensures
            final(self).wf(),
            final(self).view() == spec_stop_state(old(self).view()),
            match r {
                Some(t) => old(self).view().current == Some(trace_model(t)) && t.wf(),
                None => old(self).view().current is None,
            },
    {
        self.current_trace.take()
    }

    /// Whether a session is active.
    pub fn is_enabled(&self) -> (r: bool)
        ensures
            r == (self.view().current is Some),
    {
        self.current_trace.is_some()
    }

    /// Record one produced activation. The layer bound is checked first, in
    /// every state; an idle session then drops the tensor silently; an active
    /// one files it under `(layer, component)`, last write wins.
    pub fn record(&mut self, layer: usize, component: &str, data: Tensor) -> (r: Result<
        (),
        MicroscopeError,
    >)
        requires
            old(self).wf(),
            data.wf(),
        ensures
            final(self).wf(),
            r == spec_record_result(old(self).view(), layer),
            final(self).view() == spec_record_state(
                old(self).view(),
                layer,
                component@,
                data.shape@,
                data.data@,
            ),
    {
        if layer >= self.num_layers {
            return Err(MicroscopeError::LayerNotFound { layer, total: self.num_layers });
        }
        let activation = Activation::new(layer, component, data);
        match &mut self.current_trace {
            None => Ok(()),
            Some(t) => {
                t.add(activation);
                Ok(())
            },
        }
    }

    /// Replace the component allow-list consulted by `should_capture`.
    pub fn set_capture_components(&mut self, components: Vec<String>)
        requires
            old(self).wf(),
        ensures
            final(self).wf(),
            final(self).view() == (TracerModel {
                components: components@.map_values(|s: String| s@),
                ..old(self).view()
            }),
    {
        self.capture_components = components;
    }

    /// Whether producers should bother capturing `component` at all.
    pub fn should_capture(&self, component: &str) -> (r: bool)
        ensures
            r == self.view().components.contains(component@),
    {
        let comp_owned: String = component.to_owned();
        let mut i: usize = 0;
        while i < self.capture_components.len()
            invariant
                i <= self.capture_components@.len(),
                comp_owned@ == component@,
                forall|j: int| 0 <= j < i ==> self.capture_components@[j]@ != component@,
            decreases self.capture_components@.len() - i,
        {
            if self.capture_components[i] == comp_owned {
                proof {
                    assert(self.view().components[i as int] == component@);
                }
                return true;
            }
            i = i + 1;
        }
        proof {
            assert forall|j: int|
                0 <= j < self.view().components.len() implies self.view().components[j]
                != component@ by {
                assert(self.view().components[j] == self.capture_components@[j]@);
            }
        }
        false
    }
}

} // verus!
