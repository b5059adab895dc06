//! Streaming capture support: the chunked tensor store, the sliding-window
//! ring buffer, and the capture-strategy advisor.

use crate::decimal::{spec_decimal, usize_to_string};
use crate::errors::MicroscopeError;
use crate::tensor::{spec_element_count, spec_le_bytes, spec_le_words, Tensor};
use vstd::prelude::*;
use vstd::string::StringExecFns;

verus! {

/// The deterministic backing-file name for a (layer, component) key, under
/// which the unverified backend mirrors the key's byte stream to disk.
pub fn file_name(layer: usize, component: &str) -> (r: String)
    ensures
        r@ == "layer_"@ + spec_decimal(layer as int) + "_"@ + component@ + ".bin"@,
{
    let mut r: String = "layer_".to_owned();
    r.append(usize_to_string(layer).as_str());
    r.append("_");
    r.append(component);
    r.append(".bin");
    r
}

/// Configuration for streaming capture.
pub struct StreamingConfig {
    /// Directory (as a path string) where the unverified backend stores
    /// activation files.
    pub storage_dir: String,
    /// Maximum memory usage in bytes.
    pub memory_limit_bytes: u64,
    /// Layers to capture; empty means all layers.
    pub capture_layers: Vec<usize>,
    /// Components to capture.
    pub capture_components: Vec<String>,
    /// Whether the backend should use memory-mapped files.
    pub use_mmap: bool,
    /// Slot count for sliding-window buffers.
    pub ring_buffer_size: usize,
}

impl StreamingConfig {
    /// Whether a (layer, component) pair passes the configured allow-lists:
    /// the layer list admits everything when empty, the component list is
    /// always consulted.
    pub open spec fn spec_captures(&self, layer: usize, comp: Seq<char>) -> bool {
        &&& (self.capture_layers@.len() == 0 || self.capture_layers@.contains(layer))
        &&& exists|i: int|
            0 <= i < self.capture_components@.len() && self.capture_components@[i]@ == comp
    }

    /// Configuration for very large models: capture only the residual stream,
    /// with a higher memory budget and a small sliding window.
    pub fn for_large_model(storage_dir: String) -> (r: StreamingConfig)
        ensures
            r.storage_dir@ == storage_dir@,
            r.memory_limit_bytes == 8 * 1024 * 1024 * 1024,
            r.capture_layers@ == Seq::<usize>::empty(),
            r.capture_components@.len() == 1 && r.capture_components@[0]@ == "residual"@,
            r.use_mmap == true,
            r.ring_buffer_size == 100,
    {
        let mut capture_components: Vec<String> = Vec::new();
        capture_components.push("residual".to_owned());
        StreamingConfig {
            storage_dir,
            memory_limit_bytes: 8 * 1024 * 1024 * 1024,
            capture_layers: Vec::new(),
            capture_components,
            use_mmap: true,
            ring_buffer_size: 100,
        }
    }

    /// Default configuration restricted to the given layers.
    pub fn selective(storage_dir: String, layers: Vec<usize>) -> (r: StreamingConfig)
        ensures
            r.storage_dir@ == storage_dir@,
            r.capture_layers@ == layers@,
            r.memory_limit_bytes == 4 * 1024 * 1024 * 1024,
            r.capture_components@.len() == 3 && r.capture_components@[0]@ == "residual"@
                && r.capture_components@[1]@ == "attn_out"@ && r.capture_components@[2]@
                == "mlp_out"@,
            r.use_mmap == true,
            r.ring_buffer_size == 1000,
    {
        let d = StreamingConfig::default();
        StreamingConfig { storage_dir, capture_layers: layers, ..d }
    }
}

impl Default for StreamingConfig {
    /// Defaults: a temporary storage directory, a four-gigabyte budget, all
    /// layers, and the three standard components.
    fn default() -> (r: StreamingConfig)
        ensures
            r.storage_dir@ == "/tmp/alignment_microscope"@,
            r.memory_limit_bytes == 4 * 1024 * 1024 * 1024,
            r.capture_layers@ == Seq::<usize>::empty(),
            r.capture_components@.len() == 3 && r.capture_components@[0]@ == "residual"@
                && r.capture_components@[1]@ == "attn_out"@ && r.capture_components@[2]@
                == "mlp_out"@,
            r.use_mmap == true,
            r.ring_buffer_size == 1000,
    {
        let mut capture_components: Vec<String> = Vec::new();
        capture_components.push("residual".to_owned());
        capture_components.push("attn_out".to_owned());
        capture_components.push("mlp_out".to_owned());
        StreamingConfig {
            storage_dir: "/tmp/alignment_microscope".to_owned(),
            memory_limit_bytes: 4 * 1024 * 1024 * 1024,
            capture_layers: Vec::new(),
            capture_components,
            use_mmap: true,
            ring_buffer_size: 1000,
        }
    }
}

/// Metadata for one stored activation chunk; one instance per `store` call.
#[derive(Debug)]
pub struct ChunkMetadata {
    /// Layer index.
    pub layer: usize,
    /// Component name.
    pub component: String,
    /// Tensor shape `[batch, seq_len, hidden]`.
    pub shape: Vec<usize>,
    /// Element type tag; always 32-bit floats in this design.
    pub dtype: String,
    /// Byte offset of the chunk inside its backing stream.
    pub offset: u64,
    /// Chunk size in bytes.
    pub size_bytes: usize,
    /// Token indices covered by this chunk.
    pub token_range: (usize, usize),
}

/// Ghost image of one chunk: what the metadata says about a byte region.
pub ghost struct ChunkModel {
    /// Declared tensor shape.
    pub shape: Seq<usize>,
    /// First byte of the region.
    pub offset: int,
    /// Length of the region in bytes.
    pub size: int,
    /// Token indices covered.
    pub token_range: (usize, usize),
}

/// Ghost image of one per-key backing stream: its chunk directory and its
/// full byte contents.
pub ghost struct FileModel {
    /// Chunk directory, in arrival order; a chunk's index is its position.
    pub chunks: Seq<ChunkModel>,
    /// Every byte appended so far.
    pub bytes: Seq<u8>,
}

/// Ghost image of the whole store: one stream per (layer, component) key.
pub ghost struct StorageModel {
    /// Streams by key; a key appears once something was stored under it.
    pub files: Map<(usize, Seq<char>), FileModel>,
}

/// The ghost image of a chunk metadata record.
pub open spec fn chunk_model(c: ChunkMetadata) -> ChunkModel {
    ChunkModel {
        shape: c.shape@,
        offset: c.offset as int,
        size: c.size_bytes as int,
        token_range: c.token_range,
    }
}

/// The stream under `k`, or an empty stream when the key is absent.
pub open spec fn spec_file_or_empty(m: StorageModel, k: (usize, Seq<char>)) -> FileModel {
    if m.files.contains_key(k) {
        m.files[k]
    } else {
        FileModel { chunks: Seq::empty(), bytes: Seq::empty() }
    }
}

/// The store after appending one tensor under `(layer, comp)`: its bytes go
/// at the end of the key's stream and one chunk record is added, pointing at
/// exactly that region.
pub open spec fn spec_store(
    m: StorageModel,
    layer: usize,
    comp: Seq<char>,
    shape: Seq<usize>,
    data: Seq<u32>,
    token_range: (usize, usize),
) -> StorageModel {
    let k = (layer, comp);
    let f = spec_file_or_empty(m, k);
    let ch = ChunkModel {
        shape,
        offset: f.bytes.len() as int,
        size: 4 * data.len() as int,
        token_range,
    };
    StorageModel {
        files: m.files.insert(
            k,
            FileModel { chunks: f.chunks.push(ch), bytes: f.bytes + spec_le_bytes(data) },
        ),
    }
}

/// What loading chunk `idx` of `(layer, comp)` yields: the declared shape and
/// the words decoded from the chunk's byte region, or the precise error.
pub open spec fn spec_load(m: StorageModel, layer: usize, comp: Seq<char>, idx: int) -> Result<
    (Seq<usize>, Seq<u32>),
    MicroscopeError,
> {
    let k = (layer, comp);
    if !m.files.contains_key(k) {
        Err(MicroscopeError::KeyNotFound { layer })
    } else {
        let f = m.files[k];
        if idx >= f.chunks.len() {
            Err(
                MicroscopeError::ChunkIndexOutOfRange {
                    chunk_index: idx as usize,
                    available: f.chunks.len() as usize,
                },
            )
        } else {
            let ch = f.chunks[idx];
            Ok((ch.shape, spec_le_words(f.bytes.subrange(ch.offset, ch.offset + ch.size))))
        }
    }
}

/// The store after `cleanup`: no streams at all, whatever was there before.
pub open spec fn spec_cleanup(m: StorageModel) -> StorageModel {
    StorageModel { files: Map::empty() }
}

/// Whether any chunk is stored for `layer` under any component.
pub open spec fn spec_has_layer(m: StorageModel, layer: usize) -> bool {
    exists|k: (usize, Seq<char>)| #[trigger] m.files.contains_key(k) && k.0 == layer
}

/// Round-trip durability: storing a tensor and then loading the chunk it
/// created yields the same shape and bit-identical element words.
pub proof fn lemma_store_load_round_trip(
    m: StorageModel,
    layer: usize,
    comp: Seq<char>,
    t: Tensor,
    token_range: (usize, usize),
)
    ensures
        ({
            let m1 = spec_store(m, layer, comp, t.shape@, t.data@, token_range);
            let idx = spec_file_or_empty(m, (layer, comp)).chunks.len() as int;
            spec_load(m1, layer, comp, idx) == Ok::<_, MicroscopeError>((t.shape@, t.data@))
        }),
{
    let k = (layer, comp);
    let f = spec_file_or_empty(m, k);
    let m1 = spec_store(m, layer, comp, t.shape@, t.data@, token_range);
    let f1 = m1.files[k];
    crate::tensor::lemma_le_bytes_len(t.data@);
    assert(f1.bytes.subrange(
        f.bytes.len() as int,
        f.bytes.len() as int + 4 * t.data@.len() as int,
    ) =~= spec_le_bytes(t.data@));
    crate::tensor::lemma_le_round_trip(t.data@);
}

/// Cleanup idempotence: cleaning an already clean store changes nothing, and
/// a cleaned store has no layer available.
pub proof fn lemma_cleanup_idempotent(m: StorageModel)
    ensures
        spec_cleanup(spec_cleanup(m)) == spec_cleanup(m),
        forall|layer: usize| !spec_has_layer(spec_cleanup(m), layer),
{
}

/// One per-key backing stream of the store: the key, the chunk directory,
/// and the bytes appended so far (which the unverified backend mirrors to a
/// file).
struct StoreEntry {
    /// Layer of the key.
    layer: usize,
    /// Component of the key.
    component: String,
    /// Chunk directory, in arrival order.
    chunks: Vec<ChunkMetadata>,
    /// Full contents of the stream.
    bytes: Vec<u8>,
}

/// The key an entry serves.
spec fn key_of(e: StoreEntry) -> (usize, Seq<char>) {
    (e.layer, e.component@)
}

/// A chunk record is internally consistent and points inside a stream of
/// `blen` bytes.
spec fn chunk_wf(ch: ChunkMetadata, blen: int) -> bool {
    &&& ch.shape@.len() == 3
    &&& 1 <= ch.shape@[0]
    &&& 1 <= ch.shape@[1]
    &&& 1 <= ch.shape@[2]
    &&& ch.size_bytes == 4 * spec_element_count(ch.shape@)
    &&& ch.offset + ch.size_bytes <= blen
    &&& ch.dtype@ == "f32"@
}

/// An entry is non-empty, self-describing, and every chunk lies inside its
/// byte stream.
spec fn entry_wf(e: StoreEntry) -> bool {
    &&& e.chunks@.len() >= 1
    &&& forall|i: int|
        0 <= i < e.chunks@.len() ==> chunk_wf(#[trigger] e.chunks@[i], e.bytes@.len() as int)
    &&& forall|i: int|
        0 <= i < e.chunks@.len() ==> (#[trigger] e.chunks@[i]).layer == e.layer
            && e.chunks@[i].component@ == e.component@
}

/// Whether some entry serves key `k`.
spec fn spec_has_key(entries: Seq<StoreEntry>, k: (usize, Seq<char>)) -> bool {
    exists|i: int| 0 <= i < entries.len() && key_of(#[trigger] entries[i]) == k
}

/// The entry serving key `k` (meaningful when keys are unique and present).
spec fn spec_entry_at(entries: Seq<StoreEntry>, k: (usize, Seq<char>)) -> StoreEntry {
    entries[choose|i: int| 0 <= i < entries.len() && key_of(#[trigger] entries[i]) == k]
}

/// The ghost image of one entry.
spec fn file_of(e: StoreEntry) -> FileModel {
    FileModel { chunks: e.chunks@.map_values(|c: ChunkMetadata| chunk_model(c)), bytes: e.bytes@ }
}

/// With unique keys, the entry found at index `i` is the one the model sees.
proof fn lemma_entry_at(entries: Seq<StoreEntry>, k: (usize, Seq<char>), i: int)
    requires
        forall|p: int, q: int|
            0 <= p < q < entries.len() ==> key_of(#[trigger] entries[p]) != key_of(
                #[trigger] entries[q],
            ),
        0 <= i < entries.len(),
        key_of(entries[i]) == k,
    ensures
        spec_has_key(entries, k),
        spec_entry_at(entries, k) == entries[i],
{
    assert(spec_has_key(entries, k));
    let j = choose|j: int| 0 <= j < entries.len() && key_of(#[trigger] entries[j]) == k;
    if i != j {
        if i < j {
            assert(key_of(entries[i]) != key_of(entries[j]));
        } else {
            assert(key_of(entries[j]) != key_of(entries[i]));
        }
    }
}

/// Append-only, per-(layer, component) chunked tensor storage with an
/// in-memory metadata index. The verified core holds each key's full byte
/// stream; an unverified backend mirrors those appends to one file per key
/// and is responsible for durability.
pub struct ActivationStorage {
    /// One stream per key; keys are unique.
    entries: Vec<StoreEntry>,
    /// The allow-lists and backend settings this store was built with.
    pub config: StreamingConfig,
}

impl ActivationStorage {
    /// The configuration the store was built with.
    pub closed spec fn spec_config(&self) -> StreamingConfig {
        self.config
    }

    /// Structural invariant: unique keys and well-formed entries.
    pub closed spec fn wf(&self) -> bool {
        &&& forall|p: int, q: int|
            0 <= p < q < self.entries@.len() ==> key_of(#[trigger] self.entries@[p]) != key_of(
                #[trigger] self.entries@[q],
            )
        &&& forall|i: int| 0 <= i < self.entries@.len() ==> entry_wf(#[trigger] self.entries@[i])
    }

    /// The ghost image of the store: a map from keys to streams.
    pub closed spec fn view(&self) -> StorageModel {
        StorageModel {
            files: Map::new(
                |k: (usize, Seq<char>)| spec_has_key(self.entries@, k),
                |k: (usize, Seq<char>)| file_of(spec_entry_at(self.entries@, k)),
            ),
        }
    }

    /// Create an empty store with the given configuration.
    pub fn new(config: StreamingConfig) -> (r: ActivationStorage)
        ensures
            r.wf(),
            r.view().files == Map::<(usize, Seq<char>), FileModel>::empty(),
            r.spec_total_size() == 0,
            r.spec_config() == config,
    {
        let r = ActivationStorage { entries: Vec::new(), config };
        proof {
            assert(r.view().files =~= Map::<(usize, Seq<char>), FileModel>::empty());
        }
        r
    }

    /// Index of the entry serving `(layer, component)`, if any.
    fn find_entry(&self, layer: usize, component: &String) -> (r: Option<usize>)
        requires
            self.wf(),
        ensures
            match r {
                Some(i) => i < self.entries@.len() && key_of(self.entries@[i as int]) == (
                    layer,
                    component@,
                ),
                None => !spec_has_key(self.entries@, (layer, component@)),
            },
    {
        let mut i: usize = 0;
        while i < self.entries.len()
            invariant
                i <= self.entries@.len(),
                forall|j: int|
                    0 <= j < i ==> key_of(#[trigger] self.entries@[j]) != (layer, component@),
            decreases self.entries@.len() - i,
        {
            if self.entries[i].layer == layer && self.entries[i].component == *component {
                return Some(i);
            }
            i = i + 1;
        }
        None
    }

    /// Store one tensor under `(layer, component)`: its serialized bytes are
    /// appended to the key's stream and one chunk record is added, pointing
    /// at exactly that region. A pair outside the configured allow-lists is
    /// silently ignored: no stream is touched, no metadata entry appears, and
    /// no error is raised.
    pub fn store(
        &mut self,
        layer: usize,
        component: &str,
        data: &Tensor,
        token_range: (usize, usize),
    ) -> (r: Result<(), MicroscopeError>)
        requires
            old(self).wf(),
            data.wf(),
        ensures
            final(self).wf(),
            final(self).spec_config() == old(self).spec_config(),
            r is Ok,
            !old(self).spec_config().spec_captures(layer, component@) ==> final(self).view()
                == old(self).view() && final(self).spec_total_size()
                == old(self).spec_total_size(),
            old(self).spec_config().spec_captures(layer, component@) ==> final(self).view()
                == spec_store(
                old(self).view(),
                layer,
                component@,
                data.shape@,
                data.data@,
                token_range,
            ) && final(self).spec_total_size() == old(self).spec_total_size() + 4
                * data.data@.len(),
    {
        if self.config.capture_layers.len() > 0 && !contains_usize(
            &self.config.capture_layers,
            layer,
        ) {
            return Ok(());
        }
        let comp_owned: String = component.to_owned();
        if !contains_component(&self.config.capture_components, &comp_owned) {
            return Ok(());
        }

        let ghost k = (layer, component@);
        let ghost entries0 = self.entries@;
        let ghost m0 = self.view();
        let ghost f0 = spec_file_or_empty(m0, k);

        let bytes = data.to_le_bytes();
        let idx: usize = match self.find_entry(layer, &comp_owned) {
            Some(i) => {
                proof {
                    lemma_entry_at(entries0, k, i as int);
                }
                i
            },
            None => {
                let e = StoreEntry {
                    layer,
                    component: comp_owned.clone(),
                    chunks: Vec::new(),
                    bytes: Vec::new(),
                };
                self.entries.push(e);
                self.entries.len() - 1
            },
        };
        let ghost pre = self.entries@;
        proof {
            // In both branches: the entry at `idx` serves `k`, its current
            // contents are the old stream under `k`, all other entries are
            // unchanged, and keys are still unique.
            assert(idx < pre.len());
            assert(key_of(pre[idx as int]) == k);
            assert(pre[idx as int].chunks@.map_values(|c: ChunkMetadata| chunk_model(c))
                =~= f0.chunks);
            assert(pre[idx as int].bytes@ == f0.bytes);
            assert(forall|j: int| 0 <= j < pre.len() && j != idx ==> pre[j] == entries0[j]);
            assert(forall|p: int, q: int|
                0 <= p < q < pre.len() ==> key_of(#[trigger] pre[p]) != key_of(
                    #[trigger] pre[q],
                ));
        }
        let offset_u64: u64 = self.entries[idx].bytes.len() as u64;
        let size = bytes.len();
        let meta = ChunkMetadata {
            layer,
            component: comp_owned,
            shape: data.shape.clone(),
            dtype: "f32".to_owned(),
            offset: offset_u64,
            size_bytes: size,
            token_range,
        };
        let ghost meta_g = meta;
        let e = &mut self.entries[idx];
        let mut tmp = bytes;
        e.bytes.append(&mut tmp);
        e.chunks.push(meta);
        proof {
            let entries1 = self.entries@;
            let target = spec_store(m0, layer, component@, data.shape@, data.data@, token_range);
            let ch = ChunkModel {
                shape: data.shape@,
                offset: f0.bytes.len() as int,
                size: 4 * data.data@.len() as int,
                token_range,
            };
            assert(meta_g.shape@ =~= data.shape@);
            assert(chunk_model(meta_g) == ch);
            assert(entries1 == pre.update(idx as int, entries1[idx as int]));
            let e1 = entries1[idx as int];
            assert(e1.chunks@ == pre[idx as int].chunks@.push(meta_g));
            assert(e1.bytes@ == f0.bytes + spec_le_bytes(data.data@));
            assert(key_of(e1) == k);

            // Keys stay unique.
            assert forall|p: int, q: int| 0 <= p < q < entries1.len() implies key_of(
                #[trigger] entries1[p],
            ) != key_of(#[trigger] entries1[q]) by {
                assert(key_of(entries1[p]) == key_of(pre[p]));
                assert(key_of(entries1[q]) == key_of(pre[q]));
            }

            // Every entry is still well-formed.
            assert forall|i: int| 0 <= i < entries1.len() implies entry_wf(
                #[trigger] entries1[i],
            ) by {
                if i == idx {
                    assert forall|j: int| 0 <= j < e1.chunks@.len() implies chunk_wf(
                        #[trigger] e1.chunks@[j],
                        e1.bytes@.len() as int,
                    ) by {
                        if j < pre[idx as int].chunks@.len() {
                            assert(entry_wf(pre[idx as int]));
                            assert(chunk_wf(
                                pre[idx as int].chunks@[j],
                                pre[idx as int].bytes@.len() as int,
                            ));
                        } else {
                            assert(e1.chunks@[j] == meta_g);
                        }
                    }
                    assert forall|j: int| 0 <= j < e1.chunks@.len() implies (
                    #[trigger] e1.chunks@[j]).layer == e1.layer && e1.chunks@[j].component@
                        == e1.component@ by {
                        if j < pre[idx as int].chunks@.len() {
                            assert(entry_wf(pre[idx as int]));
                        }
                    }
                } else {
                    assert(entries1[i] == pre[i]);
                    if i < entries0.len() {
                        assert(pre[i] == entries0[i]);
                        assert(entry_wf(entries0[i]));
                    }
                }
            }

            // The model moved exactly as `spec_store` says.
            lemma_entry_at(entries1, k, idx as int);
            assert(file_of(e1).chunks =~= f0.chunks.push(ch));
            assert(file_of(e1) == target.files[k]);
            assert forall|k2: (usize, Seq<char>)|
                self.view().files.contains_key(k2) <==> target.files.contains_key(k2) by {
                if k2 == k {
                    assert(spec_has_key(entries1, k));
                } else {
                    if spec_has_key(entries1, k2) {
                        let j = choose|j: int|
                            0 <= j < entries1.len() && key_of(#[trigger] entries1[j]) == k2;
                        assert(j != idx);
                        assert(pre[j] == entries0[j] && j < entries0.len());
                        assert(spec_has_key(entries0, k2));
                    }
                    if spec_has_key(entries0, k2) {
                        let j = choose|j: int|
                            0 <= j < entries0.len() && key_of(#[trigger] entries0[j]) == k2;
                        assert(entries1[j] == entries0[j]);
                        assert(spec_has_key(entries1, k2));
                    }
                }
            }
            assert forall|k2: (usize, Seq<char>)|
                self.view().files.contains_key(k2) implies self.view().files[k2]
                == target.files[k2] by {
                if k2 == k {
                    assert(self.view().files[k2] == file_of(spec_entry_at(entries1, k)));
                } else {
                    let j = choose|j: int|
                        0 <= j < entries1.len() && key_of(#[trigger] entries1[j]) == k2;
                    assert(j != idx);
                    assert(pre[j] == entries0[j] && j < entries0.len());
                    lemma_entry_at(entries1, k2, j);
                    lemma_entry_at(entries0, k2, j);
                    assert(self.view().files[k2] == file_of(entries1[j]));
                    assert(target.files[k2] == m0.files[k2]);
                    assert(m0.files[k2] == file_of(entries0[j]));
                }
            }
            assert(self.view().files =~= target.files);

            // The running total grows by exactly the appended bytes.
            assert(spec_chunks_size(e1.chunks@) == spec_chunks_size(pre[idx as int].chunks@)
                + meta_g.size_bytes) by {
                assert(e1.chunks@.take(e1.chunks@.len() - 1) =~= pre[idx as int].chunks@);
            }
            if pre.len() == entries0.len() {
                assert(pre == entries0);
            } else {
                assert(spec_chunks_size(pre[pre.len() - 1].chunks@) == 0);
                assert(pre.take(pre.len() - 1) =~= entries0);
                assert(spec_entries_size(pre) == spec_entries_size(entries0));
            }
            lemma_entries_size_update(pre, idx as int, e1);
        }
        Ok(())
    }

    /// Load one stored chunk: look the key and index up in the metadata
    /// index, slice exactly the recorded byte region out of the stream,
    /// decode it, and rebuild the tensor under the stored shape.
    pub fn load(&self, layer: usize, component: &str, chunk_idx: usize) -> (r: Result<
        Tensor,
        MicroscopeError,
    >)
        requires
            self.wf(),
        ensures
            match spec_load(self.view(), layer, component@, chunk_idx as int) {
                Ok(sw) => r matches Ok(t) && t.shape@ == sw.0 && t.data@ == sw.1 && t.wf(),
                Err(e) => r == Err::<Tensor, MicroscopeError>(e),
            },
    {
        let ghost k = (layer, component@);
        let comp_owned: String = component.to_owned();
        let idx = match self.find_entry(layer, &comp_owned) {
            Some(i) => i,
            None => {
                return Err(MicroscopeError::KeyNotFound { layer });
            },
        };
        proof {
            lemma_entry_at(self.entries@, k, idx as int);
        }
        let e = &self.entries[idx];
        if chunk_idx >= e.chunks.len() {
            return Err(
                MicroscopeError::ChunkIndexOutOfRange {
                    chunk_index: chunk_idx,
                    available: e.chunks.len(),
                },
            );
        }
        let ch = &e.chunks[chunk_idx];
        let blen = e.bytes.len();
        proof {
            assert(entry_wf(*e));
            assert(chunk_wf(e.chunks@[chunk_idx as int], e.bytes@.len() as int));
            assert(ch.offset + ch.size_bytes <= blen);
        }
        let off = ch.offset as usize;
        let seg = vstd::slice::slice_subrange(e.bytes.as_slice(), off, off + ch.size_bytes);
        let words = crate::tensor::words_from_le_bytes(seg);
        let shape = ch.shape.clone();
        proof {
            assert(shape@ =~= ch.shape@);
        }
        let t = Tensor { shape, data: words };
        proof {
            let fm = self.view().files[k];
            let cm = fm.chunks[chunk_idx as int];
            assert(cm == chunk_model(e.chunks@[chunk_idx as int]));
            assert(fm.bytes.subrange(cm.offset, cm.offset + cm.size) =~= seg@);
            assert(t.wf());
        }
        Ok(t)
    }

    /// All chunk metadata recorded for `(layer, component)`, in arrival
    /// order, if anything was stored under that key.
    pub fn get_metadata(&self, layer: usize, component: &str) -> (r: Option<&Vec<ChunkMetadata>>)
        requires
            self.wf(),
        ensures
            match r {
                Some(chunks) => {
                    let k = (layer, component@);
                    &&& self.view().files.contains_key(k)
                    &&& chunks@.map_values(|c: ChunkMetadata| chunk_model(c))
                        == self.view().files[k].chunks
                    &&& chunks@.len() >= 1
                    &&& forall|i: int|
                        0 <= i < chunks@.len() ==> (#[trigger] chunks@[i]).layer == layer
                            && chunks@[i].component@ == component@ && chunks@[i].dtype@ == "f32"@
                },
                None => !self.view().files.contains_key((layer, component@)),
            },
    {
        let comp_owned: String = component.to_owned();
        match self.find_entry(layer, &comp_owned) {
            Some(i) => {
                proof {
                    lemma_entry_at(self.entries@, (layer, component@), i as int);
                    assert(entry_wf(self.entries@[i as int]));
                }
                Some(&self.entries[i].chunks)
            },
            None => None,
        }
    }

    /// Total bytes recorded across every chunk of every key, saturating at
    /// the machine word.
    pub fn total_size_bytes(&self) -> (r: usize)
        ensures
            r as int == if self.spec_total_size() <= usize::MAX as int {
                self.spec_total_size()
            } else {
                usize::MAX as int
            },
    {
        let mut total: usize = 0;
        let mut i: usize = 0;
        while i < self.entries.len()
            invariant
                i <= self.entries@.len(),
                total as int == if spec_entries_size(self.entries@.take(i as int)) <= usize::MAX
                    as int {
                    spec_entries_size(self.entries@.take(i as int))
                } else {
                    usize::MAX as int
                },
            decreases self.entries@.len() - i,
        {
            let chunks = &self.entries[i].chunks;
            let mut j: usize = 0;
            let ghost done = spec_entries_size(self.entries@.take(i as int));
            while j < chunks.len()
                invariant
                    j <= chunks@.len(),
                    spec_entries_size(self.entries@.take(i as int)) == done,
                    total as int == if done + spec_chunks_size(chunks@.take(j as int))
                        <= usize::MAX as int {
                        done + spec_chunks_size(chunks@.take(j as int))
                    } else {
                        usize::MAX as int
                    },
                decreases chunks@.len() - j,
            {
                proof {
                    lemma_chunks_size_take(chunks@, j as int);
                }
                total = total.saturating_add(chunks[j].size_bytes);
                j = j + 1;
            }
            proof {
                assert(chunks@.take(chunks@.len() as int) =~= chunks@);
                lemma_entries_size_take(self.entries@, i as int);
            }
            i = i + 1;
        }
        proof {
            assert(self.entries@.take(self.entries@.len() as int) =~= self.entries@);
        }
        total
    }

    /// Total bytes recorded across every chunk of every key.
    pub closed spec fn spec_total_size(&self) -> int {
        spec_entries_size(self.entries@)
    }

    /// Layers with stored data, in ascending order without duplicates.
    pub fn available_layers(&self) -> (r: Vec<usize>)
        requires
            self.wf(),
        ensures
            forall|p: int, q: int| 0 <= p < q < r@.len() ==> r@[p] < r@[q],
            forall|l: usize| r@.contains(l) <==> spec_has_layer(self.view(), l),
    {
        let mut r: Vec<usize> = Vec::new();
        let mut i: usize = 0;
        while i < self.entries.len()
            invariant
                i <= self.entries@.len(),
                forall|p: int, q: int| 0 <= p < q < r@.len() ==> r@[p] < r@[q],
                forall|l: usize|
                    r@.contains(l) <==> exists|j: int|
                        0 <= j < i && (#[trigger] self.entries@[j]).layer == l,
            decreases self.entries@.len() - i,
        {
            let l = self.entries[i].layer;
            insert_sorted_unique(&mut r, l);
            i = i + 1;
        }
        proof {
            assert forall|l: usize| r@.contains(l) <==> spec_has_layer(self.view(), l) by {
                if r@.contains(l) {
                    let j = choose|j: int|
                        0 <= j < self.entries@.len() && (#[trigger] self.entries@[j]).layer == l;
                    assert(spec_has_key(self.entries@, key_of(self.entries@[j])));
                    assert(self.view().files.contains_key(key_of(self.entries@[j])));
                }
                if spec_has_layer(self.view(), l) {
                    let k2 = choose|k2: (usize, Seq<char>)|
                        #[trigger] self.view().files.contains_key(k2) && k2.0 == l;
                    let j = choose|j: int|
                        0 <= j < self.entries@.len() && key_of(#[trigger] self.entries@[j]) == k2;
                    assert(self.entries@[j].layer == l);
                }
            }
        }
        r
    }

    /// Release every stream and clear the metadata index and offsets,
    /// returning the store to its just-constructed state. (The unverified
    /// backend deletes the mirrored files at the same time.) Calling it on an
    /// already clean store is a no-op.
    pub fn cleanup(&mut self) -> (r: Result<(), MicroscopeError>)
        requires
            old(self).wf(),
        ensures
            final(self).wf(),
            r is Ok,
            final(self).view() == spec_cleanup(old(self).view()),
            final(self).spec_config() == old(self).spec_config(),
            final(self).spec_total_size() == 0,
            forall|layer: usize| !spec_has_layer(final(self).view(), layer),
    {
        self.entries.clear();
        proof {
            assert(self.view().files =~= Map::<(usize, Seq<char>), FileModel>::empty());
        }
        Ok(())
    }

    /// Make everything recorded so far durable before a separate reader may
    /// load it. The verified core always holds the full streams, so this
    /// changes nothing here; the unverified backend flushes its files at the
    /// same point.
    pub fn flush(&mut self) -> (r: Result<(), MicroscopeError>)
        requires
            old(self).wf(),
        ensures
            *final(self) == *old(self),
            r is Ok,
    {
        Ok(())
    }
}

/// Sum of the recorded chunk sizes of one entry's directory.
spec fn spec_chunks_size(chunks: Seq<ChunkMetadata>) -> int
    decreases chunks.len(),
{
    if chunks.len() == 0 {
        0
    } else {
        spec_chunks_size(chunks.take(chunks.len() - 1)) + chunks[chunks.len() - 1].size_bytes
    }
}

/// Sum of the recorded chunk sizes over a sequence of entries.
spec fn spec_entries_size(entries: Seq<StoreEntry>) -> int
    decreases entries.len(),
{
    if entries.len() == 0 {
        0
    } else {
        spec_entries_size(entries.take(entries.len() - 1)) + spec_chunks_size(
            entries[entries.len() - 1].chunks@,
        )
    }
}

/// Chunk sums grow one chunk at a time.
proof fn lemma_chunks_size_take(chunks: Seq<ChunkMetadata>, j: int)
    requires
        0 <= j < chunks.len(),
    ensures
        spec_chunks_size(chunks.take(j + 1)) == spec_chunks_size(chunks.take(j)) + chunks[j].size_bytes,
{
    let t = chunks.take(j + 1);
    assert(t.take(t.len() - 1) =~= chunks.take(j));
    assert(t[t.len() - 1] == chunks[j]);
}

/// Entry sums grow one entry at a time.
proof fn lemma_entries_size_take(entries: Seq<StoreEntry>, i: int)
    requires
        0 <= i < entries.len(),
    ensures
        spec_entries_size(entries.take(i + 1)) == spec_entries_size(entries.take(i))
            + spec_chunks_size(entries[i].chunks@),
{
    let t = entries.take(i + 1);
    assert(t.take(t.len() - 1) =~= entries.take(i));
    assert(t[t.len() - 1] == entries[i]);
}

/// Replacing one entry changes the sum by the difference of its chunk sums.
proof fn lemma_entries_size_update(s: Seq<StoreEntry>, i: int, e: StoreEntry)
    requires
        0 <= i < s.len(),
    ensures
        spec_entries_size(s.update(i, e)) == spec_entries_size(s) - spec_chunks_size(s[i].chunks@)
            + spec_chunks_size(e.chunks@),
    decreases s.len(),
{
    let s1 = s.update(i, e);
    if i == s.len() - 1 {
        assert(s1.take(s1.len() - 1) =~= s.take(s.len() - 1));
        assert(s1[s1.len() - 1] == e);
    } else {
        assert(s1.take(s1.len() - 1) =~= s.take(s.len() - 1).update(i, e));
        assert(s1[s1.len() - 1] == s[s.len() - 1]);
        lemma_entries_size_update(s.take(s.len() - 1), i, e);
        assert(s.take(s.len() - 1)[i] == s[i]);
    }
}

/// Insert `x` into a strictly ascending vector, keeping it strictly
/// ascending; no effect when `x` is already present.
fn insert_sorted_unique(v: &mut Vec<usize>, x: usize)
    requires
        forall|p: int, q: int| 0 <= p < q < old(v)@.len() ==> old(v)@[p] < old(v)@[q],
    ensures
        forall|p: int, q: int| 0 <= p < q < final(v)@.len() ==> final(v)@[p] < final(v)@[q],
        forall|l: usize| final(v)@.contains(l) <==> (old(v)@.contains(l) || l == x),
{
    let mut p: usize = 0;
    while p < v.len() && v[p] < x
        invariant
            p <= v@.len(),
            v@ == old(v)@,
            forall|q: int| 0 <= q < p ==> v@[q] < x,
        decreases v@.len() - p,
    {
        p = p + 1;
    }
    if p < v.len() {
        let vp = v[p];
        if vp == x {
            proof {
                assert(v@.contains(x));
                assert forall|l: usize| v@.contains(l) <==> (old(v)@.contains(l) || l == x) by {}
            }
            return ;
        }
    }
    v.insert(p, x);
    proof {
        let w = v@;
        let o = old(v)@;
        assert(w == o.insert(p as int, x));
        assert forall|a: int, b: int| 0 <= a < b < w.len() implies w[a] < w[b] by {
            if a < p && b > p {
                assert(o[a] == w[a] && o[b - 1] == w[b]);
            } else if a == p {
                assert(w[b] == o[b - 1]);
                assert(o[b - 1] >= o[p as int]);
                assert(o[p as int] > x || o[p as int] == x);
            } else if b == p {
                assert(w[a] == o[a]);
            }
        }
        assert forall|l: usize| w.contains(l) <==> (o.contains(l) || l == x) by {
            if w.contains(l) {
                let a = choose|a: int| 0 <= a < w.len() && w[a] == l;
                if a < p {
                    assert(o[a] == l);
                } else if a > p {
                    assert(o[a - 1] == l);
                }
            }
            if o.contains(l) {
                let a = choose|a: int| 0 <= a < o.len() && o[a] == l;
                if a < p {
                    assert(w[a] == l);
                } else {
                    assert(w[a + 1] == l);
                }
            }
            if l == x {
                assert(w[p as int] == x);
            }
        }
    }
}

/// Whether `v` holds a string whose characters are those of `x`.
fn contains_component(v: &Vec<String>, x: &String) -> (r: bool)
    ensures
        r == exists|i: int| 0 <= i < v@.len() && v@[i]@ == x@,
{
    let mut i: usize = 0;
    while i < v.len()
        invariant
            i <= v.len(),
            forall|j: int| 0 <= j < i ==> v@[j]@ != x@,
        decreases v.len() - i,
    {
        if v[i] == *x {
            return true;
        }
        i = i + 1;
    }
    false
}

/// Position of the `i`-th element of a window that starts at `start` in a
/// circular array of `len` slots.
pub open spec fn wrap_index(start: int, i: int, len: int) -> int {
    if start + i < len {
        start + i
    } else {
        start + i - len
    }
}

/// The contents of a sliding window of capacity `cap` after one more push:
/// the new tensor enters at the back and the oldest falls out once the
/// window is full.
pub open spec fn spec_window_push(window: Seq<Tensor>, cap: int, t: Tensor) -> Seq<Tensor> {
    if window.len() < cap {
        window.push(t)
    } else {
        window.skip(1).push(t)
    }
}

/// The window contents after pushing every tensor of `ts` in order.
pub open spec fn spec_window_push_all(window: Seq<Tensor>, cap: int, ts: Seq<Tensor>) -> Seq<
    Tensor,
>
    decreases ts.len(),
{
    if ts.len() == 0 {
        window
    } else {
        spec_window_push_all(spec_window_push(window, cap, ts[0]), cap, ts.skip(1))
    }
}

/// The most recent `n` tensors of a window, most recently pushed first.
pub open spec fn spec_recent(window: Seq<Tensor>, n: int) -> Seq<Tensor> {
    let m = if n <= window.len() {
        n
    } else {
        window.len() as int
    };
    Seq::new(m as nat, |i: int| window[window.len() - 1 - i])
}

/// After pushing `ts` into a window that holds `window` (no more than the
/// capacity), the window holds the last `cap` items of `window + ts`.
pub proof fn lemma_window_push_all_suffix(window: Seq<Tensor>, cap: int, ts: Seq<Tensor>)
    requires
        1 <= cap,
        window.len() <= cap,
    ensures
        ({
            let all = window + ts;
            let dropped = if all.len() <= cap {
                0int
            } else {
                all.len() - cap
            };
            spec_window_push_all(window, cap, ts) == all.skip(dropped)
        }),
    decreases ts.len(),
{
    let all = window + ts;
    let dropped = if all.len() <= cap {
        0int
    } else {
        all.len() - cap
    };
    if ts.len() == 0 {
        assert(all =~= window);
        assert(all.skip(0) =~= all);
    } else {
        let w1 = spec_window_push(window, cap, ts[0]);
        lemma_window_push_all_suffix(w1, cap, ts.skip(1));
        let all1 = w1 + ts.skip(1);
        let dropped1 = if all1.len() <= cap {
            0int
        } else {
            all1.len() - cap
        };
        if window.len() < cap {
            assert(all1 =~= all);
        } else {
            assert(all1 =~= all.skip(1));
            assert(all.skip(1).skip(dropped1) =~= all.skip(1 + dropped1));
        }
    }
}

/// Ring buffer recency law: pushing `v0, …, v(k-1)` into an empty window of
/// capacity `c < k` and asking for the `c` most recent tensors yields
/// `v(k-1), v(k-2), …, v(k-c)`, in that order.
pub proof fn lemma_ring_recency(ts: Seq<Tensor>, cap: int)
    requires
        1 <= cap < ts.len(),
    ensures
        ({
            let window = spec_window_push_all(Seq::<Tensor>::empty(), cap, ts);
            let r = spec_recent(window, cap);
            &&& r.len() == cap
            &&& forall|i: int| 0 <= i < cap ==> r[i] == ts[ts.len() - 1 - i]
        }),
{
    lemma_window_push_all_suffix(Seq::<Tensor>::empty(), cap, ts);
    let window = spec_window_push_all(Seq::<Tensor>::empty(), cap, ts);
    assert(Seq::<Tensor>::empty() + ts =~= ts);
    let k = ts.len() as int;
    assert(window == ts.skip(k - cap));
    let r = spec_recent(window, cap);
    assert forall|i: int| 0 <= i < cap implies r[i] == ts[k - 1 - i] by {
        assert(r[i] == window[window.len() - 1 - i]);
        assert(window[cap - 1 - i] == ts[k - cap + (cap - 1 - i)]);
    }
}

/// A fixed-capacity circular buffer holding the most recent tensors pushed
/// for one (layer, component) pair. Single-owner access is assumed; there is
/// no internal synchronization.
pub struct ActivationRingBuffer {
    /// One optional slot per capacity unit; overwritten, never freed.
    buffer: Vec<Option<Tensor>>,
    /// Next slot to write.
    write_pos: usize,
    /// Occupied slots; saturates at the capacity.
    count: usize,
    /// Layer this buffer serves.
    layer: usize,
    /// Component this buffer serves.
    component: String,
}

impl ActivationRingBuffer {
    /// Fixed number of slots, chosen at construction.
    pub closed spec fn spec_capacity(&self) -> int {
        self.buffer@.len() as int
    }

    /// Layer this buffer serves.
    pub closed spec fn spec_layer(&self) -> int {
        self.layer as int
    }

    /// Component this buffer serves.
    pub closed spec fn spec_component(&self) -> Seq<char> {
        self.component@
    }

    /// Slot holding the oldest tensor of the window.
    spec fn spec_start(&self) -> int {
        if self.count < self.buffer@.len() {
            0
        } else {
            self.write_pos as int
        }
    }

    /// Structural invariant: at least one slot, a cursor inside the array, a
    /// saturating count, an unwrapped cursor while the window is filling, and
    /// an occupied slot behind every window position.
    pub closed spec fn wf(&self) -> bool {
        &&& self.buffer@.len() >= 1
        &&& self.count <= self.buffer@.len()
        &&& (self.write_pos as int) < self.buffer@.len()
        &&& (self.count < self.buffer@.len() ==> self.write_pos == self.count)
        &&& forall|i: int|
            0 <= i < self.count ==> self.buffer@[wrap_index(
                self.spec_start(),
                i,
                self.buffer@.len() as int,
            )] is Some
    }

    /// The tensors currently held, oldest first.
    pub closed spec fn view(&self) -> Seq<Tensor> {
        Seq::new(
            self.count as nat,
            |i: int|
                self.buffer@[wrap_index(self.spec_start(), i, self.buffer@.len() as int)]->0,
        )
    }

    /// Create an empty buffer of `capacity` slots for the given key.
    pub fn new(capacity: usize, layer: usize, component: String) -> (r: ActivationRingBuffer)
        requires
            capacity >= 1,
        ensures
            r.wf(),
            r.view() == Seq::<Tensor>::empty(),
            r.spec_capacity() == capacity,
            r.spec_layer() == layer,
            r.spec_component() == component@,
    {
        let mut buffer: Vec<Option<Tensor>> = Vec::new();
        let mut i: usize = 0;
        while i < capacity
            invariant
                i <= capacity,
                buffer@.len() == i,
            decreases capacity - i,
        {
            buffer.push(None);
            i = i + 1;
        }
        let r = ActivationRingBuffer { buffer, write_pos: 0, count: 0, layer, component };
        assert(r.view() =~= Seq::<Tensor>::empty());
        r
    }

    /// Write into the slot at the cursor, discarding whatever was there,
    /// advance the cursor with wrap-around, and saturate the count.
    pub fn push(&mut self, activation: Tensor)
        requires
            old(self).wf(),
        ensures
            final(self).wf(),
            final(self).spec_capacity() == old(self).spec_capacity(),
            final(self).spec_layer() == old(self).spec_layer(),
            final(self).spec_component() == old(self).spec_component(),
            final(self).view() == spec_window_push(
                old(self).view(),
                old(self).spec_capacity(),
                activation,
            ),
    {
        let len = self.buffer.len();
        self.buffer[self.write_pos] = Some(activation);
        self.write_pos = if self.write_pos + 1 < len {
            self.write_pos + 1
        } else {
            0
        };
        if self.count < len {
            self.count = self.count + 1;
        }
        proof {
            let cap = old(self).spec_capacity();
            let c = old(self).count as int;
            let wp = old(self).write_pos as int;
            let st0 = old(self).spec_start();
            let st1 = self.spec_start();
            let target = spec_window_push(old(self).view(), cap, activation);
            assert forall|i: int| 0 <= i < self.count implies self.buffer@[wrap_index(
                self.spec_start(),
                i,
                self.buffer@.len() as int,
            )] is Some by {
                assert(self.buffer@.len() == cap);
                if c < cap {
                    // The window grows in place; its start stays at slot zero.
                    assert(st1 == 0 && st0 == 0 && wp == c);
                    if i < c {
                        assert(old(self).buffer@[wrap_index(0, i, cap)] is Some);
                    }
                } else {
                    // The window was full; it slides forward by one slot.
                    if i < c - 1 {
                        assert(wrap_index(st1, i, cap) == wrap_index(st0, i + 1, cap));
                        assert(old(self).buffer@[wrap_index(st0, i + 1, cap)] is Some);
                    } else {
                        assert(wrap_index(st1, i, cap) == wp);
                    }
                }
            }
            assert forall|i: int| 0 <= i < self.count implies self.view()[i] == target[i] by {
                assert(self.buffer@.len() == cap);
                assert(self.view()[i] == self.buffer@[wrap_index(
                    self.spec_start(),
                    i,
                    self.buffer@.len() as int,
                )]->0);
                if c < cap {
                    assert(st1 == 0 && st0 == 0 && wp == c);
                    if i < c {
                        assert(old(self).view()[i] == old(self).buffer@[wrap_index(0, i, cap)]->0);
                    }
                } else {
                    if i < c - 1 {
                        assert(wrap_index(st1, i, cap) == wrap_index(st0, i + 1, cap));
                        assert(old(self).view()[i + 1] == old(self).buffer@[wrap_index(
                            st0,
                            i + 1,
                            cap,
                        )]->0);
                    } else {
                        assert(wrap_index(st1, i, cap) == wp);
                    }
                }
            }
            assert(self.view() =~= target);
        }
    }

    /// The most recent `n` tensors, most recently pushed first; fewer when
    /// the buffer holds fewer.
    pub fn recent(&self, n: usize) -> (r: Vec<&Tensor>)
        requires
            self.wf(),
        ensures
            r@.len() == spec_recent(self.view(), n as int).len(),
            forall|i: int| 0 <= i < r@.len() ==> *r@[i] == spec_recent(self.view(), n as int)[i],
    {
        let m = if n < self.count {
            n
        } else {
            self.count
        };
        let len = self.buffer.len();
        let mut r: Vec<&Tensor> = Vec::new();
        let mut i: usize = 0;
        while i < m
            invariant
                self.wf(),
                i <= m,
                m == if n < self.count {
                    n as int
                } else {
                    self.count as int
                },
                len == self.buffer@.len(),
                r@.len() == i,
                forall|k: int|
                    0 <= k < i ==> *r@[k] == self.view()[self.view().len() - 1 - k],
            decreases m - i,
        {
            let idx = if self.write_pos >= i + 1 {
                self.write_pos - i - 1
            } else {
                len - (i + 1 - self.write_pos)
            };
            proof {
                assert(idx == wrap_index(
                    self.spec_start(),
                    self.count - 1 - i,
                    self.buffer@.len() as int,
                ));
            }
            match &self.buffer[idx] {
                Some(t) => {
                    r.push(t);
                },
                None => {
                    proof {
                        assert(false);
                    }
                },
            }
            i = i + 1;
        }
        r
    }

    /// Every currently held tensor, oldest first.
    pub fn all(&self) -> (r: Vec<&Tensor>)
        requires
            self.wf(),
        ensures
            r@.len() == self.view().len(),
            forall|i: int| 0 <= i < r@.len() ==> *r@[i] == self.view()[i],
    {
        let len = self.buffer.len();
        let start = if self.count < len {
            0
        } else {
            self.write_pos
        };
        let mut r: Vec<&Tensor> = Vec::new();
        let mut i: usize = 0;
        while i < self.count
            invariant
                self.wf(),
                i <= self.count,
                len == self.buffer@.len(),
                start == self.spec_start(),
                r@.len() == i,
                forall|k: int| 0 <= k < i ==> *r@[k] == self.view()[k],
            decreases self.count - i,
        {
            let idx = if i < len - start {
                start + i
            } else {
                i - (len - start)
            };
            proof {
                assert(idx == wrap_index(self.spec_start(), i as int, self.buffer@.len() as int));
            }
            match &self.buffer[idx] {
                Some(t) => {
                    r.push(t);
                },
                None => {
                    proof {
                        assert(false);
                    }
                },
            }
            i = i + 1;
        }
        r
    }

    /// Number of slots.
    pub fn capacity(&self) -> (r: usize)
        ensures
            r == self.spec_capacity(),
    {
        self.buffer.len()
    }

    /// Number of tensors currently held.
    pub fn len(&self) -> (r: usize)
        ensures
            r == self.view().len(),
    {
        self.count
    }

    /// Whether no tensor is held.
    pub fn is_empty(&self) -> (r: bool)
        ensures
            r == (self.view().len() == 0),
    {
        self.count == 0
    }

    /// Empty every slot and reset the cursor and count, keeping the capacity.
    pub fn clear(&mut self)
        requires
            old(self).wf(),
        ensures
            final(self).wf(),
            final(self).view() == Seq::<Tensor>::empty(),
            final(self).spec_capacity() == old(self).spec_capacity(),
            final(self).spec_layer() == old(self).spec_layer(),
            final(self).spec_component() == old(self).spec_component(),
    {
        let len = self.buffer.len();
        let mut i: usize = 0;
        while i < len
            invariant
                i <= len,
                len == self.buffer@.len(),
                self.layer == old(self).layer,
                self.component == old(self).component,
            decreases len - i,
        {
            self.buffer[i] = None;
            i = i + 1;
        }
        self.write_pos = 0;
        self.count = 0;
        proof {
            assert(self.view() =~= Seq::<Tensor>::empty());
        }
    }
}

/// A recommended trade-off between keeping all captured data resident,
/// keeping only selected layers, or streaming everything to disk.
#[derive(Debug, Clone, PartialEq, Eq)]
pub enum CaptureStrategy {
    /// All activations fit in memory.
    InMemory,
    /// Only capture the given layer indices.
    SelectiveLayers(Vec<usize>),
    /// Stream chunks to backing storage.
    Streaming,
}

/// Estimated bytes needed to capture every component of every layer:
/// three components per layer, four bytes per 32-bit element.
pub open spec fn spec_estimate_bytes(
    num_layers: int,
    hidden_size: int,
    batch_size: int,
    seq_len: int,
) -> int {
    num_layers * 3 * batch_size * seq_len * hidden_size * 4
}

/// Keeps the first occurrence of each element of `rest`, in order, after `acc`.
pub open spec fn spec_dedup_from(acc: Seq<usize>, rest: Seq<usize>) -> Seq<usize>
    decreases rest.len(),
{
    if rest.len() == 0 {
        acc
    } else if acc.contains(rest[0]) {
        spec_dedup_from(acc, rest.skip(1))
    } else {
        spec_dedup_from(acc.push(rest[0]), rest.skip(1))
    }
}

/// The key-layer candidates that are valid indices for a model of `n` layers:
/// the first two layers, three layers centered on the midpoint, and the last
/// two layers, in that order, clipped to `0 <= l < n`.
pub open spec fn spec_key_layer_candidates(n: int) -> Seq<usize> {
    let mid = n / 2;
    (if n >= 1 {
        seq![0usize]
    } else {
        Seq::empty()
    }) + (if n >= 2 {
        seq![1usize]
    } else {
        Seq::empty()
    }) + (if mid >= 1 {
        seq![(mid - 1) as usize]
    } else {
        Seq::empty()
    }) + (if mid < n {
        seq![mid as usize]
    } else {
        Seq::empty()
    }) + (if mid + 1 < n {
        seq![(mid + 1) as usize]
    } else {
        Seq::empty()
    }) + (if n >= 2 {
        seq![(n - 2) as usize]
    } else {
        Seq::empty()
    }) + (if n >= 1 {
        seq![(n - 1) as usize]
    } else {
        Seq::empty()
    })
}

/// Key layers for a model of `n` layers: the clipped candidates,
/// deduplicated with the first occurrence kept.
pub open spec fn spec_key_layers(n: int) -> Seq<usize> {
    spec_dedup_from(Seq::empty(), spec_key_layer_candidates(n))
}

/// Advises on a capture strategy from the model's dimensions and a memory
/// budget.
pub struct MemoryEstimator;

impl MemoryEstimator {
    /// Memory needed to capture the three standard components (residual,
    /// attention output, feed-forward output) of every layer, as 32-bit
    /// elements.
    pub fn estimate_full_capture(
        num_layers: usize,
        hidden_size: usize,
        batch_size: usize,
        seq_len: usize,
    ) -> (r: usize)
        requires
            spec_estimate_bytes(
                num_layers as int,
                hidden_size as int,
                batch_size as int,
                seq_len as int,
            ) <= usize::MAX,
        ensures
            r == spec_estimate_bytes(
                num_layers as int,
                hidden_size as int,
                batch_size as int,
                seq_len as int,
            ),
    {
        if num_layers == 0 || hidden_size == 0 || batch_size == 0 || seq_len == 0 {
            assert(spec_estimate_bytes(
                num_layers as int,
                hidden_size as int,
                batch_size as int,
                seq_len as int,
            ) == 0) by (nonlinear_arith)
                requires
                    num_layers == 0 || hidden_size == 0 || batch_size == 0 || seq_len == 0,
            ;
            return 0;
        }
        let ghost total = spec_estimate_bytes(
            num_layers as int,
            hidden_size as int,
            batch_size as int,
            seq_len as int,
        );
        assert(batch_size * seq_len <= total && batch_size * seq_len * hidden_size <= total
            && batch_size * seq_len * hidden_size * 4 <= total && batch_size * seq_len * hidden_size
            * 4 * 3 <= total && batch_size * seq_len * hidden_size * 4 * 3 * num_layers
            == total) by (nonlinear_arith)
            requires
                num_layers >= 1,
                hidden_size >= 1,
                batch_size >= 1,
                seq_len >= 1,
                total == spec_estimate_bytes(
                    num_layers as int,
                    hidden_size as int,
                    batch_size as int,
                    seq_len as int,
                ),
        ;
        let per_component: usize = batch_size * seq_len * hidden_size * 4;
        let per_layer: usize = per_component * 3;
        per_layer * num_layers
    }

    /// Suggest a capture strategy for a model, using the estimated footprint
    /// at batch size 1 and sequence length 1024 as a representative figure:
    /// keep everything resident below the limit, capture only key layers below
    /// four times the limit, and stream to storage otherwise.
    pub fn suggest_strategy(
        num_layers: usize,
        hidden_size: usize,
        memory_limit_bytes: u64,
    ) -> (r: CaptureStrategy)
        requires
            spec_estimate_bytes(num_layers as int, hidden_size as int, 1, 1024) <= usize::MAX,
        ensures
            ({
                let est = spec_estimate_bytes(num_layers as int, hidden_size as int, 1, 1024);
                &&& est < memory_limit_bytes ==> r == CaptureStrategy::InMemory
                &&& memory_limit_bytes <= est < memory_limit_bytes * 4 ==> (r matches
                CaptureStrategy::SelectiveLayers(v) && v@ == spec_key_layers(num_layers as int))
                &&& est >= memory_limit_bytes * 4 ==> r == CaptureStrategy::Streaming
            }),
    {
        let full_mem = Self::estimate_full_capture(num_layers, hidden_size, 1, 1024);
        if (full_mem as u64) < memory_limit_bytes {
            CaptureStrategy::InMemory
        } else if (full_mem as u128) < (memory_limit_bytes as u128) * 4 {
            CaptureStrategy::SelectiveLayers(Self::key_layers(num_layers))
        } else {
            CaptureStrategy::Streaming
        }
    }

    /// Key layers worth capturing when memory does not allow every layer:
    /// the first two, three around the midpoint, and the last two, clipped
    /// to valid indices and deduplicated.
    pub fn key_layers(num_layers: usize) -> (r: Vec<usize>)
        ensures
            r@ == spec_key_layers(num_layers as int),
    {
        let ghost n = num_layers as int;
        let mid = num_layers / 2;
        let mut cands: Vec<usize> = Vec::new();
        if num_layers >= 1 {
            cands.push(0);
        }
        if num_layers >= 2 {
            cands.push(1);
        }
        if mid >= 1 {
            cands.push(mid - 1);
        }
        if mid < num_layers {
            cands.push(mid);
        }
        if mid + 1 < num_layers {
            cands.push(mid + 1);
        }
        if num_layers >= 2 {
            cands.push(num_layers - 2);
        }
        if num_layers >= 1 {
            cands.push(num_layers - 1);
        }
        assert(cands@ =~= spec_key_layer_candidates(n));

        let mut result: Vec<usize> = Vec::new();
        let mut i: usize = 0;
        assert(cands@.skip(0) =~= cands@);
        while i < cands.len()
            invariant
                i <= cands.len(),
                spec_dedup_from(Seq::empty(), cands@) == spec_dedup_from(
                    result@,
                    cands@.skip(i as int),
                ),
            decreases cands.len() - i,
        {
            let ghost rest = cands@.skip(i as int);
            assert(rest[0] == cands@[i as int]);
            assert(rest.skip(1) =~= cands@.skip(i as int + 1));
            if !contains_usize(&result, cands[i]) {
                result.push(cands[i]);
            }
            i = i + 1;
        }
        assert(cands@.skip(cands@.len() as int) =~= Seq::<usize>::empty());
        result
    }
}

/// Whether `v` holds the value `x`.
fn contains_usize(v: &Vec<usize>, x: usize) -> (r: bool)
    ensures
        r == v@.contains(x),
{
    let mut i: usize = 0;
    while i < v.len()
        invariant
            i <= v.len(),
            forall|k: int| 0 <= k < i ==> v@[k] != x,
        decreases v.len() - i,
    {
        if v[i] == x {
            return true;
        }
        i = i + 1;
    }
    false
}

} // verus!
