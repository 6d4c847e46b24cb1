//! The weights of one model, loaded from a bundle of named tensors.

use crate::bundle::{bundle_tensors, lookup, stored, EntryView};
use crate::config::LlamaConfigJson;
use crate::decode::{decodes, entry_failure, float_dtype, tensor_from_entry};
use crate::error::{LoadError, LoadErrorView};
use crate::names::{decimal, head_key, layer_key, layer_key_string, norm_key, LayerWeight};
use crate::tensor::Tensor;
use safetensors::SafeTensors;
use vstd::prelude::*;

verus! {

/// The weights of a decoder-only transformer. Each per-layer field has one
/// tensor for each layer, in layer order.
pub struct LLamaParams<T> {
    /// The token embedding table, `(vocab_size, hidden_size)`.
    pub embedding_table: Tensor<T>,
    /// Normalisation weights before attention, `(hidden_size,)` each.
    pub rms_att_w: Vec<Tensor<T>>,
    /// Query projections.
    pub wq: Vec<Tensor<T>>,
    /// Key projections.
    pub wk: Vec<Tensor<T>>,
    /// Value projections.
    pub wv: Vec<Tensor<T>>,
    /// Projections of the attention output.
    pub wo: Vec<Tensor<T>>,
    /// Normalisation weights before the feed-forward block.
    pub rms_ffn_w: Vec<Tensor<T>>,
    /// Up projections of the feed-forward block.
    pub w_up: Vec<Tensor<T>>,
    /// Gating projections of the feed-forward block.
    pub w_gate: Vec<Tensor<T>>,
    /// Down projections of the feed-forward block.
    pub w_down: Vec<Tensor<T>>,
    /// The final normalisation weight, `(hidden_size,)`.
    pub rms_out_w: Tensor<T>,
    /// The output projection, `(vocab_size, hidden_size)`.
    pub lm_head: Tensor<T>,
}

/// The keys of one weight in every layer, in layer order.
pub open spec fn layer_keys(weight: LayerWeight, layers: nat) -> Seq<Seq<char>> {
    Seq::new(layers, |i: int| layer_key(i as nat, weight))
}

/// Every key that loading a model of `layers` layers requests, in the
/// order of the requests: the embedding table, which is stored under the key
/// of the output projection; each per-layer weight for all layers; the final
/// normalisation weight; the output projection.
pub open spec fn required_keys(layers: nat) -> Seq<Seq<char>> {
    seq![head_key()]
        + layer_keys(LayerWeight::AttentionNorm, layers)
        + layer_keys(LayerWeight::Query, layers)
        + layer_keys(LayerWeight::Key, layers)
        + layer_keys(LayerWeight::Value, layers)
        + layer_keys(LayerWeight::Output, layers)
        + layer_keys(LayerWeight::FeedForwardNorm, layers)
        + layer_keys(LayerWeight::Up, layers)
        + layer_keys(LayerWeight::Gate, layers)
        + layer_keys(LayerWeight::Down, layers)
        + seq![norm_key(), head_key()]
}

/// The entry under `key` can become a tensor.
pub open spec fn loads(entries: Map<Seq<char>, EntryView>, key: Seq<char>) -> bool {
    entry_failure(key, stored(entries, key)) is None
}

/// Every one of `keys` can become a tensor.
pub open spec fn all_load(entries: Map<Seq<char>, EntryView>, keys: Seq<Seq<char>>) -> bool {
    forall|i: int| 0 <= i < keys.len() ==> loads(entries, #[trigger] keys[i])
}

/// `keys[at]` is the first of `keys` that cannot become a tensor, and
/// `error` says why.
pub open spec fn fails_first_at(
    entries: Map<Seq<char>, EntryView>,
    keys: Seq<Seq<char>>,
    at: int,
    error: LoadErrorView,
) -> bool {
    &&& 0 <= at < keys.len()
    &&& entry_failure(keys[at], stored(entries, keys[at])) == Some(error)
    &&& all_load(entries, keys.take(at))
}

/// `tensors` holds, layer by layer, what `entries` stores for `weight`.
pub open spec fn layers_decode(
    tensors: Seq<Tensor<u32>>,
    entries: Map<Seq<char>, EntryView>,
    weight: LayerWeight,
    layers: nat,
) -> bool {
    &&& tensors.len() == layers
    &&& forall|i: int|
        0 <= i < layers ==> decodes(#[trigger] tensors[i], entries[layer_key(i as nat, weight)])
}

impl LLamaParams<u32> {
    /// Every field holds what `entries` stores under its key.
    pub open spec fn reflects(&self, entries: Map<Seq<char>, EntryView>, layers: nat) -> bool {
        &&& decodes(self.embedding_table, entries[head_key()])
        &&& layers_decode(self.rms_att_w@, entries, LayerWeight::AttentionNorm, layers)
        &&& layers_decode(self.wq@, entries, LayerWeight::Query, layers)
        &&& layers_decode(self.wk@, entries, LayerWeight::Key, layers)
        &&& layers_decode(self.wv@, entries, LayerWeight::Value, layers)
        &&& layers_decode(self.wo@, entries, LayerWeight::Output, layers)
        &&& layers_decode(self.rms_ffn_w@, entries, LayerWeight::FeedForwardNorm, layers)
        &&& layers_decode(self.w_up@, entries, LayerWeight::Up, layers)
        &&& layers_decode(self.w_gate@, entries, LayerWeight::Gate, layers)
        &&& layers_decode(self.w_down@, entries, LayerWeight::Down, layers)
        &&& decodes(self.rms_out_w, entries[norm_key()])
        &&& decodes(self.lm_head, entries[head_key()])
    }
}

/// What loading a model of `layers` layers from `entries` may return:
/// weights that reflect the entries where every required key loads, and
/// otherwise the failure of the first required key that does not load.
pub open spec fn load_outcome(
    loaded: Result<LLamaParams<u32>, LoadError>,
    entries: Map<Seq<char>, EntryView>,
    layers: nat,
) -> bool {
    match loaded {
        Ok(params) => all_load(entries, required_keys(layers)) && params.reflects(entries, layers),
        Err(e) => exists|at: int| fails_first_at(entries, required_keys(layers), at, e@),
    }
}

/// Only one key can be the first to fail, and only with one error.
pub proof fn lemma_first_failure_unique(
    entries: Map<Seq<char>, EntryView>,
    keys: Seq<Seq<char>>,
    at: int,
    error: LoadErrorView,
    other_at: int,
    other_error: LoadErrorView,
)
    requires
        fails_first_at(entries, keys, at, error),
        fails_first_at(entries, keys, other_at, other_error),
    ensures
        at == other_at,
        error == other_error,
{
    if at < other_at {
        assert(loads(entries, keys.take(other_at)[at]));
    } else if other_at < at {
        assert(loads(entries, keys.take(at)[other_at]));
    }
}

/// Loading returns the failure of the first required key that does not
/// load: where `keys[at]` fails with `error` and the keys before it load,
/// the outcome is that error.
pub proof fn lemma_load_fails_with(
    loaded: Result<LLamaParams<u32>, LoadError>,
    entries: Map<Seq<char>, EntryView>,
    layers: nat,
    at: int,
    error: LoadErrorView,
)
    requires
        load_outcome(loaded, entries, layers),
        fails_first_at(entries, required_keys(layers), at, error),
    ensures
        loaded matches Err(e) && e@ == error,
{
    let keys = required_keys(layers);
    match loaded {
        Ok(_) => {
            assert(loads(entries, keys[at]));
        },
        Err(e) => {
            let found = choose|found: int| fails_first_at(entries, keys, found, e@);
            lemma_first_failure_unique(entries, keys, at, error, found, e@);
        },
    }
}

/// The place of a layer's weight among the required keys.
pub open spec fn key_index(weight: LayerWeight, layer: nat, layers: nat) -> int {
    (1 + weight_number(weight) * layers + layer) as int
}

/// The number of a per-layer weight in load order.
pub open spec fn weight_number(weight: LayerWeight) -> nat {
    match weight {
        LayerWeight::AttentionNorm => 0,
        LayerWeight::Query => 1,
        LayerWeight::Key => 2,
        LayerWeight::Value => 3,
        LayerWeight::Output => 4,
        LayerWeight::FeedForwardNorm => 5,
        LayerWeight::Up => 6,
        LayerWeight::Gate => 7,
        LayerWeight::Down => 8,
    }
}

/// Every per-layer key is required, at the place that `key_index` gives;
/// the key of the output projection is required first and last, and the key
/// of the final normalisation weight last but one.
pub proof fn lemma_required_keys(layers: nat)
    ensures
        required_keys(layers).len() == 9 * layers + 3,
        required_keys(layers)[0] == head_key(),
        required_keys(layers)[9 * layers as int + 1] == norm_key(),
        required_keys(layers)[9 * layers as int + 2] == head_key(),
        forall|weight: LayerWeight, layer: nat|
            layer < layers ==> required_keys(layers)[#[trigger] key_index(weight, layer, layers)]
                == layer_key(layer, weight),
{
    assert forall|weight: LayerWeight, layer: nat| layer < layers implies required_keys(
        layers,
    )[#[trigger] key_index(weight, layer, layers)] == layer_key(layer, weight) by {
        assert(layer_keys(weight, layers)[layer as int] == layer_key(layer, weight));
    }
}

/// Loading a model of two or more layers fails where the entries lack the
/// key projection of layer 1; where the keys requested before that key
/// load, it fails with `MissingTensor` naming that key.
pub proof fn lemma_missing_second_key_projection(
    loaded: Result<LLamaParams<u32>, LoadError>,
    entries: Map<Seq<char>, EntryView>,
    layers: nat,
)
    requires
        layers >= 2,
        load_outcome(loaded, entries, layers),
        !entries.dom().contains("model.layers.1.self_attn.k_proj.weight"@),
    ensures
        loaded is Err,
        all_load(entries, required_keys(layers).take(2 * layers as int + 2)) ==> (loaded matches Err(
            e,
        ) && e@ == LoadErrorView::MissingTensor("model.layers.1.self_attn.k_proj.weight"@)),
{
    let key = "model.layers.1.self_attn.k_proj.weight"@;
    let keys = required_keys(layers);
    lemma_required_keys(layers);
    assert(key_index(LayerWeight::Key, 1, layers) == 2 * layers + 2);
    assert(layer_key(1, LayerWeight::Key) =~= key) by {
        reveal_strlit("model.layers.1.self_attn.k_proj.weight");
        reveal_strlit("model.layers.");
        reveal_strlit(".");
        reveal_strlit("self_attn.k_proj");
        reveal_strlit(".weight");
        assert(decimal(1) =~= seq!['1']);
    }
    assert(!loads(entries, keys[2 * layers as int + 2]));
    if all_load(entries, keys.take(2 * layers as int + 2)) {
        lemma_load_fails_with(
            loaded,
            entries,
            layers,
            2 * layers as int + 2,
            LoadErrorView::MissingTensor(key),
        );
    }
}

/// Loading fails where a required key is stored with another element type
/// than 32-bit floats; where the keys requested before it load, it fails
/// with `DtypeMismatch` naming the key and the type that was found.
pub proof fn lemma_other_dtype_fails(
    loaded: Result<LLamaParams<u32>, LoadError>,
    entries: Map<Seq<char>, EntryView>,
    layers: nat,
    at: int,
)
    requires
        load_outcome(loaded, entries, layers),
        0 <= at < required_keys(layers).len(),
        entries.dom().contains(required_keys(layers)[at]),
        entries[required_keys(layers)[at]].dtype != float_dtype(),
    ensures
        loaded is Err,
        all_load(entries, required_keys(layers).take(at)) ==> (loaded matches Err(e) && e@
            == LoadErrorView::DtypeMismatch {
            name: required_keys(layers)[at],
            expected: float_dtype(),
            found: entries[required_keys(layers)[at]].dtype,
        }),
{
    let keys = required_keys(layers);
    assert(!loads(entries, keys[at]));
    if all_load(entries, keys.take(at)) {
        lemma_load_fails_with(
            loaded,
            entries,
            layers,
            at,
            LoadErrorView::DtypeMismatch {
                name: keys[at],
                expected: float_dtype(),
                found: entries[keys[at]].dtype,
            },
        );
    }
}

/// A failure in a run of keys is the first failure overall where the keys
/// requested before the run all load.
proof fn lemma_failure_after_loaded(
    entries: Map<Seq<char>, EntryView>,
    required: Seq<Seq<char>>,
    done: Seq<Seq<char>>,
    group: Seq<Seq<char>>,
    at: int,
    error: LoadErrorView,
)
    requires
        (done + group).is_prefix_of(required),
        all_load(entries, done),
        fails_first_at(entries, group, at, error),
    ensures
        fails_first_at(entries, required, done.len() + at, error),
        !all_load(entries, required),
{
    let k = done.len() + at;
    assert(required[k] == (done + group)[k]);
    assert forall|i: int| 0 <= i < k implies loads(entries, #[trigger] required.take(k)[i]) by {
        assert(required[i] == (done + group)[i]);
        if i < done.len() {
            assert(loads(entries, done[i]));
        } else {
            assert(group.take(at)[i - done.len()] == group[i - done.len()]);
        }
    }
    assert(!loads(entries, required[k]));
}

/// Where two runs of keys all load, so does the one followed by the other.
proof fn lemma_loaded_extends(
    entries: Map<Seq<char>, EntryView>,
    done: Seq<Seq<char>>,
    group: Seq<Seq<char>>,
)
    requires
        all_load(entries, done),
        all_load(entries, group),
    ensures
        all_load(entries, done + group),
{
    assert forall|i: int| 0 <= i < (done + group).len() implies loads(
        entries,
        #[trigger] (done + group)[i],
    ) by {
        if i < done.len() {
            assert(loads(entries, done[i]));
        } else {
            assert(loads(entries, group[i - done.len()]));
        }
    }
}

/// Looks `name` up in `bundle` and decodes what is found.
fn get_tensor(bundle: &SafeTensors, name: &str) -> (made: Result<Tensor<u32>, LoadError>)
    ensures
        made is Ok <==> loads(bundle_tensors(*bundle), name@),
        made matches Ok(t) ==> decodes(t, bundle_tensors(*bundle)[name@]),
        made matches Err(e) ==> entry_failure(name@, stored(bundle_tensors(*bundle), name@))
            == Some(e@),
{
    tensor_from_entry(name, lookup(bundle, name))
}

/// Loads one weight of every layer, in layer order, and stops at the first
/// that fails.
fn layer_tensors(bundle: &SafeTensors, weight: LayerWeight, layers: usize) -> (made: Result<
    Vec<Tensor<u32>>,
    LoadError,
>)
    ensures
        made is Ok <==> all_load(bundle_tensors(*bundle), layer_keys(weight, layers as nat)),
        made matches Ok(tensors) ==> layers_decode(
            tensors@,
            bundle_tensors(*bundle),
            weight,
            layers as nat,
        ),
        made matches Err(e) ==> exists|at: int|
            fails_first_at(bundle_tensors(*bundle), layer_keys(weight, layers as nat), at, e@),
{
    let ghost entries = bundle_tensors(*bundle);
    let ghost keys = layer_keys(weight, layers as nat);
    let mut tensors: Vec<Tensor<u32>> = Vec::new();
    let mut layer: usize = 0;
    while layer < layers
        invariant
            layer <= layers,
            entries == bundle_tensors(*bundle),
            keys == layer_keys(weight, layers as nat),
            tensors.len() == layer,
            forall|i: int| 0 <= i < layer ==> loads(entries, #[trigger] keys[i]),
            forall|i: int|
                0 <= i < layer ==> decodes(
                    #[trigger] tensors[i],
                    entries[layer_key(i as nat, weight)],
                ),
        decreases layers - layer,
    {
        let key = layer_key_string(layer, weight);
        assert(key@ == keys[layer as int]);
        match get_tensor(bundle, key.as_str()) {
            Ok(tensor) => {
                tensors.push(tensor);
            },
            Err(error) => {
                proof {
                    assert forall|i: int| 0 <= i < layer implies loads(
                        entries,
                        #[trigger] keys.take(layer as int)[i],
                    ) by {
                        assert(loads(entries, keys[i]));
                    }
                    assert(fails_first_at(entries, keys, layer as int, error@));
                    assert(!loads(entries, keys[layer as int]));
                }
                return Err(error);
            },
        }
        layer += 1;
    }
    Ok(tensors)
}

/// Loads the one tensor under `name`, which loading requests after `done`.
fn load_single(
    bundle: &SafeTensors,
    name: &str,
    Ghost(required): Ghost<Seq<Seq<char>>>,
    Ghost(done): Ghost<Seq<Seq<char>>>,
) -> (made: Result<Tensor<u32>, LoadError>)
    requires
        (done + seq![name@]).is_prefix_of(required),
        all_load(bundle_tensors(*bundle), done),
    ensures
        made is Ok ==> all_load(bundle_tensors(*bundle), done + seq![name@]),
        made matches Ok(t) ==> decodes(t, bundle_tensors(*bundle)[name@]),
        made is Err ==> !all_load(bundle_tensors(*bundle), required),
        made matches Err(e) ==> exists|at: int|
            fails_first_at(bundle_tensors(*bundle), required, at, e@),
{
    let ghost entries = bundle_tensors(*bundle);
    let ghost group = seq![name@];
    match get_tensor(bundle, name) {
        Ok(tensor) => {
            proof {
                lemma_loaded_extends(entries, done, group);
            }
            Ok(tensor)
        },
        Err(error) => {
            proof {
                assert(group.take(0).len() == 0);
                lemma_failure_after_loaded(entries, required, done, group, 0, error@);
            }
            Err(error)
        },
    }
}

/// Loads one weight of every layer, which loading requests after `done`.
fn load_group(
    bundle: &SafeTensors,
    weight: LayerWeight,
    layers: usize,
    Ghost(required): Ghost<Seq<Seq<char>>>,
    Ghost(done): Ghost<Seq<Seq<char>>>,
) -> (made: Result<Vec<Tensor<u32>>, LoadError>)
    requires
        (done + layer_keys(weight, layers as nat)).is_prefix_of(required),
        all_load(bundle_tensors(*bundle), done),
    ensures
        made is Ok ==> all_load(bundle_tensors(*bundle), done + layer_keys(weight, layers as nat)),
        made matches Ok(tensors) ==> layers_decode(
            tensors@,
            bundle_tensors(*bundle),
            weight,
            layers as nat,
        ),
        made is Err ==> !all_load(bundle_tensors(*bundle), required),
        made matches Err(e) ==> exists|at: int|
            fails_first_at(bundle_tensors(*bundle), required, at, e@),
{
    let ghost entries = bundle_tensors(*bundle);
    let ghost group = layer_keys(weight, layers as nat);
    match layer_tensors(bundle, weight, layers) {
        Ok(tensors) => {
            proof {
                lemma_loaded_extends(entries, done, group);
            }
            Ok(tensors)
        },
        Err(error) => {
            proof {
                let at = choose|at: int| fails_first_at(entries, group, at, error@);
                lemma_failure_after_loaded(entries, required, done, group, at, error@);
            }
            Err(error)
        },
    }
}

impl LLamaParams<u32> {
    /// Loads the weights of the model that `config` describes from
    /// `safetensor`. Each element of each tensor is the bit pattern of a
    /// 32-bit float.
    ///
    /// The keys of `required_keys` are requested in order, one weight for
    /// each of the `num_layers` layers of `config`. Loading stops at the
    /// first key that is missing, is not of 32-bit floats, or has bytes that
    /// do not fit its shape: that failure is returned, and no weights.
    pub fn from_safetensors(safetensor: &SafeTensors, config: &LlamaConfigJson) -> (loaded: Result<
        Self,
        LoadError,
    >)
        ensures
            loaded is Ok <==> all_load(
                bundle_tensors(*safetensor),
                required_keys(config.num_layers as nat),
            ),
            load_outcome(loaded, bundle_tensors(*safetensor), config.num_layers as nat),
    {
        let layers = config.num_layers;
        let ghost n = layers as nat;
        let ghost required = required_keys(n);
        let ghost done = Seq::<Seq<char>>::empty();

        let embedding_table = match load_single(
            safetensor,
            "lm_head.weight",
            Ghost(required),
            Ghost(done),
        ) {
            Ok(tensor) => tensor,
            Err(error) => {
                return Err(error);
            },
        };
        proof {
            done = done + seq![head_key()];
        }
        let rms_att_w = match load_group(
            safetensor,
            LayerWeight::AttentionNorm,
            layers,
            Ghost(required),
            Ghost(done),
        ) {
            Ok(tensors) => tensors,
            Err(error) => {
                return Err(error);
            },
        };
        proof {
            done = done + layer_keys(LayerWeight::AttentionNorm, n);
        }
        let wq = match load_group(
            safetensor,
            LayerWeight::Query,
            layers,
            Ghost(required),
            Ghost(done),
        ) {
            Ok(tensors) => tensors,
            Err(error) => {
                return Err(error);
            },
        };
        proof {
            done = done + layer_keys(LayerWeight::Query, n);
        }
        let wk = match load_group(
            safetensor,
            LayerWeight::Key,
            layers,
            Ghost(required),
            Ghost(done),
        ) {
            Ok(tensors) => tensors,
            Err(error) => {
                return Err(error);
            },
        };
        proof {
            done = done + layer_keys(LayerWeight::Key, n);
        }
        let wv = match load_group(
            safetensor,
            LayerWeight::Value,
            layers,
            Ghost(required),
            Ghost(done),
        ) {
            Ok(tensors) => tensors,
            Err(error) => {
                return Err(error);
            },
        };
        proof {
            done = done + layer_keys(LayerWeight::Value, n);
        }
        let wo = match load_group(
            safetensor,
            LayerWeight::Output,
            layers,
            Ghost(required),
            Ghost(done),
        ) {
            Ok(tensors) => tensors,
            Err(error) => {
                return Err(error);
            },
        };
        proof {
            done = done + layer_keys(LayerWeight::Output, n);
        }
        let rms_ffn_w = match load_group(
            safetensor,
            LayerWeight::FeedForwardNorm,
            layers,
            Ghost(required),
            Ghost(done),
        ) {
            Ok(tensors) => tensors,
            Err(error) => {
                return Err(error);
            },
        };
        proof {
            done = done + layer_keys(LayerWeight::FeedForwardNorm, n);
        }
        let w_up = match load_group(
            safetensor,
            LayerWeight::Up,
            layers,
            Ghost(required),
            Ghost(done),
        ) {
            Ok(tensors) => tensors,
            Err(error) => {
                return Err(error);
            },
        };
        proof {
            done = done + layer_keys(LayerWeight::Up, n);
        }
        let w_gate = match load_group(
            safetensor,
            LayerWeight::Gate,
            layers,
            Ghost(required),
            Ghost(done),
        ) {
            Ok(tensors) => tensors,
            Err(error) => {
                return Err(error);
            },
        };
        proof {
            done = done + layer_keys(LayerWeight::Gate, n);
        }
        let w_down = match load_group(
            safetensor,
            LayerWeight::Down,
            layers,
            Ghost(required),
            Ghost(done),
        ) {
            Ok(tensors) => tensors,
            Err(error) => {
                return Err(error);
            },
        };
        proof {
            done = done + layer_keys(LayerWeight::Down, n);
        }
        let rms_out_w = match load_single(
            safetensor,
            "model.norm.weight",
            Ghost(required),
            Ghost(done),
        ) {
            Ok(tensor) => tensor,
            Err(error) => {
                return Err(error);
            },
        };
        proof {
            done = done + seq![norm_key()];
        }
        let lm_head = match load_single(
            safetensor,
            "lm_head.weight",
            Ghost(required),
            Ghost(done),
        ) {
            Ok(tensor) => tensor,
            Err(error) => {
                return Err(error);
            },
        };
        proof {
            done = done + seq![head_key()];
            assert(done =~= required);
        }
        Ok(
            LLamaParams {
                embedding_table,
                rms_att_w,
                wq,
                wk,
                wv,
                wo,
                rms_ffn_w,
                w_up,
                w_gate,
                w_down,
                rms_out_w,
                lm_head,
            },
        )
    }
}

} // verus!
