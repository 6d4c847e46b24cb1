use lm_tensor::bundle::TensorEntry;
use lm_tensor::decode::{decode_words, tensor_from_entry};
use lm_tensor::config::LlamaConfigJson;
use lm_tensor::error::LoadError;
use lm_tensor::names::{decimal_string, layer_key_string, LayerWeight};
use lm_tensor::params::LLamaParams;
use safetensors::tensor::TensorView;
use safetensors::{serialize, Dtype, SafeTensors};

const ROLES: [&str; 9] = [
    "input_layernorm",
    "self_attn.q_proj",
    "self_attn.k_proj",
    "self_attn.v_proj",
    "self_attn.o_proj",
    "post_attention_layernorm",
    "mlp.up_proj",
    "mlp.gate_proj",
    "mlp.down_proj",
];

fn config(layers: usize) -> LlamaConfigJson {
    LlamaConfigJson {
        num_layers: layers,
        hidden_size: 2,
        num_heads: 1,
        num_kv_heads: 1,
        intermediate_size: 3,
        vocab_size: 4,
    }
}

fn le_bytes(values: &[f32]) -> Vec<u8> {
    values.iter().flat_map(|v| v.to_le_bytes()).collect()
}

/// One stored tensor: name, element type, shape, bytes.
type Stored = (String, Dtype, Vec<usize>, Vec<u8>);

fn floats(name: &str, shape: &[usize], first: f32) -> Stored {
    let size: usize = shape.iter().product();
    let values: Vec<f32> = (0..size).map(|i| first + i as f32 * 0.5).collect();
    (name.to_string(), Dtype::F32, shape.to_vec(), le_bytes(&values))
}

/// The tensors of a model of `layers` layers; the tensor of layer `i` and
/// role number `r` starts at the value `100 i + 10 r`.
fn model(layers: usize) -> Vec<Stored> {
    let mut stored = vec![
        floats("lm_head.weight", &[4, 2], -1.0),
        floats("model.norm.weight", &[2], 0.25),
    ];
    for layer in 0..layers {
        for (r, role) in ROLES.iter().enumerate() {
            let name = format!("model.layers.{layer}.{role}.weight");
            let shape: &[usize] = if role.ends_with("layernorm") { &[2] } else { &[3, 2] };
            stored.push(floats(&name, shape, (100 * layer + 10 * r) as f32));
        }
    }
    stored
}

fn file(stored: &[Stored]) -> Vec<u8> {
    let views: Vec<(String, TensorView)> = stored
        .iter()
        .map(|(name, dtype, shape, bytes)| {
            (name.clone(), TensorView::new(*dtype, shape.clone(), bytes).unwrap())
        })
        .collect();
    serialize(views, &None).unwrap()
}

fn load(stored: &[Stored], layers: usize) -> Result<LLamaParams<u32>, LoadError> {
    let bytes = file(stored);
    let bundle = SafeTensors::deserialize(&bytes).unwrap();
    LLamaParams::from_safetensors(&bundle, &config(layers))
}

fn values(words: &[u32]) -> Vec<f32> {
    words.iter().map(|w| f32::from_bits(*w)).collect()
}

#[test]
fn decimal_strings() {
    assert_eq!(decimal_string(0), "0");
    assert_eq!(decimal_string(7), "7");
    assert_eq!(decimal_string(10), "10");
    assert_eq!(decimal_string(31), "31");
    assert_eq!(decimal_string(1205), "1205");
    assert_eq!(decimal_string(usize::MAX), usize::MAX.to_string());
}

#[test]
fn layer_keys() {
    assert_eq!(
        layer_key_string(0, LayerWeight::AttentionNorm),
        "model.layers.0.input_layernorm.weight"
    );
    assert_eq!(
        layer_key_string(1, LayerWeight::Key),
        "model.layers.1.self_attn.k_proj.weight"
    );
    assert_eq!(
        layer_key_string(12, LayerWeight::Gate),
        "model.layers.12.mlp.gate_proj.weight"
    );
    let weights = [
        LayerWeight::AttentionNorm,
        LayerWeight::Query,
        LayerWeight::Key,
        LayerWeight::Value,
        LayerWeight::Output,
        LayerWeight::FeedForwardNorm,
        LayerWeight::Up,
        LayerWeight::Gate,
        LayerWeight::Down,
    ];
    for (weight, role) in weights.iter().zip(ROLES) {
        assert_eq!(weight.role(), role);
        assert_eq!(
            layer_key_string(3, *weight),
            format!("model.layers.3.{role}.weight")
        );
    }
}

#[test]
fn words_are_little_endian() {
    assert_eq!(decode_words(&vec![]), Vec::<u32>::new());
    assert_eq!(decode_words(&vec![1, 0, 0, 0]), vec![1]);
    assert_eq!(decode_words(&vec![0x78, 0x56, 0x34, 0x12]), vec![0x1234_5678]);
    assert_eq!(
        decode_words(&vec![0, 0, 0x80, 0x3f, 0xff, 0xff, 0xff, 0xff]),
        vec![1.0f32.to_bits(), u32::MAX]
    );
    // bytes after the last group of four encode nothing
    assert_eq!(decode_words(&vec![2, 0, 0, 0, 9, 9, 9]), vec![2]);
    assert_eq!(decode_words(&vec![9, 9, 9]), Vec::<u32>::new());
}

#[test]
fn words_agree_with_the_float_decoding() {
    let given = [0.0f32, -0.0, 1.5, -2.25, f32::MAX, f32::MIN_POSITIVE, f32::INFINITY];
    let words = decode_words(&le_bytes(&given));
    assert_eq!(words.len(), given.len());
    for (word, value) in words.iter().zip(given) {
        assert_eq!(*word, value.to_bits());
        assert_eq!(f32::from_bits(*word), f32::from_le_bytes(word.to_le_bytes()));
    }
}

#[test]
fn entry_becomes_a_tensor() {
    let entry = TensorEntry {
        dtype: "F32".to_string(),
        shape: vec![2, 2],
        bytes: le_bytes(&[1.0, 2.0, 3.0, 4.0]),
    };
    let t = tensor_from_entry("w", Some(entry)).unwrap();
    assert_eq!(t.shape(), &vec![2, 2]);
    assert_eq!(t.size(), 4);
    assert_eq!(values(t.data()), vec![1.0, 2.0, 3.0, 4.0]);
}

#[test]
fn entry_that_is_missing() {
    assert_eq!(
        tensor_from_entry("model.norm.weight", None).err(),
        Some(LoadError::MissingTensor("model.norm.weight".to_string()))
    );
}

#[test]
fn entry_of_another_element_type() {
    for dtype in ["F16", "BF16", "F64", "I32", "U32", "f32", ""] {
        let entry = TensorEntry {
            dtype: dtype.to_string(),
            shape: vec![1],
            bytes: vec![0, 0, 0, 0],
        };
        assert_eq!(
            tensor_from_entry("w", Some(entry)).err(),
            Some(LoadError::DtypeMismatch {
                name: "w".to_string(),
                expected: "F32".to_string(),
                found: dtype.to_string(),
            })
        );
    }
}

#[test]
fn entry_whose_bytes_do_not_fit_its_shape() {
    for (shape, count) in [
        (vec![2, 2], 12),
        (vec![2, 2], 20),
        (vec![2], 7),
        (vec![], 0),
        (vec![], 8),
        (vec![0], 4),
        (vec![usize::MAX, 4], 16),
    ] {
        let entry = TensorEntry { dtype: "F32".to_string(), shape, bytes: vec![0; count] };
        assert_eq!(
            tensor_from_entry("w", Some(entry)).err(),
            Some(LoadError::ShapeMismatch("w".to_string()))
        );
    }
}

#[test]
fn element_type_is_checked_before_the_bytes() {
    let entry = TensorEntry { dtype: "I64".to_string(), shape: vec![3], bytes: vec![0; 5] };
    assert!(matches!(
        tensor_from_entry("w", Some(entry)),
        Err(LoadError::DtypeMismatch { .. })
    ));
}

#[test]
fn loads_a_model_of_two_layers() {
    let params = load(&model(2), 2).unwrap();
    assert_eq!(params.embedding_table.shape(), &vec![4, 2]);
    assert_eq!(
        values(params.embedding_table.data()),
        vec![-1.0, -0.5, 0.0, 0.5, 1.0, 1.5, 2.0, 2.5]
    );
    assert_eq!(params.lm_head.shape(), &vec![4, 2]);
    assert_eq!(params.lm_head.data(), params.embedding_table.data());
    assert_eq!(params.rms_out_w.shape(), &vec![2]);
    assert_eq!(values(params.rms_out_w.data()), vec![0.25, 0.75]);
    let groups = [
        &params.rms_att_w,
        &params.wq,
        &params.wk,
        &params.wv,
        &params.wo,
        &params.rms_ffn_w,
        &params.w_up,
        &params.w_gate,
        &params.w_down,
    ];
    for (r, group) in groups.iter().enumerate() {
        assert_eq!(group.len(), 2);
        for (layer, tensor) in group.iter().enumerate() {
            let first = (100 * layer + 10 * r) as f32;
            let size = tensor.size();
            let expected: Vec<f32> = (0..size).map(|i| first + i as f32 * 0.5).collect();
            assert_eq!(values(tensor.data()), expected);
            if r == 0 || r == 5 {
                assert_eq!(tensor.shape(), &vec![2]);
            } else {
                assert_eq!(tensor.shape(), &vec![3, 2]);
            }
        }
    }
}

#[test]
fn loads_as_many_layers_as_configured() {
    for layers in [0, 1, 3, 11] {
        let params = load(&model(layers), layers).unwrap();
        assert_eq!(params.rms_att_w.len(), layers);
        assert_eq!(params.wq.len(), layers);
        assert_eq!(params.wk.len(), layers);
        assert_eq!(params.wv.len(), layers);
        assert_eq!(params.wo.len(), layers);
        assert_eq!(params.rms_ffn_w.len(), layers);
        assert_eq!(params.w_up.len(), layers);
        assert_eq!(params.w_gate.len(), layers);
        assert_eq!(params.w_down.len(), layers);
        if layers == 11 {
            assert_eq!(values(&params.w_down[10].data()[..1]), vec![1080.0]);
        }
    }
    // tensors of further layers are not asked for
    let params = load(&model(5), 2).unwrap();
    assert_eq!(params.wq.len(), 2);
}

#[test]
fn missing_key_of_the_second_layer() {
    let key = "model.layers.1.self_attn.k_proj.weight";
    let stored: Vec<Stored> = model(2).into_iter().filter(|s| s.0 != key).collect();
    assert_eq!(
        load(&stored, 2).err(),
        Some(LoadError::MissingTensor(key.to_string()))
    );
    let stored: Vec<Stored> = model(4).into_iter().filter(|s| s.0 != key).collect();
    assert_eq!(
        load(&stored, 4).err(),
        Some(LoadError::MissingTensor(key.to_string()))
    );
    // a model of one layer does not ask for the key
    let stored: Vec<Stored> = model(1).into_iter().filter(|s| s.0 != key).collect();
    assert!(load(&stored, 1).is_ok());
}

#[test]
fn missing_layer_when_more_are_configured() {
    assert_eq!(
        load(&model(2), 3).err(),
        Some(LoadError::MissingTensor(
            "model.layers.2.input_layernorm.weight".to_string()
        ))
    );
}

#[test]
fn missing_head_or_norm() {
    let stored: Vec<Stored> = model(1).into_iter().filter(|s| s.0 != "lm_head.weight").collect();
    assert_eq!(
        load(&stored, 1).err(),
        Some(LoadError::MissingTensor("lm_head.weight".to_string()))
    );
    let stored: Vec<Stored> =
        model(1).into_iter().filter(|s| s.0 != "model.norm.weight").collect();
    assert_eq!(
        load(&stored, 1).err(),
        Some(LoadError::MissingTensor("model.norm.weight".to_string()))
    );
    assert_eq!(
        load(&[], 0).err(),
        Some(LoadError::MissingTensor("lm_head.weight".to_string()))
    );
}

#[test]
fn tensor_of_another_element_type() {
    let key = "model.layers.0.mlp.up_proj.weight";
    for (dtype, name, width) in [
        (Dtype::F16, "F16", 2),
        (Dtype::BF16, "BF16", 2),
        (Dtype::I32, "I32", 4),
        (Dtype::U32, "U32", 4),
        (Dtype::F64, "F64", 8),
        (Dtype::U8, "U8", 1),
    ] {
        let mut stored: Vec<Stored> = model(2).into_iter().filter(|s| s.0 != key).collect();
        stored.push((key.to_string(), dtype, vec![3, 2], vec![0; 6 * width]));
        assert_eq!(
            load(&stored, 2).err(),
            Some(LoadError::DtypeMismatch {
                name: key.to_string(),
                expected: "F32".to_string(),
                found: name.to_string(),
            })
        );
    }
}

#[test]
fn first_failure_in_load_order_is_reported() {
    // the query projection of layer 1 is asked for before the key
    // projection of layer 0, and the final norm after all layers
    let mut stored: Vec<Stored> = model(2)
        .into_iter()
        .filter(|s| {
            s.0 != "model.layers.0.self_attn.k_proj.weight"
                && s.0 != "model.layers.1.self_attn.q_proj.weight"
                && s.0 != "model.norm.weight"
        })
        .collect();
    stored.push((
        "model.layers.1.self_attn.q_proj.weight".to_string(),
        Dtype::I64,
        vec![1],
        vec![0; 8],
    ));
    assert_eq!(
        load(&stored, 2).err(),
        Some(LoadError::DtypeMismatch {
            name: "model.layers.1.self_attn.q_proj.weight".to_string(),
            expected: "F32".to_string(),
            found: "I64".to_string(),
        })
    );
}

#[test]
fn messages_name_the_tensor() {
    assert_eq!(
        LoadError::MissingTensor("model.norm.weight".to_string()).message(),
        "Tensor model.norm.weight not found"
    );
    assert_eq!(
        LoadError::DtypeMismatch {
            name: "lm_head.weight".to_string(),
            expected: "F32".to_string(),
            found: "BF16".to_string(),
        }
        .message(),
        "Expected tensor lm_head.weight to have dtype F32, but found BF16"
    );
    assert_eq!(
        LoadError::ShapeMismatch("w".to_string()).message(),
        "The bytes of tensor w do not fit its shape"
    );
    let key = "model.layers.1.self_attn.k_proj.weight";
    let stored: Vec<Stored> = model(2).into_iter().filter(|s| s.0 != key).collect();
    assert_eq!(
        load(&stored, 2).err().unwrap().message(),
        "Tensor model.layers.1.self_attn.k_proj.weight not found"
    );
}
