//! Tensors as shaped views over shared buffers, and the weight store of a
//! Llama-style transformer filled from a bundle of named tensors.
//!
//! - `layout`: element counts, row-major strides, flat positions and
//!   coordinates.
//! - `permutation`: permutations of axes.
//! - `transposition`: what a permutation of the axes does to the flat order.
//! - `tensor`: the tensor itself, with `reshape`, `slice` and `transpose`.
//! - `names`: the keys under which weights are stored.
//! - `bundle`: the bundle that weights are read from.
//! - `decode`: from the bytes of a bundle entry to a tensor.
//! - `params`: the weights of a model and their loading.
//! - `config`, `error`: the model's dimensions, and what can fail.

pub mod bundle;
pub mod config;
pub mod decode;
pub mod error;
pub mod layout;
pub mod names;
pub mod params;
pub mod permutation;
pub mod tensor;
pub mod transposition;
