//! The bundle of named tensors that weights are read from, and what one of
//! its entries holds. The bundle is a `safetensors::SafeTensors`; what is
//! assumed of it is stated here and nowhere else.

use safetensors::SafeTensors;
use vstd::prelude::*;

verus! {

/// One tensor as a bundle stores it: the name of its element type (`F32`
/// for 32-bit floats), its dimensions, and its elements as raw bytes in
/// row-major order.
pub struct TensorEntry {
    pub dtype: String,
    pub shape: Vec<usize>,
    pub bytes: Vec<u8>,
}

/// What a `TensorEntry` holds, as mathematical values.
pub struct EntryView {
    pub dtype: Seq<char>,
    pub shape: Seq<usize>,
    pub bytes: Seq<u8>,
}

impl View for TensorEntry {
    type V = EntryView;

    open spec fn view(&self) -> EntryView {
        EntryView { dtype: self.dtype@, shape: self.shape@, bytes: self.bytes@ }
    }
}

/// `safetensors::SafeTensors`, a parsed bundle. Nothing inside it is
/// visible to the proofs.
#[verifier::external_type_specification]
#[verifier::external_body]
pub struct ExSafeTensors<'data>(SafeTensors<'data>);

/// The tensors that a bundle holds, by name. The element type of each is
/// given by the name that `Debug` prints for its `safetensors::Dtype`, which
/// is the name of the variant.
pub uninterp spec fn bundle_tensors(bundle: SafeTensors) -> Map<Seq<char>, EntryView>;

/// `SafeTensors::tensor`, with the view that it returns copied out field by
/// field: the `Debug` name of its `Dtype`, its shape, and its bytes.
///
/// Assumed: the call fails only where the bundle has no tensor under
/// `name`, and what it returns depends on the bundle and the name alone, so
/// that the result is the entry of `bundle_tensors` under `name`.
#[verifier::external_body]
pub(crate) fn lookup(bundle: &SafeTensors, name: &str) -> (entry: Option<TensorEntry>)
    ensures
        entry is Some <==> bundle_tensors(*bundle).dom().contains(name@),
        entry matches Some(e) ==> e@ == bundle_tensors(*bundle)[name@],
{
    match bundle.tensor(name) {
        Ok(view) => Some(
            TensorEntry {
                dtype: format!("{:?}", view.dtype()),
                shape: view.shape().to_vec(),
                bytes: view.data().to_vec(),
            },
        ),
        Err(_) => None,
    }
}

/// The entry that `entries` holds under `name`, if any.
pub open spec fn stored(entries: Map<Seq<char>, EntryView>, name: Seq<char>) -> Option<EntryView> {
    if entries.dom().contains(name) {
        Some(entries[name])
    } else {
        None
    }
}

} // verus!
