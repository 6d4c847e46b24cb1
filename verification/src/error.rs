//! The failures that tensor operations and weight loading report.

use vstd::prelude::*;
use vstd::string::*;

verus! {

/// Why a tensor operation was refused.
#[derive(Clone, Copy, Debug, PartialEq, Eq, Structural)]
pub enum TensorError {
    /// A shape describes a different number of elements than are available.
    ShapeMismatch,
    /// A slice reaches past the end of the view it is taken from.
    BoundsError,
    /// A transposition names an axis twice, not at all, or out of range.
    InvalidPermutation,
}

/// Why a weight could not be loaded. Every variant carries the key of the
/// weight.
#[derive(Debug, PartialEq, Eq)]
pub enum LoadError {
    /// The bundle has no tensor under the key.
    MissingTensor(String),
    /// The tensor under the key has another element type than the one
    /// expected.
    DtypeMismatch { name: String, expected: String, found: String },
    /// The bytes of the tensor under the key are not the elements that its
    /// shape describes.
    ShapeMismatch(String),
}

/// A `LoadError` as mathematical values.
pub enum LoadErrorView {
    MissingTensor(Seq<char>),
    DtypeMismatch { name: Seq<char>, expected: Seq<char>, found: Seq<char> },
    ShapeMismatch(Seq<char>),
}

impl View for LoadError {
    type V = LoadErrorView;

    open spec fn view(&self) -> LoadErrorView {
        match self {
            LoadError::MissingTensor(name) => LoadErrorView::MissingTensor(name@),
            LoadError::DtypeMismatch { name, expected, found } => LoadErrorView::DtypeMismatch {
                name: name@,
                expected: expected@,
                found: found@,
            },
            LoadError::ShapeMismatch(name) => LoadErrorView::ShapeMismatch(name@),
        }
    }
}

/// The line that reports a failure to the user.
pub open spec fn message_text(error: LoadErrorView) -> Seq<char> {
    match error {
        LoadErrorView::MissingTensor(name) => "Tensor "@ + name + " not found"@,
        LoadErrorView::DtypeMismatch { name, expected, found } => "Expected tensor "@ + name
            + " to have dtype "@ + expected + ", but found "@ + found,
        LoadErrorView::ShapeMismatch(name) => "The bytes of tensor "@ + name
            + " do not fit its shape"@,
    }
}

impl LoadError {
    /// The line that reports this failure to the user: it names the key,
    /// and for a wrong element type the type expected and the type found.
    pub fn message(&self) -> (text: String)
        ensures
            text@ == message_text(self@),
    {
        match self {
            LoadError::MissingTensor(name) => {
                let mut text = String::from_str("Tensor ");
                text.append(name.as_str());
                text.append(" not found");
                text
            },
            LoadError::DtypeMismatch { name, expected, found } => {
                let mut text = String::from_str("Expected tensor ");
                text.append(name.as_str());
                text.append(" to have dtype ");
                text.append(expected.as_str());
                text.append(", but found ");
                text.append(found.as_str());
                text
            },
            LoadError::ShapeMismatch(name) => {
                let mut text = String::from_str("The bytes of tensor ");
                text.append(name.as_str());
                text.append(" do not fit its shape");
                text
            },
        }
    }
}

} // verus!
