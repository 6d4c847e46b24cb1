//! From the raw bytes of a bundle entry to a tensor of 32-bit words.

use crate::bundle::{EntryView, TensorEntry};
use crate::error::{LoadError, LoadErrorView};
use crate::layout::shape_size;
use crate::tensor::Tensor;
use vstd::prelude::*;
use vstd::string::*;

verus! {

/// The name of the element type that weights are stored in: 32-bit
/// floating point.
pub open spec fn float_dtype() -> Seq<char> {
    "F32"@
}

/// The 32-bit word whose little-endian encoding is `b0 b1 b2 b3`.
pub open spec fn word_le(b0: u8, b1: u8, b2: u8, b3: u8) -> u32 {
    (b0 as nat + b1 as nat * 0x100 + b2 as nat * 0x1_0000 + b3 as nat * 0x100_0000) as u32
}

/// The words that `bytes` encodes, four bytes to a word, least significant
/// byte first. Bytes after the last full group of four encode nothing.
pub open spec fn words_le(bytes: Seq<u8>) -> Seq<u32> {
    Seq::new(
        bytes.len() / 4,
        |i: int| word_le(bytes[4 * i], bytes[4 * i + 1], bytes[4 * i + 2], bytes[4 * i + 3]),
    )
}

/// Why the entry found under `name` cannot become a tensor, or `None` where
/// it can: the entry must exist, hold 32-bit floats, and have four bytes for
/// each element of its shape.
pub open spec fn entry_failure(name: Seq<char>, entry: Option<EntryView>) -> Option<LoadErrorView> {
    match entry {
        None => Some(LoadErrorView::MissingTensor(name)),
        Some(e) => if e.dtype != float_dtype() {
            Some(LoadErrorView::DtypeMismatch { name, expected: float_dtype(), found: e.dtype })
        } else if shape_size(e.shape) * 4 != e.bytes.len() {
            Some(LoadErrorView::ShapeMismatch(name))
        } else {
            None
        },
    }
}

/// `tensor` is the sole view of a buffer that holds the decoded elements of
/// `entry`, under the shape of `entry`.
pub open spec fn decodes(tensor: Tensor<u32>, entry: EntryView) -> bool {
    &&& tensor.valid()
    &&& tensor.spec_shape() == entry.shape
    &&& tensor.elements() == words_le(entry.bytes)
    &&& tensor.buffer() == words_le(entry.bytes)
    &&& tensor.spec_offset() == 0
}

/// What an optional entry holds, as mathematical values.
pub open spec fn entry_view(entry: Option<TensorEntry>) -> Option<EntryView> {
    match entry {
        Some(e) => Some(e@),
        None => None,
    }
}

/// Decodes little-endian 32-bit words. Each word is the bit pattern of one
/// element; reading the pattern as a number is left to the caller.
pub fn decode_words(bytes: &Vec<u8>) -> (words: Vec<u32>)
    ensures
        words@ == words_le(bytes@),
{
    let count = bytes.len() / 4;
    let mut words: Vec<u32> = Vec::with_capacity(count);
    let mut i: usize = 0;
    while i < count
        invariant
            count == bytes.len() / 4,
            i <= count,
            words.len() == i,
            forall|j: int| 0 <= j < i ==> words[j] == words_le(bytes@)[j],
        decreases count - i,
    {
        let b0 = bytes[4 * i] as u32;
        let b1 = bytes[4 * i + 1] as u32;
        let b2 = bytes[4 * i + 2] as u32;
        let b3 = bytes[4 * i + 3] as u32;
        words.push(b0 + b1 * 0x100 + b2 * 0x1_0000 + b3 * 0x100_0000);
        i += 1;
    }
    assert(words@ =~= words_le(bytes@));
    words
}

/// Turns what a lookup of `name` found into a tensor of bit patterns.
///
/// Fails with `MissingTensor` where nothing was found, with
/// `DtypeMismatch` where the entry does not hold 32-bit floats, and with
/// `ShapeMismatch` where its bytes are not four for each element of its
/// shape. Otherwise the tensor has the entry's shape and its decoded
/// elements.
pub fn tensor_from_entry(name: &str, entry: Option<TensorEntry>) -> (made: Result<
    Tensor<u32>,
    LoadError,
>)
    ensures
        made is Ok <==> entry_failure(name@, entry_view(entry)) is None,
        made matches Ok(t) ==> decodes(t, entry.unwrap()@),
        made matches Err(e) ==> entry_failure(name@, entry_view(entry)) == Some(e@),
{
    let entry = match entry {
        Some(entry) => entry,
        None => {
            return Err(LoadError::MissingTensor(String::from_str(name)));
        },
    };
    let expected = String::from_str("F32");
    if entry.dtype != expected {
        return Err(
            LoadError::DtypeMismatch {
                name: String::from_str(name),
                expected,
                found: entry.dtype,
            },
        );
    }
    if entry.bytes.len() % 4 != 0 {
        return Err(LoadError::ShapeMismatch(String::from_str(name)));
    }
    let words = decode_words(&entry.bytes);
    match Tensor::new(words, &entry.shape) {
        Ok(tensor) => Ok(tensor),
        Err(_) => Err(LoadError::ShapeMismatch(String::from_str(name))),
    }
}

} // verus!
