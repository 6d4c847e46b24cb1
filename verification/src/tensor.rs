//! The tensor: a shape laid over a window of a shared, reference-counted
//! buffer.

use crate::error::TensorError;
use crate::layout::{
    as_nats,
    compute_flat_index,
    compute_index,
    compute_strides,
    element_count,
    lemma_nonempty_is_positive,
    lemma_ravel_in_bounds,
    lemma_tail_size,
    lemma_unravel_in_bounds,
    shape_size,
    stride,
    strides,
    unravel,
};
use crate::permutation::{
    inverse_permutation,
    is_permutation,
    lemma_origin,
    lemma_permuted_positive,
    lemma_permuted_size,
    permute,
    permuted,
};
use crate::transposition::{
    lemma_permuted_in_bounds,
    lemma_positions_correspond,
    source_position,
    target_position,
    transposed,
};
use std::sync::Arc;
use vstd::arithmetic::div_mod::{lemma_fundamental_div_mod, lemma_mod_bound};
use vstd::prelude::*;
use vstd::slice::slice_subrange;

verus! {

/// A shaped view of `length` elements of a shared buffer, starting at
/// `offset`. Views made by `clone` and `slice` share the buffer of their
/// source; the elements are in row-major order, the last axis varying
/// fastest.
///
/// A buffer is never written once a tensor holds it, so views of one buffer
/// cannot disturb each other: there is no mutable access to the elements.
pub struct Tensor<T> {
    data: Arc<Vec<T>>,
    shape: Vec<usize>,
    offset: usize,
    length: usize,
}

/// `Arc::clone`: a second handle to the allocation behind `buffer`, which
/// therefore holds the same elements.
#[verifier::external_body]
fn share<T>(buffer: &Arc<Vec<T>>) -> (shared: Arc<Vec<T>>)
    ensures
        shared == *buffer,
{
    Arc::clone(buffer)
}

impl<T> Tensor<T> {
    /// The window lies inside the buffer, and the shape describes exactly the
    /// elements of the window.
    #[verifier::type_invariant]
    spec fn well_formed(&self) -> bool {
        &&& self.offset + self.length <= self.data@.len()
        &&& shape_size(self.shape@) == self.length
    }

    /// The whole buffer that this view shares, including what lies outside
    /// the view.
    pub closed spec fn buffer(&self) -> Seq<T> {
        self.data@
    }

    /// Where the view starts in its buffer.
    pub closed spec fn spec_offset(&self) -> nat {
        self.offset as nat
    }

    /// The dimensions of the view.
    pub closed spec fn spec_shape(&self) -> Seq<usize> {
        self.shape@
    }

    /// The number of elements of the view.
    pub closed spec fn spec_size(&self) -> nat {
        self.length as nat
    }

    /// The elements of the view, in flat row-major order.
    pub open spec fn elements(&self) -> Seq<T> {
        self.buffer().subrange(
            self.spec_offset() as int,
            self.spec_offset() + self.spec_size() as int,
        )
    }

    /// What holds of every tensor: its window lies inside its buffer and its
    /// shape describes as many elements as the window has.
    pub open spec fn valid(&self) -> bool {
        &&& self.spec_offset() + self.spec_size() <= self.buffer().len()
        &&& shape_size(self.spec_shape()) == self.spec_size()
    }
}

impl<T: Copy + Default> Tensor<T> {
    /// Wraps `data` as the only view of a new buffer.
    ///
    /// Refused with `ShapeMismatch` unless `shape` describes exactly as many
    /// elements as `data` has.
    pub fn new(data: Vec<T>, shape: &Vec<usize>) -> (made: Result<Self, TensorError>)
        ensures
            made is Ok <==> shape_size(shape@) == data@.len(),
            made matches Ok(t) ==> {
                &&& t.valid()
                &&& t.spec_shape() == shape@
                &&& t.buffer() == data@
                &&& t.spec_offset() == 0
                &&& t.spec_size() == data@.len()
                &&& t.elements() == data@
            },
            made matches Err(e) ==> e == TensorError::ShapeMismatch,
    {
        let length = data.len();
        match element_count(shape) {
            Some(count) if count == length => {
                let ghost elements = data@;
                let t = Tensor { data: Arc::new(data), shape: shape.clone(), offset: 0, length };
                assert(t.elements() =~= elements);
                Ok(t)
            },
            _ => Err(TensorError::ShapeMismatch),
        }
    }

    /// The elements of the view.
    pub fn data(&self) -> (elements: &[T])
        ensures
            elements@ == self.elements(),
            elements@.len() == self.spec_size(),
            self.valid(),
    {
        proof {
            use_type_invariant(self);
        }
        let buffer = self.data.as_slice();
        assert(self.offset + self.length <= buffer.len());
        slice_subrange(buffer, self.offset, self.offset + self.length)
    }

    /// The dimensions of the view.
    pub fn shape(&self) -> (shape: &Vec<usize>)
        ensures
            shape@ == self.spec_shape(),
    {
        &self.shape
    }

    /// The number of elements of the view.
    pub fn size(&self) -> (size: usize)
        ensures
            size == self.spec_size(),
            self.valid(),
    {
        proof {
            use_type_invariant(self);
        }
        self.length
    }

    /// Where the view starts in its buffer.
    pub fn offset(&self) -> (offset: usize)
        ensures
            offset == self.spec_offset(),
    {
        self.offset
    }

    /// The rows of the view: its elements in runs as long as the last
    /// dimension, in order.
    pub fn rows(&self) -> (rows: Vec<&[T]>)
        requires
            self.spec_shape().len() > 0,
            self.spec_shape().last() > 0,
        ensures
            rows@.len() == self.spec_size() / (self.spec_shape().last() as nat),
            forall|row: int|
                0 <= row < rows@.len() ==> (#[trigger] rows@[row])@ == self.elements().subrange(
                    row * self.spec_shape().last(),
                    (row + 1) * self.spec_shape().last(),
                ),
    {
        let width = self.shape[self.shape.len() - 1];
        let count = self.length / width;
        let data = self.data();
        let mut rows: Vec<&[T]> = Vec::with_capacity(count);
        let mut row: usize = 0;
        while row < count
            invariant
                width > 0,
                width == self.spec_shape().last(),
                count == self.spec_size() / (width as nat),
                data@ == self.elements(),
                data@.len() == self.spec_size(),
                row <= count,
                rows@.len() == row,
                forall|done: int|
                    0 <= done < row ==> (#[trigger] rows@[done])@ == data@.subrange(
                        done * width,
                        (done + 1) * width,
                    ),
            decreases count - row,
        {
            proof {
                let total = self.spec_size() as int;
                lemma_fundamental_div_mod(total, width as int);
                lemma_mod_bound(total, width as int);
                assert((row + 1) * width <= count * width) by (nonlinear_arith)
                    requires
                        row + 1 <= count,
                        width > 0,
                ;
                assert(count * width == width * count) by (nonlinear_arith);
                assert((row + 1) * width == row * width + width) by (nonlinear_arith);
            }
            let start = row * width;
            rows.push(slice_subrange(data, start, start + width));
            row += 1;
        }
        rows
    }

    /// A second view of the same window of the same buffer. No element is
    /// copied.
    pub fn clone(&self) -> (twin: Self)
        ensures
            twin.valid(),
            twin.buffer() == self.buffer(),
            twin.spec_offset() == self.spec_offset(),
            twin.spec_size() == self.spec_size(),
            twin.spec_shape() == self.spec_shape(),
    {
        proof {
            use_type_invariant(self);
        }
        Tensor {
            data: share(&self.data),
            shape: self.shape.clone(),
            offset: self.offset,
            length: self.length,
        }
    }

    /// Lays `new_shape` over the same elements. Nothing is moved or copied.
    ///
    /// Refused with `ShapeMismatch` unless `new_shape` describes exactly the
    /// elements of the view; the tensor is then left as it was.
    pub fn reshape(&mut self, new_shape: &Vec<usize>) -> (reshaped: Result<(), TensorError>)
        ensures
            reshaped is Ok <==> shape_size(new_shape@) == old(self).spec_size(),
            reshaped matches Err(e) ==> e == TensorError::ShapeMismatch,
            reshaped is Err ==> *final(self) == *old(self),
            reshaped is Ok ==> final(self).spec_shape() == new_shape@,
            final(self).valid(),
            final(self).buffer() == old(self).buffer(),
            final(self).spec_offset() == old(self).spec_offset(),
            final(self).spec_size() == old(self).spec_size(),
            final(self).elements() == old(self).elements(),
    {
        proof {
            use_type_invariant(&*self);
        }
        let fits = match element_count(new_shape) {
            Some(count) => count == self.length,
            None => false,
        };
        if fits {
            self.shape = new_shape.clone();
            Ok(())
        } else {
            Err(TensorError::ShapeMismatch)
        }
    }

    /// A view of `product(shape)` elements that starts `start` elements
    /// into this view and shares its buffer.
    ///
    /// Refused with `BoundsError` where the offset of this view, `start` and
    /// the number of elements asked for together exceed the length of this
    /// view.
    pub fn slice(&self, start: usize, shape: &Vec<usize>) -> (cut: Result<Self, TensorError>)
        ensures
            cut is Ok <==> self.spec_offset() + start + shape_size(shape@) <= self.spec_size(),
            cut matches Err(e) ==> e == TensorError::BoundsError,
            cut matches Ok(t) ==> {
                &&& t.valid()
                &&& t.spec_shape() == shape@
                &&& t.buffer() == self.buffer()
                &&& t.spec_offset() == self.spec_offset() + start
                &&& t.spec_size() == shape_size(shape@)
                &&& t.elements() == self.buffer().subrange(
                    self.spec_offset() + start,
                    self.spec_offset() + start + shape_size(shape@),
                )
            },
    {
        proof {
            use_type_invariant(self);
        }
        let new_length = match element_count(shape) {
            Some(count) => count,
            None => {
                return Err(TensorError::BoundsError);
            },
        };
        if start > self.length || new_length > self.length - start || self.offset > self.length
            - start - new_length {
            return Err(TensorError::BoundsError);
        }
        Ok(
            Tensor {
                data: share(&self.data),
                shape: shape.clone(),
                offset: self.offset + start,
                length: new_length,
            },
        )
    }

    /// A tensor of `shape` in a new buffer, every element of which is the
    /// default value of the element type: zero, for the numeric types.
    pub fn default(shape: &Vec<usize>) -> (made: Self)
        requires
            shape_size(shape@) <= usize::MAX,
        ensures
            made.valid(),
            made.spec_shape() == shape@,
            made.spec_offset() == 0,
            made.spec_size() == shape_size(shape@),
            made.buffer() == made.elements(),
            forall|i: int|
                0 <= i < made.spec_size() ==> call_ensures(
                    T::default,
                    (),
                    #[trigger] made.elements()[i],
                ),
    {
        let length = element_count(shape).unwrap();
        let mut data: Vec<T> = Vec::with_capacity(length);
        let mut filled: usize = 0;
        while filled < length
            invariant
                filled <= length,
                data.len() == filled,
                forall|i: int| 0 <= i < filled ==> call_ensures(T::default, (), #[trigger] data[i]),
            decreases length - filled,
        {
            data.push(T::default());
            filled += 1;
        }
        let ghost elements = data@;
        let made = Tensor { data: Arc::new(data), shape: shape.clone(), offset: 0, length };
        assert(made.elements() =~= elements);
        made
    }

    /// The tensor with axis `j` of this one as its axis `perm[j]`, in a
    /// buffer of its own, laid out in row-major order of the new shape.
    ///
    /// Refused with `InvalidPermutation` unless `perm` names each axis of
    /// this tensor exactly once.
    pub fn transpose(&self, perm: Vec<usize>) -> (turned: Result<Self, TensorError>)
        ensures
            turned is Ok <==> is_permutation(perm@, self.spec_shape().len()),
            turned matches Err(e) ==> e == TensorError::InvalidPermutation,
            turned matches Ok(t) ==> {
                &&& t.valid()
                &&& t.spec_shape() == permuted(self.spec_shape(), perm@)
                &&& t.spec_size() == self.spec_size()
                &&& t.spec_offset() == 0
                &&& t.buffer() == t.elements()
                &&& t.elements() == transposed(self.elements(), self.spec_shape(), perm@)
            },
    {
        proof {
            use_type_invariant(self);
        }
        let rank = self.shape.len();
        if perm.len() != rank || inverse_permutation(&perm).is_none() {
            return Err(TensorError::InvalidPermutation);
        }
        let ghost shape = self.shape@;
        let ghost source = self.elements();
        let size = self.length;
        let new_shape = permute(&self.shape, &perm);
        proof {
            lemma_permuted_size(shape, perm@);
        }
        if size == 0 {
            let empty: Vec<T> = Vec::new();
            let turned = Tensor { data: Arc::new(empty), shape: new_shape, offset: 0, length: 0 };
            assert(turned.elements() =~= transposed(source, shape, perm@));
            assert(turned.buffer() =~= turned.elements());
            return Ok(turned);
        }
        proof {
            lemma_nonempty_is_positive(shape);
            lemma_permuted_positive(shape, perm@);
            assert forall|axis: int| 0 <= axis < rank implies 0 < #[trigger] stride(shape, axis)
                <= usize::MAX by {
                lemma_tail_size(shape, axis + 1);
            }
            assert forall|axis: int| 0 <= axis < rank implies #[trigger] stride(new_shape@, axis)
                <= usize::MAX by {
                lemma_tail_size(new_shape@, axis + 1);
            }
        }
        let old_strides = compute_strides(&self.shape);
        let new_strides = compute_strides(&new_shape);
        proof {
            assert(as_nats(old_strides@).len() == old_strides@.len());
            assert(strides(shape).len() == rank);
            assert forall|axis: int| 0 <= axis < rank implies old_strides[axis] > 0 by {
                assert(as_nats(old_strides@)[axis] == strides(shape)[axis]);
                assert(stride(shape, axis) > 0);
            }
        }
        let data = self.data();
        let mut new_data: Vec<T> = Vec::with_capacity(size);
        let mut filled: usize = 0;
        while filled < size
            invariant
                filled <= size,
                new_data.len() == filled,
            decreases size - filled,
        {
            new_data.push(T::default());
            filled += 1;
        }
        let mut position: usize = 0;
        while position < size
            invariant
                position <= size,
                size == shape_size(shape),
                size == data@.len(),
                data@ == source,
                new_data.len() == size,
                rank == shape.len(),
                perm@.len() == rank,
                is_permutation(perm@, rank as nat),
                new_shape@ == permuted(shape, perm@),
                shape_size(new_shape@) == size,
                as_nats(old_strides@) == strides(shape),
                as_nats(new_strides@) == strides(new_shape@),
                forall|axis: int| 0 <= axis < rank ==> old_strides[axis] > 0,
                forall|done: int|
                    0 <= done < position ==> new_data[target_position(
                        shape,
                        perm@,
                        done as nat,
                    ) as int] == source[done],
            decreases size - position,
        {
            let old_index = compute_index(position, &old_strides);
            proof {
                lemma_unravel_in_bounds(shape, position as nat);
                assert(as_nats(old_index@) == unravel(shape, position as nat));
                assert(old_index@.len() == rank);
            }
            let new_index = permute(&old_index, &perm);
            proof {
                lemma_permuted_in_bounds(shape, perm@, unravel(shape, position as nat));
                lemma_origin(perm@, rank as nat);
                assert(as_nats(new_index@) =~= permuted(unravel(shape, position as nat), perm@));
                lemma_ravel_in_bounds(new_shape@, as_nats(new_index@));
            }
            let new_flat_index = compute_flat_index(new_index, &new_strides);
            let ghost before = new_data@;
            new_data.set(new_flat_index, data[position]);
            proof {
                assert(new_flat_index == target_position(shape, perm@, position as nat));
                lemma_positions_correspond(shape, perm@, position as nat);
                assert forall|done: int| 0 <= done < position + 1 implies new_data[target_position(
                    shape,
                    perm@,
                    done as nat,
                ) as int] == source[done] by {
                    if done < position {
                        lemma_positions_correspond(shape, perm@, done as nat);
                        assert(before[target_position(shape, perm@, done as nat) as int]
                            == source[done]);
                    }
                }
            }
            position += 1;
        }
        proof {
            assert forall|place: int| 0 <= place < size implies new_data[place] == transposed(
                source,
                shape,
                perm@,
            )[place] by {
                lemma_positions_correspond(shape, perm@, place as nat);
                let from = source_position(shape, perm@, place as nat);
                assert(new_data[target_position(shape, perm@, from) as int] == source[from as int]);
            }
            assert(new_data@ =~= transposed(source, shape, perm@));
        }
        let ghost elements = new_data@;
        let turned = Tensor { data: Arc::new(new_data), shape: new_shape, offset: 0, length: size };
        assert(turned.elements() =~= elements);
        Ok(turned)
    }
}

} // verus!
