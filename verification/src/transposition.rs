//! What a transposition does to the flat order of the elements.

use crate::layout::{
    in_bounds,
    lemma_ravel_in_bounds,
    lemma_ravel_unravel,
    lemma_unravel_in_bounds,
    lemma_unravel_ravel,
    ravel,
    shape_size,
    unravel,
};
use crate::permutation::{
    gathered,
    identity,
    inverse,
    is_permutation,
    lemma_identity,
    lemma_inverse,
    lemma_inverse_unique,
    lemma_origin,
    lemma_permuted,
    lemma_permuted_identity,
    lemma_permuted_size,
    permuted,
};
use vstd::prelude::*;

verus! {

/// Where the element at `position` of a tensor of `shape` goes when the
/// axes are permuted: its coordinates are rearranged like the axes and
/// read in the layout of the rearranged shape.
pub open spec fn target_position(shape: Seq<usize>, perm: Seq<usize>, position: nat) -> nat {
    ravel(permuted(shape, perm), permuted(unravel(shape, position), perm))
}

/// Where the element that stands at `position` after the axes were
/// permuted came from.
pub open spec fn source_position(shape: Seq<usize>, perm: Seq<usize>, position: nat) -> nat {
    ravel(shape, gathered(unravel(permuted(shape, perm), position), perm))
}

/// The elements of a tensor of `shape` after axis `j` has become axis
/// `perm[j]`, in row-major order of the permuted shape.
pub open spec fn transposed<T>(elements: Seq<T>, shape: Seq<usize>, perm: Seq<usize>) -> Seq<T> {
    Seq::new(
        elements.len(),
        |position: int| elements[source_position(shape, perm, position as nat) as int],
    )
}

/// Rearranged coordinates lie inside the rearranged shape.
pub proof fn lemma_permuted_in_bounds(shape: Seq<usize>, perm: Seq<usize>, coords: Seq<nat>)
    requires
        is_permutation(perm, shape.len()),
        in_bounds(shape, coords),
    ensures
        in_bounds(permuted(shape, perm), permuted(coords, perm)),
{
    lemma_origin(perm, shape.len());
}

/// Coordinates gathered back from the rearranged shape lie inside the
/// shape.
pub proof fn lemma_gathered_in_bounds(shape: Seq<usize>, perm: Seq<usize>, coords: Seq<nat>)
    requires
        is_permutation(perm, shape.len()),
        in_bounds(permuted(shape, perm), coords),
    ensures
        in_bounds(shape, gathered(coords, perm)),
{
    lemma_origin(perm, shape.len());
    lemma_permuted(shape, perm);
    assert forall|axis: int| 0 <= axis < shape.len() implies gathered(coords, perm)[axis]
        < shape[axis] by {
        assert(permuted(shape, perm)[perm[axis] as int] == shape[axis]);
    }
}

/// Transposition moves the positions of a tensor one to one onto the
/// positions of the result: `target_position` and `source_position` undo
/// each other.
pub proof fn lemma_positions_correspond(shape: Seq<usize>, perm: Seq<usize>, position: nat)
    requires
        is_permutation(perm, shape.len()),
        position < shape_size(shape),
    ensures
        target_position(shape, perm, position) < shape_size(shape),
        source_position(shape, perm, position) < shape_size(shape),
        source_position(shape, perm, target_position(shape, perm, position)) == position,
        target_position(shape, perm, source_position(shape, perm, position)) == position,
{
    let moved = permuted(shape, perm);
    lemma_permuted_size(shape, perm);
    lemma_permuted(shape, perm);
    // forwards, then back
    let coords = unravel(shape, position);
    lemma_unravel_in_bounds(shape, position);
    lemma_permuted_in_bounds(shape, perm, coords);
    let there = permuted(coords, perm);
    lemma_ravel_in_bounds(moved, there);
    lemma_unravel_ravel(moved, there);
    lemma_permuted(coords, perm);
    lemma_ravel_unravel(shape, position);
    // backwards, then forth
    let landed = unravel(moved, position);
    lemma_unravel_in_bounds(moved, position);
    lemma_gathered_in_bounds(shape, perm, landed);
    let here = gathered(landed, perm);
    lemma_ravel_in_bounds(shape, here);
    lemma_unravel_ravel(shape, here);
    lemma_permuted(landed, perm);
    lemma_ravel_unravel(moved, position);
}

/// What transposition yields has every element of the source, at the place
/// that `target_position` gives.
pub proof fn lemma_transposed_scatters<T>(
    elements: Seq<T>,
    shape: Seq<usize>,
    perm: Seq<usize>,
    position: nat,
)
    requires
        is_permutation(perm, shape.len()),
        elements.len() == shape_size(shape),
        position < elements.len(),
    ensures
        target_position(shape, perm, position) < elements.len(),
        transposed(elements, shape, perm)[target_position(shape, perm, position) as int]
            == elements[position as int],
{
    lemma_positions_correspond(shape, perm, position);
}

/// Transposing by a permutation and then by its inverse gives back the
/// shape and the elements.
pub proof fn lemma_transpose_inverse<T>(
    elements: Seq<T>,
    shape: Seq<usize>,
    perm: Seq<usize>,
    back: Seq<usize>,
)
    requires
        is_permutation(perm, shape.len()),
        elements.len() == shape_size(shape),
        back.len() == perm.len(),
        forall|axis: int| 0 <= axis < perm.len() ==> back[#[trigger] perm[axis] as int] == axis,
    ensures
        is_permutation(back, shape.len()),
        permuted(permuted(shape, perm), back) == shape,
        transposed(transposed(elements, shape, perm), permuted(shape, perm), back) == elements,
{
    let rank = shape.len();
    lemma_inverse_unique(perm, back, rank);
    lemma_inverse(perm, rank);
    lemma_permuted(shape, perm);
    lemma_permuted_size(shape, perm);
    let moved = permuted(shape, perm);
    let once = transposed(elements, shape, perm);
    let twice = transposed(once, moved, back);
    assert forall|position: int| 0 <= position < elements.len() implies twice[position]
        == elements[position] by {
        let p = position as nat;
        // the source of `p` under `back` is the target of `p` under `perm`
        let coords = unravel(shape, p);
        lemma_unravel_in_bounds(shape, p);
        lemma_permuted(coords, perm);
        assert(gathered(coords, back) == permuted(coords, perm));
        assert(source_position(moved, back, p) == target_position(shape, perm, p));
        lemma_positions_correspond(shape, perm, p);
    }
    assert(twice =~= elements);
}

/// Transposing by the identity changes neither the shape nor the elements.
pub proof fn lemma_transpose_identity<T>(elements: Seq<T>, shape: Seq<usize>)
    requires
        elements.len() == shape_size(shape),
        shape.len() <= usize::MAX,
    ensures
        is_permutation(identity(shape.len()), shape.len()),
        permuted(shape, identity(shape.len())) == shape,
        transposed(elements, shape, identity(shape.len())) == elements,
{
    let id = identity(shape.len());
    lemma_identity(shape.len());
    lemma_permuted_identity(shape);
    assert forall|position: int| 0 <= position < elements.len() implies transposed(
        elements,
        shape,
        id,
    )[position] == elements[position] by {
        let p = position as nat;
        let coords = unravel(shape, p);
        lemma_unravel_in_bounds(shape, p);
        lemma_permuted_identity(coords);
        assert(gathered(coords, id) =~= coords);
        lemma_ravel_unravel(shape, p);
    }
    assert(transposed(elements, shape, id) =~= elements);
}

} // verus!
