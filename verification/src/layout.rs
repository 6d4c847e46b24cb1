//! Row-major layout arithmetic: element counts, strides, and the passage
//! between flat positions and per-axis coordinates.

use vstd::arithmetic::div_mod::{
    lemma_fundamental_div_mod,
    lemma_fundamental_div_mod_converse,
    lemma_mod_bound,
    lemma_mod_multiples_vanish,
    lemma_small_mod,
};
use vstd::arithmetic::mul::lemma_mul_is_commutative;
use vstd::prelude::*;

verus! {

/// The number of elements that a shape describes: the product of its
/// dimensions, and 1 for the empty shape.
pub open spec fn shape_size(shape: Seq<usize>) -> nat
    decreases shape.len(),
{
    if shape.len() == 0 {
        1
    } else {
        shape[0] as nat * shape_size(shape.skip(1))
    }
}

/// Every dimension of the shape is at least 1.
pub open spec fn all_positive(shape: Seq<usize>) -> bool {
    forall|axis: int| 0 <= axis < shape.len() ==> shape[axis] > 0
}

/// The row-major stride of an axis: the distance in the flat order between
/// neighbours along that axis, which is the product of the later dimensions.
pub open spec fn stride(shape: Seq<usize>, axis: int) -> nat {
    shape_size(shape.skip(axis + 1))
}

/// The row-major strides of all axes of a shape.
pub open spec fn strides(shape: Seq<usize>) -> Seq<nat> {
    Seq::new(shape.len(), |axis: int| stride(shape, axis))
}

/// A sequence of machine integers as natural numbers.
pub open spec fn as_nats(values: Seq<usize>) -> Seq<nat> {
    Seq::new(values.len(), |i: int| values[i] as nat)
}

/// The digits of `index` under `strides`: for each stride in turn, how often
/// it fits into what the strides before it left over.
pub open spec fn split_index(index: nat, strides: Seq<nat>) -> Seq<nat>
    decreases strides.len(),
{
    if strides.len() == 0 {
        Seq::empty()
    } else {
        seq![index / strides[0]] + split_index(index % strides[0], strides.skip(1))
    }
}

/// The sum of the coordinates, each weighted by the stride of its axis.
pub open spec fn flat_index(coords: Seq<nat>, strides: Seq<nat>) -> nat
    decreases coords.len(),
{
    if coords.len() == 0 {
        0
    } else {
        coords[0] * strides[0] + flat_index(coords.skip(1), strides.skip(1))
    }
}

/// The coordinates of a flat position in a row-major layout of `shape`.
pub open spec fn unravel(shape: Seq<usize>, position: nat) -> Seq<nat> {
    split_index(position, strides(shape))
}

/// The flat position of coordinates in a row-major layout of `shape`.
pub open spec fn ravel(shape: Seq<usize>, coords: Seq<nat>) -> nat {
    flat_index(coords, strides(shape))
}

/// There is one coordinate for each axis, and each lies inside its
/// dimension.
pub open spec fn in_bounds(shape: Seq<usize>, coords: Seq<nat>) -> bool {
    &&& coords.len() == shape.len()
    &&& forall|axis: int| 0 <= axis < shape.len() ==> coords[axis] < shape[axis]
}

/// A shape with a zero dimension describes no elements.
pub proof fn lemma_zero_dimension(shape: Seq<usize>, axis: int)
    requires
        0 <= axis < shape.len(),
        shape[axis] == 0,
    ensures
        shape_size(shape) == 0,
    decreases shape.len(),
{
    if axis > 0 {
        lemma_zero_dimension(shape.skip(1), axis - 1);
        assert(shape[0] as nat * 0 == 0) by (nonlinear_arith);
    } else {
        assert(0 * shape_size(shape.skip(1)) == 0) by (nonlinear_arith);
    }
}

/// A shape that describes at least one element has no zero dimension.
pub proof fn lemma_nonempty_is_positive(shape: Seq<usize>)
    requires
        shape_size(shape) > 0,
    ensures
        all_positive(shape),
{
    assert forall|axis: int| 0 <= axis < shape.len() implies shape[axis] > 0 by {
        if shape[axis] == 0 {
            lemma_zero_dimension(shape, axis);
        }
    }
}

/// The size of a shape is the product of the sizes of its two parts.
pub proof fn lemma_size_split(shape: Seq<usize>, at: int)
    requires
        0 <= at <= shape.len(),
    ensures
        shape_size(shape) == shape_size(shape.take(at)) * shape_size(shape.skip(at)),
    decreases at,
{
    if at == 0 {
        assert(shape.skip(0) =~= shape);
        assert(shape.take(0).len() == 0);
        assert(shape_size(shape.take(0)) == 1);
    } else {
        let rest = shape.skip(1);
        lemma_size_split(rest, at - 1);
        assert(rest.take(at - 1) =~= shape.take(at).skip(1));
        assert(rest.skip(at - 1) =~= shape.skip(at));
        let head = shape[0] as nat;
        let left = shape_size(rest.take(at - 1));
        let right = shape_size(shape.skip(at));
        assert(shape.take(at)[0] == shape[0]);
        assert(shape_size(shape.take(at)) == head * left);
        assert(shape_size(shape) == head * (left * right));
        assert(head * (left * right) == (head * left) * right) by (nonlinear_arith);
    }
}

/// A shape of positive dimensions describes at least one element.
pub proof fn lemma_positive_size(shape: Seq<usize>)
    requires
        all_positive(shape),
    ensures
        shape_size(shape) >= 1,
    decreases shape.len(),
{
    if shape.len() > 0 {
        lemma_positive_size(shape.skip(1));
        let rest = shape_size(shape.skip(1));
        assert(1 <= shape[0] as nat * rest) by (nonlinear_arith)
            requires
                shape[0] >= 1,
                rest >= 1,
        ;
    }
}

/// In a shape of positive dimensions every tail, and so every stride, is at
/// least 1 and at most the size of the whole.
pub proof fn lemma_tail_size(shape: Seq<usize>, from: int)
    requires
        all_positive(shape),
        0 <= from <= shape.len(),
    ensures
        1 <= shape_size(shape.skip(from)) <= shape_size(shape),
{
    lemma_size_split(shape, from);
    lemma_positive_size(shape.take(from));
    lemma_positive_size(shape.skip(from));
    let left = shape_size(shape.take(from));
    let right = shape_size(shape.skip(from));
    assert(right <= left * right) by (nonlinear_arith)
        requires
            left >= 1,
    ;
}

/// The stride of the last axis is 1, and the stride of every other axis is
/// the stride of the next axis times the dimension of the next axis.
pub proof fn lemma_stride_recurrence(shape: Seq<usize>, axis: int)
    requires
        0 <= axis < shape.len(),
    ensures
        axis == shape.len() - 1 ==> stride(shape, axis) == 1,
        axis < shape.len() - 1 ==> stride(shape, axis) == shape[axis + 1] as nat * stride(
            shape,
            axis + 1,
        ),
{
    let later = shape.skip(axis + 1);
    if axis < shape.len() - 1 {
        assert(later.skip(1) =~= shape.skip(axis + 2));
        assert(later[0] == shape[axis + 1]);
    } else {
        assert(later.len() == 0);
    }
}

/// The strides of a shape without its first axis are the strides of the
/// shape without the first.
pub proof fn lemma_strides_of_tail(shape: Seq<usize>)
    requires
        shape.len() > 0,
    ensures
        strides(shape).skip(1) == strides(shape.skip(1)),
        strides(shape)[0] == shape_size(shape.skip(1)),
{
    assert forall|axis: int| 0 <= axis < shape.len() - 1 implies strides(shape).skip(1)[axis]
        == strides(shape.skip(1))[axis] by {
        assert(shape.skip(1).skip(axis + 1) =~= shape.skip(axis + 2));
    }
    assert(strides(shape).skip(1) =~= strides(shape.skip(1)));
}

/// The coordinates of a position inside a shape lie inside the shape.
pub proof fn lemma_unravel_in_bounds(shape: Seq<usize>, position: nat)
    requires
        position < shape_size(shape),
    ensures
        in_bounds(shape, unravel(shape, position)),
    decreases shape.len(),
{
    if shape.len() > 0 {
        lemma_strides_of_tail(shape);
        let inner = shape_size(shape.skip(1));
        let outer = shape[0] as nat;
        assert(inner > 0) by (nonlinear_arith)
            requires
                position < outer * inner,
        ;
        lemma_mod_bound(position as int, inner as int);
        lemma_unravel_in_bounds(shape.skip(1), position % inner);
        lemma_fundamental_div_mod(position as int, inner as int);
        assert(position / inner < outer) by (nonlinear_arith)
            requires
                position < outer * inner,
                position == inner * (position / inner) + position % inner,
                0 <= position % inner,
                inner > 0,
        ;
        let coords = unravel(shape, position);
        let rest = unravel(shape.skip(1), position % inner);
        assert(coords =~= seq![position / inner] + rest);
        assert forall|axis: int| 0 <= axis < shape.len() implies coords[axis] < shape[axis] by {
            if axis > 0 {
                assert(coords[axis] == rest[axis - 1]);
                assert(shape.skip(1)[axis - 1] == shape[axis]);
            }
        }
    }
}

/// Coordinates inside a shape have a position inside the shape.
pub proof fn lemma_ravel_in_bounds(shape: Seq<usize>, coords: Seq<nat>)
    requires
        in_bounds(shape, coords),
    ensures
        ravel(shape, coords) < shape_size(shape),
    decreases shape.len(),
{
    if shape.len() > 0 {
        lemma_strides_of_tail(shape);
        let inner = shape_size(shape.skip(1));
        let outer = shape[0] as nat;
        let rest = coords.skip(1);
        assert forall|axis: int| 0 <= axis < shape.len() - 1 implies rest[axis] < shape.skip(
            1,
        )[axis] by {
            assert(rest[axis] == coords[axis + 1]);
        }
        lemma_ravel_in_bounds(shape.skip(1), rest);
        let first = coords[0];
        let low = ravel(shape.skip(1), rest);
        assert(first * inner + low < outer * inner) by (nonlinear_arith)
            requires
                first < outer,
                low < inner,
        ;
    }
}

/// The position of the coordinates of a position is that position.
pub proof fn lemma_ravel_unravel(shape: Seq<usize>, position: nat)
    requires
        position < shape_size(shape),
    ensures
        ravel(shape, unravel(shape, position)) == position,
    decreases shape.len(),
{
    if shape.len() > 0 {
        lemma_strides_of_tail(shape);
        let inner = shape_size(shape.skip(1));
        let outer = shape[0] as nat;
        assert(inner > 0) by (nonlinear_arith)
            requires
                position < outer * inner,
        ;
        lemma_mod_bound(position as int, inner as int);
        lemma_ravel_unravel(shape.skip(1), position % inner);
        lemma_fundamental_div_mod(position as int, inner as int);
        let coords = unravel(shape, position);
        let rest = unravel(shape.skip(1), position % inner);
        assert(coords =~= seq![position / inner] + rest);
        assert(coords.skip(1) =~= rest);
        lemma_mul_is_commutative((position / inner) as int, inner as int);
    }
}

/// The coordinates of the position of coordinates are those coordinates.
pub proof fn lemma_unravel_ravel(shape: Seq<usize>, coords: Seq<nat>)
    requires
        in_bounds(shape, coords),
    ensures
        unravel(shape, ravel(shape, coords)) == coords,
    decreases shape.len(),
{
    if shape.len() == 0 {
        assert(unravel(shape, ravel(shape, coords)) =~= coords);
    } else {
        lemma_strides_of_tail(shape);
        let inner = shape_size(shape.skip(1));
        let rest = coords.skip(1);
        assert forall|axis: int| 0 <= axis < shape.len() - 1 implies rest[axis] < shape.skip(
            1,
        )[axis] by {
            assert(rest[axis] == coords[axis + 1]);
        }
        lemma_ravel_in_bounds(shape.skip(1), rest);
        lemma_unravel_ravel(shape.skip(1), rest);
        let low = ravel(shape.skip(1), rest);
        let position = ravel(shape, coords);
        lemma_mul_is_commutative(coords[0] as int, inner as int);
        lemma_fundamental_div_mod_converse(
            position as int,
            inner as int,
            coords[0] as int,
            low as int,
        );
        assert(unravel(shape, position) =~= seq![coords[0]] + rest);
        assert(seq![coords[0]] + rest =~= coords);
    }
}

/// The coordinate along one axis is the number of whole strides of that
/// axis in the position, counted modulo the dimension.
pub proof fn lemma_unravel_component(shape: Seq<usize>, position: nat, axis: int)
    requires
        position < shape_size(shape),
        0 <= axis < shape.len(),
    ensures
        unravel(shape, position)[axis] == (position / stride(shape, axis)) % (shape[axis] as nat),
    decreases shape.len(),
{
    lemma_strides_of_tail(shape);
    let inner = shape_size(shape.skip(1));
    let outer = shape[0] as nat;
    assert(inner > 0) by (nonlinear_arith)
        requires
            position < outer * inner,
    ;
    lemma_mod_bound(position as int, inner as int);
    let coords = unravel(shape, position);
    let rest = unravel(shape.skip(1), position % inner);
    assert(coords =~= seq![position / inner] + rest);
    if axis == 0 {
        lemma_unravel_in_bounds(shape, position);
        lemma_small_mod(position / inner, outer);
    } else {
        lemma_unravel_component(shape.skip(1), position % inner, axis - 1);
        lemma_unravel_in_bounds(shape.skip(1), position % inner);
        assert(shape.skip(1).skip(axis) =~= shape.skip(axis + 1));
        assert(coords[axis] == rest[axis - 1]);
        let blocks = lemma_inner_blocks(shape, axis);
        lemma_component_arithmetic(
            position,
            inner,
            stride(shape, axis),
            shape[axis] as nat,
            blocks,
        );
    }
}

/// The part of a shape after its first axis is whole blocks of one later
/// axis: its size is a multiple of that axis's dimension times its stride.
proof fn lemma_inner_blocks(shape: Seq<usize>, axis: int) -> (blocks: nat)
    requires
        0 < axis < shape.len(),
    ensures
        shape_size(shape.skip(1)) == blocks * (shape[axis] as nat * stride(shape, axis)),
{
    let tail = shape.skip(1);
    lemma_size_split(tail, axis - 1);
    assert(tail.skip(axis - 1) =~= shape.skip(axis));
    assert(shape.skip(axis).skip(1) =~= shape.skip(axis + 1));
    assert(shape.skip(axis)[0] == shape[axis]);
    let blocks = shape_size(tail.take(axis - 1));
    blocks
}

/// Reducing a position modulo a multiple of `extent * step` does not change
/// its digit for `step`.
proof fn lemma_component_arithmetic(
    position: nat,
    inner: nat,
    step: nat,
    extent: nat,
    blocks: nat,
)
    requires
        inner > 0,
        inner == blocks * (extent * step),
    ensures
        ((position % inner) / step) % extent == (position / step) % extent,
{
    assert(step > 0 && extent > 0) by (nonlinear_arith)
        requires
            inner > 0,
            inner == blocks * (extent * step),
    ;
    let q = position / inner;
    let r = position % inner;
    let lift = q * blocks;
    lemma_fundamental_div_mod(position as int, inner as int);
    assert(position == r + (lift * extent) * step) by (nonlinear_arith)
        requires
            position == inner * q + r,
            inner == blocks * (extent * step),
            lift == q * blocks,
    ;
    // position / step == r / step + lift * extent
    lemma_fundamental_div_mod(r as int, step as int);
    lemma_mod_bound(r as int, step as int);
    assert(position == step * (r / step + lift * extent) + r % step) by (nonlinear_arith)
        requires
            position == r + (lift * extent) * step,
            r == step * (r / step) + r % step,
    ;
    lemma_fundamental_div_mod_converse(
        position as int,
        step as int,
        (r / step + lift * extent) as int,
        (r % step) as int,
    );
    // adding whole multiples of extent leaves the residue alone
    lemma_mod_multiples_vanish(lift as int, (r / step) as int, extent as int);
    assert(extent * lift == lift * extent) by (nonlinear_arith);
}

/// The element count of `shape`, where it fits in a `usize`.
pub fn element_count(shape: &Vec<usize>) -> (count: Option<usize>)
    ensures
        count matches Some(n) ==> n == shape_size(shape@),
        count is None <==> shape_size(shape@) > usize::MAX,
{
    let rank = shape.len();
    let mut axis: usize = 0;
    while axis < rank
        invariant
            rank == shape.len(),
            axis <= rank,
            forall|i: int| 0 <= i < axis ==> shape[i] > 0,
        decreases rank - axis,
    {
        if shape[axis] == 0 {
            proof {
                lemma_zero_dimension(shape@, axis as int);
            }
            return Some(0);
        }
        axis += 1;
    }
    let mut count: usize = 1;
    let mut left: usize = rank;
    assert(shape@.skip(rank as int).len() == 0);
    while left > 0
        invariant
            rank == shape.len(),
            left <= rank,
            all_positive(shape@),
            count == shape_size(shape@.skip(left as int)),
        decreases left,
    {
        left -= 1;
        proof {
            assert(shape@.skip(left as int).skip(1) =~= shape@.skip(left as int + 1));
            assert(shape@.skip(left as int)[0] == shape[left as int]);
            lemma_tail_size(shape@, left as int);
        }
        match shape[left].checked_mul(count) {
            Some(product) => {
                count = product;
            },
            None => {
                return None;
            },
        }
    }
    assert(shape@.skip(0) =~= shape@);
    Some(count)
}

/// The row-major strides of `shape`: 1 for the last axis, and for every
/// other axis the stride of the next axis times the dimension of the next
/// axis.
pub fn compute_strides(shape: &Vec<usize>) -> (computed: Vec<usize>)
    requires
        forall|axis: int| 0 <= axis < shape.len() ==> stride(shape@, axis) <= usize::MAX,
    ensures
        as_nats(computed@) == strides(shape@),
{
    let rank = shape.len();
    let mut computed: Vec<usize> = vec![0; rank];
    let mut step: usize = 1;
    let mut axis: usize = rank;
    assert(shape@.skip(rank as int).len() == 0);
    while axis > 0
        invariant
            rank == shape.len(),
            computed.len() == rank,
            axis <= rank,
            axis > 0 ==> step == shape_size(shape@.skip(axis as int)),
            forall|done: int| axis <= done < rank ==> computed[done] == stride(shape@, done),
            forall|a: int| 0 <= a < shape.len() ==> stride(shape@, a) <= usize::MAX,
        decreases axis,
    {
        axis -= 1;
        computed.set(axis, step);
        if axis > 0 {
            proof {
                assert(shape@.skip(axis as int).skip(1) =~= shape@.skip(axis as int + 1));
                assert(shape@.skip(axis as int)[0] == shape[axis as int]);
                assert(stride(shape@, axis as int - 1) == shape[axis as int] as nat * step);
            }
            step = shape[axis] * step;
        }
    }
    assert(as_nats(computed@) =~= strides(shape@));
    computed
}

/// The digits of `index` under `strides`: each entry is the number of times
/// its stride fits into what the earlier strides left over.
pub fn compute_index(index: usize, strides: &Vec<usize>) -> (coords: Vec<usize>)
    requires
        forall|axis: int| 0 <= axis < strides.len() ==> strides[axis] > 0,
    ensures
        as_nats(coords@) == split_index(index as nat, as_nats(strides@)),
{
    let rank = strides.len();
    let ghost steps = as_nats(strides@);
    let mut coords: Vec<usize> = Vec::with_capacity(rank);
    let mut remainder = index;
    let mut axis: usize = 0;
    assert(steps.skip(0) =~= steps);
    assert(as_nats(coords@) + split_index(remainder as nat, steps.skip(0)) =~= split_index(
        index as nat,
        steps,
    ));
    while axis < rank
        invariant
            rank == strides.len(),
            steps == as_nats(strides@),
            axis <= rank,
            coords.len() == axis,
            forall|a: int| 0 <= a < strides.len() ==> strides[a] > 0,
            as_nats(coords@) + split_index(remainder as nat, steps.skip(axis as int))
                == split_index(index as nat, steps),
        decreases rank - axis,
    {
        let ghost before = as_nats(coords@);
        let ghost rest = steps.skip(axis as int);
        let step = strides[axis];
        proof {
            assert(rest[0] == step);
            assert(rest.skip(1) =~= steps.skip(axis as int + 1));
        }
        coords.push(remainder / step);
        proof {
            assert(as_nats(coords@) =~= before + seq![(remainder / step) as nat]);
            assert(before + (seq![(remainder / step) as nat] + split_index(
                (remainder % step) as nat,
                rest.skip(1),
            )) =~= (before + seq![(remainder / step) as nat]) + split_index(
                (remainder % step) as nat,
                rest.skip(1),
            ));
        }
        remainder = remainder % step;
        axis += 1;
    }
    assert(steps.skip(rank as int).len() == 0);
    assert(as_nats(coords@) + Seq::<nat>::empty() =~= as_nats(coords@));
    coords
}

/// The flat position of `coords` under `strides`: the sum of each
/// coordinate times the stride of its axis.
pub fn compute_flat_index(coords: Vec<usize>, strides: &Vec<usize>) -> (position: usize)
    requires
        coords.len() <= strides.len(),
        flat_index(as_nats(coords@), as_nats(strides@)) <= usize::MAX,
    ensures
        position == flat_index(as_nats(coords@), as_nats(strides@)),
{
    let rank = coords.len();
    let ghost places = as_nats(coords@);
    let ghost steps = as_nats(strides@);
    let mut position: usize = 0;
    let mut axis: usize = 0;
    assert(places.skip(0) =~= places);
    assert(steps.skip(0) =~= steps);
    while axis < rank
        invariant
            rank == coords.len(),
            rank <= strides.len(),
            places == as_nats(coords@),
            steps == as_nats(strides@),
            axis <= rank,
            position + flat_index(places.skip(axis as int), steps.skip(axis as int))
                == flat_index(places, steps),
            flat_index(places, steps) <= usize::MAX,
        decreases rank - axis,
    {
        let ghost here = places.skip(axis as int);
        let ghost weights = steps.skip(axis as int);
        proof {
            assert(here[0] == coords[axis as int]);
            assert(weights[0] == strides[axis as int]);
            assert(here.skip(1) =~= places.skip(axis as int + 1));
            assert(weights.skip(1) =~= steps.skip(axis as int + 1));
            assert(flat_index(here, weights) == here[0] * weights[0] + flat_index(
                here.skip(1),
                weights.skip(1),
            ));
        }
        position = position + coords[axis] * strides[axis];
        axis += 1;
    }
    assert(places.skip(rank as int).len() == 0);
    position
}

} // verus!
