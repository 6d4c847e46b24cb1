//! Permutations of axes, and what they do to shapes and coordinates.

use crate::layout::{all_positive, lemma_size_split, shape_size};
use vstd::prelude::*;

verus! {

/// `perm` names each of the axes `0..rank` exactly once.
pub open spec fn is_permutation(perm: Seq<usize>, rank: nat) -> bool {
    &&& perm.len() == rank
    &&& forall|from: int| 0 <= from < rank ==> perm[from] < rank
    &&& forall|a: int, b: int| 0 <= a < b < rank ==> perm[a] != perm[b]
}

/// `perm` sends position `from` to place `to`.
pub open spec fn sent_to(perm: Seq<usize>, from: int, to: int) -> bool {
    0 <= from < perm.len() && perm[from] == to
}

/// `perm` sends some position to place `to`.
pub open spec fn reaches(perm: Seq<usize>, to: int) -> bool {
    exists|from: int| sent_to(perm, from, to)
}

/// The position that `perm` sends to `to`.
pub open spec fn origin(perm: Seq<usize>, to: int) -> int {
    choose|from: int| sent_to(perm, from, to)
}

/// The permutation that undoes `perm`.
pub open spec fn inverse(perm: Seq<usize>) -> Seq<usize> {
    Seq::new(perm.len(), |to: int| origin(perm, to) as usize)
}

/// The permutation that leaves every axis in its place.
pub open spec fn identity(rank: nat) -> Seq<usize> {
    Seq::new(rank, |axis: int| axis as usize)
}

/// `items` rearranged so that the item at position `j` comes to stand at
/// position `perm[j]`.
pub open spec fn permuted<A>(items: Seq<A>, perm: Seq<usize>) -> Seq<A> {
    Seq::new(items.len(), |to: int| items[origin(perm, to)])
}

/// The items found at the positions that `perm` lists, in the order of the
/// list. This undoes `permuted`.
pub open spec fn gathered<A>(items: Seq<A>, perm: Seq<usize>) -> Seq<A> {
    Seq::new(perm.len(), |from: int| items[perm[from] as int])
}

/// Distinct values below `bound` are at most `bound` many.
proof fn lemma_distinct_count(values: Seq<int>, bound: int)
    requires
        0 <= bound,
        forall|i: int| 0 <= i < values.len() ==> 0 <= #[trigger] values[i] < bound,
        forall|a: int, b: int| 0 <= a < b < values.len() ==> values[a] != values[b],
    ensures
        values.len() <= bound,
    decreases bound,
{
    if values.len() == 0 {
    } else if bound == 0 {
        assert(0 <= values[0] < bound);
    } else {
        let top = bound - 1;
        if exists|k: int| 0 <= k < values.len() && values[k] == top {
            let k = choose|k: int| 0 <= k < values.len() && values[k] == top;
            let rest = values.remove(k);
            assert forall|i: int| 0 <= i < rest.len() implies 0 <= #[trigger] rest[i] < top by {
                let j = if i < k {
                    i
                } else {
                    i + 1
                };
                assert(rest[i] == values[j]);
                if j < k {
                    assert(values[j] != values[k]);
                } else {
                    assert(values[k] != values[j]);
                }
            }
            assert forall|a: int, b: int| 0 <= a < b < rest.len() implies rest[a] != rest[b] by {
                let ja = if a < k {
                    a
                } else {
                    a + 1
                };
                let jb = if b < k {
                    b
                } else {
                    b + 1
                };
                assert(rest[a] == values[ja] && rest[b] == values[jb]);
                assert(values[ja] != values[jb]);
            }
            lemma_distinct_count(rest, top);
        } else {
            assert forall|i: int| 0 <= i < values.len() implies 0 <= #[trigger] values[i]
                < top by {}
            lemma_distinct_count(values, top);
        }
    }
}

/// A permutation sends some position to every place: as many distinct
/// values as there are places leave no place out.
pub proof fn lemma_reaches(perm: Seq<usize>, rank: nat, to: int)
    requires
        is_permutation(perm, rank),
        0 <= to < rank,
    ensures
        reaches(perm, to),
{
    if !reaches(perm, to) {
        let closed = Seq::new(
            rank,
            |i: int|
                if perm[i] > to {
                    perm[i] as int - 1
                } else {
                    perm[i] as int
                },
        );
        assert forall|i: int| 0 <= i < rank implies 0 <= #[trigger] closed[i] < rank - 1 by {
            assert(!sent_to(perm, i, to));
        }
        assert forall|a: int, b: int| 0 <= a < b < rank implies closed[a] != closed[b] by {
            assert(perm[a] != perm[b]);
            assert(!sent_to(perm, a, to));
            assert(!sent_to(perm, b, to));
        }
        lemma_distinct_count(closed, rank - 1);
    }
}

/// In a permutation, `origin` finds the one position sent to a given place.
pub proof fn lemma_origin(perm: Seq<usize>, rank: nat)
    requires
        is_permutation(perm, rank),
    ensures
        forall|to: int|
            0 <= to < rank ==> 0 <= #[trigger] origin(perm, to) < rank && perm[origin(perm, to)]
                == to,
        forall|from: int| 0 <= from < rank ==> origin(perm, #[trigger] perm[from] as int) == from,
        rank <= usize::MAX + 1,
{
    if rank > 0 {
        let top = rank - 1;
        lemma_reaches(perm, rank, top);
        let last = choose|from: int| sent_to(perm, from, top);
        assert(perm[last] == top);
    }
    assert forall|to: int| 0 <= to < rank implies 0 <= #[trigger] origin(perm, to) < rank
        && perm[origin(perm, to)] == to by {
        lemma_reaches(perm, rank, to);
        let from = choose|from: int| sent_to(perm, from, to);
        assert(sent_to(perm, from, to));
    }
    assert forall|from: int| 0 <= from < rank implies origin(perm, #[trigger] perm[from] as int)
        == from by {
        let to = perm[from] as int;
        assert(sent_to(perm, from, to));
        let found = origin(perm, to);
        assert(sent_to(perm, found, to));
        if found < from {
            assert(perm[found] != perm[from]);
        } else if from < found {
            assert(perm[from] != perm[found]);
        }
    }
}

/// The inverse of a permutation is a permutation, and sends each place back
/// to where it came from.
pub proof fn lemma_inverse(perm: Seq<usize>, rank: nat)
    requires
        is_permutation(perm, rank),
    ensures
        is_permutation(inverse(perm), rank),
        forall|from: int| 0 <= from < rank ==> inverse(perm)[#[trigger] perm[from] as int] == from,
        forall|to: int| 0 <= to < rank ==> perm[#[trigger] inverse(perm)[to] as int] == to,
        inverse(inverse(perm)) == perm,
{
    lemma_origin(perm, rank);
    let inv = inverse(perm);
    assert forall|a: int, b: int| 0 <= a < b < rank implies inv[a] != inv[b] by {
        assert(perm[origin(perm, a)] == a);
        assert(perm[origin(perm, b)] == b);
    }
    assert(is_permutation(inv, rank));
    lemma_origin(inv, rank);
    assert forall|i: int| 0 <= i < rank implies inverse(inv)[i] == perm[i] by {
        // inv sends perm[i] to i, so the origin of i under inv is perm[i]
        assert(inv[perm[i] as int] == i);
        assert(origin(inv, inv[perm[i] as int] as int) == perm[i] as int);
    }
    assert(inverse(inv) =~= perm);
}

/// A permutation is determined by where it sends each position: one that
/// sends `perm[j]` back to `j` for every `j` is the inverse of `perm`.
pub proof fn lemma_inverse_unique(perm: Seq<usize>, back: Seq<usize>, rank: nat)
    requires
        is_permutation(perm, rank),
        back.len() == rank,
        forall|from: int| 0 <= from < rank ==> back[#[trigger] perm[from] as int] == from,
    ensures
        back == inverse(perm),
{
    lemma_origin(perm, rank);
    assert forall|to: int| 0 <= to < rank implies back[to] == inverse(perm)[to] by {
        let from = origin(perm, to);
        assert(back[perm[from] as int] == from);
    }
    assert(back =~= inverse(perm));
}

/// The identity is a permutation and its own inverse.
pub proof fn lemma_identity(rank: nat)
    requires
        rank <= usize::MAX,
    ensures
        is_permutation(identity(rank), rank),
        inverse(identity(rank)) == identity(rank),
{
    let id = identity(rank);
    assert(is_permutation(id, rank));
    lemma_inverse_unique(id, id, rank);
}

/// Rearranging by a permutation puts the item at `j` at `perm[j]`, and
/// gathering by the same permutation puts it back.
pub proof fn lemma_permuted<A>(items: Seq<A>, perm: Seq<usize>)
    requires
        is_permutation(perm, items.len()),
    ensures
        permuted(items, perm).len() == items.len(),
        forall|from: int|
            0 <= from < items.len() ==> permuted(items, perm)[#[trigger] perm[from] as int]
                == items[from],
        gathered(permuted(items, perm), perm) == items,
        permuted(gathered(items, perm), perm) == items,
        permuted(items, perm) == gathered(items, inverse(perm)),
        gathered(items, perm) == permuted(items, inverse(perm)),
        permuted(permuted(items, perm), inverse(perm)) == items,
{
    let rank = items.len();
    lemma_origin(perm, rank);
    lemma_inverse(perm, rank);
    lemma_origin(inverse(perm), rank);
    assert(gathered(permuted(items, perm), perm) =~= items);
    assert(permuted(gathered(items, perm), perm) =~= items);
    assert(permuted(items, perm) =~= gathered(items, inverse(perm)));
    assert forall|to: int| 0 <= to < rank implies gathered(items, perm)[to] == permuted(
        items,
        inverse(perm),
    )[to] by {
        assert(inverse(inverse(perm))[to] == perm[to]);
    }
    assert(gathered(items, perm) =~= permuted(items, inverse(perm)));
    assert(permuted(permuted(items, perm), inverse(perm)) =~= items) by {
        assert forall|to: int| 0 <= to < rank implies permuted(
            permuted(items, perm),
            inverse(perm),
        )[to] == items[to] by {
            let mid = origin(inverse(perm), to);
            assert(mid == perm[to]);
            assert(origin(perm, mid) == to);
        }
    }
}

/// Rearranging by the identity changes nothing.
pub proof fn lemma_permuted_identity<A>(items: Seq<A>)
    requires
        items.len() <= usize::MAX,
    ensures
        permuted(items, identity(items.len())) == items,
        gathered(items, identity(items.len())) == items,
{
    let id = identity(items.len());
    lemma_identity(items.len());
    lemma_origin(id, items.len());
    assert forall|to: int| 0 <= to < items.len() implies origin(id, to) == to by {
        assert(origin(id, id[to] as int) == to);
    }
    assert(permuted(items, id) =~= items);
    assert(gathered(items, id) =~= items);
}

/// The size of a shape is one of its dimensions times the size of the
/// shape without that dimension.
proof fn lemma_size_remove(shape: Seq<usize>, at: int)
    requires
        0 <= at < shape.len(),
    ensures
        shape_size(shape) == shape[at] as nat * shape_size(shape.remove(at)),
{
    let rest = shape.remove(at);
    lemma_size_split(shape, at);
    lemma_size_split(rest, at);
    assert(rest.take(at) =~= shape.take(at));
    assert(rest.skip(at) =~= shape.skip(at + 1));
    assert(shape.skip(at).skip(1) =~= shape.skip(at + 1));
    assert(shape.skip(at)[0] == shape[at]);
    let left = shape_size(shape.take(at));
    let right = shape_size(shape.skip(at + 1));
    let here = shape[at] as nat;
    assert(left * (here * right) == here * (left * right)) by (nonlinear_arith);
}

/// The permutation of one axis fewer that `perm` induces on the positions
/// after the first, once the place of the first is closed up.
spec fn without_first(perm: Seq<usize>) -> Seq<usize> {
    Seq::new(
        (perm.len() - 1) as nat,
        |j: int|
            if perm[j + 1] < perm[0] {
                perm[j + 1]
            } else {
                (perm[j + 1] - 1) as usize
            },
    )
}

proof fn lemma_without_first(perm: Seq<usize>, rank: nat)
    requires
        rank > 0,
        is_permutation(perm, rank),
    ensures
        is_permutation(without_first(perm), (rank - 1) as nat),
{
    let less = without_first(perm);
    let first = perm[0];
    lemma_origin(perm, rank);
    assert forall|j: int| 0 <= j < rank - 1 implies less[j] < rank - 1 by {
        assert(perm[0] != perm[j + 1]);
    }
    assert forall|a: int, b: int| 0 <= a < b < rank - 1 implies less[a] != less[b] by {
        assert(perm[a + 1] != perm[b + 1]);
        assert(perm[0] != perm[a + 1]);
        assert(perm[0] != perm[b + 1]);
    }
}

/// A permutation of the axes keeps the number of elements.
pub proof fn lemma_permuted_size(shape: Seq<usize>, perm: Seq<usize>)
    requires
        is_permutation(perm, shape.len()),
    ensures
        shape_size(permuted(shape, perm)) == shape_size(shape),
    decreases shape.len(),
{
    let rank = shape.len();
    let moved = permuted(shape, perm);
    if rank == 0 {
        assert(moved =~= shape);
    } else {
        lemma_origin(perm, rank);
        let first = perm[0] as int;
        let less = without_first(perm);
        lemma_without_first(perm, rank);
        lemma_origin(less, (rank - 1) as nat);
        let tail = shape.skip(1);
        assert forall|to: int| 0 <= to < rank - 1 implies moved.remove(first)[to] == permuted(
            tail,
            less,
        )[to] by {
            let target = if to < first {
                to
            } else {
                to + 1
            };
            let from = origin(perm, target);
            assert(perm[from] == target);
            assert(from != 0);
            assert(less[from - 1] == to);
            assert(origin(less, less[from - 1] as int) == from - 1);
        }
        assert(moved.remove(first) =~= permuted(tail, less));
        lemma_permuted_size(tail, less);
        lemma_size_remove(moved, first);
        assert(origin(perm, perm[0] as int) == 0);
    }
}

/// A permutation of the axes of a shape of positive dimensions is one.
pub proof fn lemma_permuted_positive(shape: Seq<usize>, perm: Seq<usize>)
    requires
        is_permutation(perm, shape.len()),
        all_positive(shape),
    ensures
        all_positive(permuted(shape, perm)),
{
    lemma_origin(perm, shape.len());
}

/// The inverse of `perm`, where `perm` is a permutation of `0..perm.len()`.
pub fn inverse_permutation(perm: &Vec<usize>) -> (found: Option<Vec<usize>>)
    ensures
        found is Some <==> is_permutation(perm@, perm@.len()),
        found matches Some(back) ==> back@ == inverse(perm@),
{
    let rank = perm.len();
    let mut back: Vec<usize> = vec![rank; rank];
    let mut from: usize = 0;
    while from < rank
        invariant
            rank == perm.len(),
            back.len() == rank,
            from <= rank,
            forall|j: int| 0 <= j < from ==> perm[j] < rank && back[perm[j] as int] == j,
            forall|to: int|
                0 <= to < rank ==> (#[trigger] back[to] == rank || (0 <= back[to] < from
                    && perm[back[to] as int] == to)),
        decreases rank - from,
    {
        let to = perm[from];
        if to >= rank {
            return None;
        }
        if back[to] != rank {
            proof {
                let earlier = back[to as int] as int;
                assert(perm[earlier] == perm[from as int]);
            }
            return None;
        }
        back.set(to, from);
        from += 1;
    }
    proof {
        assert forall|a: int, b: int| 0 <= a < b < rank implies perm[a] != perm[b] by {
            assert(back[perm[a] as int] == a);
            assert(back[perm[b] as int] == b);
        }
        lemma_inverse_unique(perm@, back@, rank as nat);
    }
    Some(back)
}

/// Rearranges `items` so that the item at position `j` comes to stand at
/// position `perm[j]`.
pub fn permute(items: &Vec<usize>, perm: &Vec<usize>) -> (moved: Vec<usize>)
    requires
        is_permutation(perm@, items@.len()),
    ensures
        moved@ == permuted(items@, perm@),
{
    let rank = items.len();
    let mut moved: Vec<usize> = vec![0; rank];
    let mut from: usize = 0;
    proof {
        lemma_origin(perm@, rank as nat);
    }
    while from < rank
        invariant
            rank == items.len(),
            moved.len() == rank,
            from <= rank,
            is_permutation(perm@, rank as nat),
            forall|j: int| 0 <= j < from ==> moved[#[trigger] perm[j] as int] == items[j],
        decreases rank - from,
    {
        let ghost before = moved@;
        moved.set(perm[from], items[from]);
        proof {
            assert forall|j: int| 0 <= j < from + 1 implies moved[#[trigger] perm[j] as int]
                == items[j] by {
                if j < from {
                    assert(perm[j] != perm[from as int]);
                    assert(before[perm[j] as int] == items[j]);
                }
            }
        }
        from += 1;
    }
    proof {
        lemma_origin(perm@, rank as nat);
        assert forall|to: int| 0 <= to < rank implies moved[to] == permuted(items@, perm@)[to] by {
            let j = origin(perm@, to);
            assert(moved[perm[j] as int] == items[j]);
        }
        assert(moved@ =~= permuted(items@, perm@));
    }
    moved
}

} // verus!
