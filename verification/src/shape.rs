//! Shapes: the number of elements a shape describes, and row-major
//! addressing within it.

use vstd::prelude::*;

verus! {

/// The number of elements of a tensor of the given shape: the product of
/// its extents, which is 1 for the empty shape.
pub open spec fn shape_size(shape: Seq<usize>) -> nat
    decreases shape.len(),
{
    if shape.len() == 0 {
        1
    } else {
        shape_size(shape.drop_last()) * (shape.last() as nat)
    }
}

/// Taking one more extent multiplies the size by that extent.
pub proof fn lemma_size_step(shape: Seq<usize>, i: int)
    requires
        0 <= i < shape.len(),
    ensures
        shape_size(shape.take(i + 1)) == shape_size(shape.take(i)) * (shape[i] as nat),
{
    assert(shape.take(i + 1).drop_last() =~= shape.take(i));
}

/// A shape with a zero extent has no elements; a shape without one has some.
pub proof fn lemma_size_zero_iff(shape: Seq<usize>)
    ensures
        shape_size(shape) == 0 <==> exists|i: int| 0 <= i < shape.len() && shape[i] == 0,
    decreases shape.len(),
{
    if shape.len() > 0 {
        let front = shape.drop_last();
        lemma_size_zero_iff(front);
        let a = shape_size(front);
        let b = shape.last() as nat;
        assert(a * b == 0 <==> (a == 0 || b == 0)) by (nonlinear_arith);
        if shape_size(shape) == 0 {
            if b == 0 {
                assert(shape[shape.len() - 1] == 0);
            } else {
                let i = choose|i: int| 0 <= i < front.len() && front[i] == 0;
                assert(shape[i] == 0);
            }
        } else {
            assert forall|i: int| 0 <= i < shape.len() implies shape[i] != 0 by {
                if i < front.len() {
                    assert(front[i] == shape[i]);
                }
            }
        }
    }
}

/// Where no extent from `i` on is zero, the whole shape has at least as many
/// elements as its first `i` extents describe.
pub proof fn lemma_size_grows(shape: Seq<usize>, i: int)
    requires
        0 <= i <= shape.len(),
        forall|j: int| i <= j < shape.len() ==> shape[j] > 0,
    ensures
        shape_size(shape.take(i)) <= shape_size(shape),
    decreases shape.len() - i,
{
    if i == shape.len() {
        assert(shape.take(i) =~= shape);
    } else {
        lemma_size_step(shape, i);
        lemma_size_grows(shape, i + 1);
        let a = shape_size(shape.take(i));
        let b = shape[i] as nat;
        assert(a <= a * b) by (nonlinear_arith)
            requires
                b > 0,
        ;
    }
}

/// The number of elements of a shape, where it can be counted.
pub fn checked_size(shape: &[usize]) -> (r: Option<usize>)
    ensures
        shape_size(shape@) <= usize::MAX ==> r == Some(shape_size(shape@) as usize),
        shape_size(shape@) > usize::MAX ==> r.is_none(),
{
    let n = shape.len();
    let mut z: usize = 0;
    while z < n
        invariant
            n == shape.len(),
            z <= n,
            forall|j: int| 0 <= j < z ==> shape[j] > 0,
        decreases n - z,
    {
        if shape[z] == 0 {
            proof {
                lemma_size_zero_iff(shape@);
            }
            return Some(0);
        }
        z += 1;
    }
    let mut acc: usize = 1;
    let mut i: usize = 0;
    while i < n
        invariant
            n == shape.len(),
            i <= n,
            forall|j: int| 0 <= j < n ==> shape[j] > 0,
            acc as nat == shape_size(shape@.take(i as int)),
        decreases n - i,
    {
        proof {
            lemma_size_step(shape@, i as int);
        }
        match acc.checked_mul(shape[i]) {
            Some(next) => {
                acc = next;
            },
            None => {
                proof {
                    lemma_size_grows(shape@, i + 1);
                }
                return None;
            },
        }
        i += 1;
    }
    proof {
        assert(shape@.take(n as int) =~= shape@);
    }
    Some(acc)
}

/// Whether two shapes are the same sequence of extents.
pub fn same_shape(left: &[usize], right: &[usize]) -> (r: bool)
    ensures
        r == (left@ == right@),
{
    if left.len() != right.len() {
        return false;
    }
    let mut i: usize = 0;
    while i < left.len()
        invariant
            left.len() == right.len(),
            i <= left.len(),
            forall|j: int| 0 <= j < i ==> left[j] == right[j],
        decreases left.len() - i,
    {
        if left[i] != right[i] {
            return false;
        }
        i += 1;
    }
    assert(left@ =~= right@);
    true
}

/// A copy of a shape.
pub fn copy_shape(shape: &[usize]) -> (r: Vec<usize>)
    ensures
        r@ == shape@,
{
    let mut out: Vec<usize> = Vec::new();
    let mut i: usize = 0;
    while i < shape.len()
        invariant
            i <= shape.len(),
            out@ == shape@.take(i as int),
        decreases shape.len() - i,
    {
        out.push(shape[i]);
        assert(shape@.take(i + 1) =~= shape@.take(i as int).push(shape[i as int]));
        i += 1;
    }
    assert(shape@.take(shape.len() as int) =~= shape@);
    out
}

/// The position along each axis of the element at flat index `index` of a
/// tensor of the given shape: the last axis varies fastest.
pub open spec fn unflatten(index: int, shape: Seq<usize>) -> Seq<int>
    decreases shape.len(),
{
    if shape.len() == 0 {
        Seq::empty()
    } else {
        unflatten(index / (shape.last() as int), shape.drop_last()).push(
            index % (shape.last() as int),
        )
    }
}

/// The flat index of the element at the given position along each axis.
pub open spec fn flatten(position: Seq<int>, shape: Seq<usize>) -> int
    decreases shape.len(),
{
    if shape.len() == 0 {
        0
    } else {
        flatten(position.drop_last(), shape.drop_last()) * (shape.last() as int)
            + position.last()
    }
}

/// Every axis position lies within the extent of its axis.
pub open spec fn within(position: Seq<int>, shape: Seq<usize>) -> bool {
    &&& position.len() == shape.len()
    &&& forall|i: int| 0 <= i < shape.len() ==> 0 <= #[trigger] position[i] < shape[i]
}

/// In a shape without a zero extent every flat index has a position, and
/// that position lies within the shape.
pub proof fn lemma_unflatten_within(index: int, shape: Seq<usize>)
    requires
        0 <= index,
        forall|i: int| 0 <= i < shape.len() ==> shape[i] > 0,
    ensures
        within(unflatten(index, shape), shape),
    decreases shape.len(),
{
    if shape.len() > 0 {
        let d = shape.last() as int;
        assert(shape[shape.len() - 1] > 0);
        assert(0 <= index / d && 0 <= index % d < d) by (nonlinear_arith)
            requires
                0 <= index,
                d > 0,
        ;
        let front = shape.drop_last();
        assert forall|i: int| 0 <= i < front.len() implies front[i] > 0 by {
            assert(front[i] == shape[i]);
        }
        lemma_unflatten_within(index / d, front);
        let u = unflatten(index, shape);
        assert forall|i: int| 0 <= i < shape.len() implies 0 <= #[trigger] u[i] < shape[i] by {
            if i < front.len() {
                assert(u[i] == unflatten(index / d, front)[i]);
                assert(front[i] == shape[i]);
            }
        }
    }
}

/// A position within a shape has a flat index below the size of the shape.
pub proof fn lemma_flatten_bound(position: Seq<int>, shape: Seq<usize>)
    requires
        within(position, shape),
    ensures
        0 <= flatten(position, shape) < shape_size(shape),
    decreases shape.len(),
{
    if shape.len() > 0 {
        let front = shape.drop_last();
        let head = position.drop_last();
        assert forall|i: int| 0 <= i < front.len() implies 0 <= #[trigger] head[i] < front[i] by {
            assert(head[i] == position[i]);
            assert(front[i] == shape[i]);
        }
        lemma_flatten_bound(head, front);
        let f = flatten(head, front);
        let n = shape_size(front) as int;
        let d = shape.last() as int;
        let x = position.last();
        assert(0 <= position[shape.len() - 1] < shape[shape.len() - 1]);
        assert(0 <= f * d + x < n * d) by (nonlinear_arith)
            requires
                0 <= f < n,
                0 <= x < d,
        ;
    }
}

/// Flattening the position of a flat index gives the index back, for every
/// index below the size of the shape.
pub proof fn lemma_flatten_unflatten(index: int, shape: Seq<usize>)
    requires
        0 <= index < shape_size(shape),
    ensures
        flatten(unflatten(index, shape), shape) == index,
    decreases shape.len(),
{
    if shape.len() > 0 {
        let front = shape.drop_last();
        let d = shape.last() as int;
        let n = shape_size(front) as int;
        assert(d > 0 && n > 0) by (nonlinear_arith)
            requires
                0 <= index < n * d,
                0 <= d,
                0 <= n,
        ;
        assert(0 <= index / d < n && index == (index / d) * d + index % d) by (nonlinear_arith)
            requires
                0 <= index < n * d,
                d > 0,
        ;
        lemma_flatten_unflatten(index / d, front);
        let u = unflatten(index, shape);
        assert(u.drop_last() =~= unflatten(index / d, front));
    }
}

/// The position along each axis of the element at flat index `index`.
pub fn unflatten_index(index: usize, shape: &[usize]) -> (r: Vec<usize>)
    requires
        forall|i: int| 0 <= i < shape@.len() ==> shape@[i] > 0,
    ensures
        r@.len() == shape@.len(),
        forall|i: int| 0 <= i < r@.len() ==> r@[i] as int == unflatten(index as int, shape@)[i],
        forall|i: int| 0 <= i < r@.len() ==> r@[i] < shape@[i],
{
    let n = shape.len();
    let mut out: Vec<usize> = Vec::new();
    let mut f: usize = 0;
    while f < n
        invariant
            n == shape@.len(),
            f <= n,
            out@.len() == f,
        decreases n - f,
    {
        out.push(0);
        f += 1;
    }
    let mut rest: usize = index;
    let mut j: usize = n;
    proof {
        lemma_unflatten_len(index as int, shape@);
        assert(shape@.take(n as int) =~= shape@);
    }
    while j > 0
        invariant
            n == shape@.len(),
            j <= n,
            out@.len() == n,
            forall|i: int| 0 <= i < shape@.len() ==> shape@[i] > 0,
            unflatten(index as int, shape@).len() == n,
            forall|i: int|
                0 <= i < j ==> unflatten(index as int, shape@)[i] == unflatten(
                    rest as int,
                    shape@.take(j as int),
                )[i],
            forall|i: int| j <= i < n ==> out@[i] as int == unflatten(index as int, shape@)[i],
        decreases j,
    {
        let d = shape[j - 1];
        let digit = rest % d;
        let ghost before = shape@.take(j as int);
        proof {
            assert(before.last() == d);
            assert(before.drop_last() =~= shape@.take(j - 1));
            lemma_unflatten_len(rest as int / d as int, shape@.take(j - 1));
        }
        out.set(j - 1, digit);
        rest = rest / d;
        j -= 1;
    }
    proof {
        lemma_unflatten_within(index as int, shape@);
    }
    out
}

/// A position has one entry per axis.
pub proof fn lemma_unflatten_len(index: int, shape: Seq<usize>)
    ensures
        unflatten(index, shape).len() == shape.len(),
    decreases shape.len(),
{
    if shape.len() > 0 {
        lemma_unflatten_len(index / (shape.last() as int), shape.drop_last());
    }
}

} // verus!
