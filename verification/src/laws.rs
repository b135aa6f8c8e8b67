//! What holds of the connectives and of the mean whatever the tensors, as
//! far as the scalar arithmetic obeys the law of scalars that each rests on.

use vstd::prelude::*;
use crate::arithmetic::{
    is_count, is_difference, is_product, is_quotient, is_scaled, is_sum, Arithmetic,
};
use crate::contraction::{extend_labels, lemma_first_index_is, Contraction};
use crate::logic::{is_complement, is_conjunction};
use crate::metric::{is_column_sum, is_mean};
use crate::shape::{flatten, unflatten};
use crate::tensor::Tensor;

verus! {

/// The product of scalars does not depend on the order of its factors.
pub open spec fn product_commutes<T, A: Arithmetic<T>>(ops: &A) -> bool {
    forall|x: T, y: T, r: T| #[trigger] is_product(ops, x, y, r) ==> is_product(ops, y, x, r)
}

/// Subtracting a scalar from one twice gives the scalar back.
pub open spec fn complement_is_involution<T, A: Arithmetic<T>>(ops: &A) -> bool {
    forall|one: T, unit: T, x: T, y: T, z: T|
        is_count(ops, 1, one) && is_count(ops, 1, unit) && #[trigger] is_difference(ops, one, x, y)
            && #[trigger] is_difference(ops, unit, y, z) ==> z == x
}

/// Adding a scalar to zero and dividing by one gives the scalar back.
pub open spec fn mean_of_one_is_identity<T, A: Arithmetic<T>>(ops: &A) -> bool {
    forall|zero: T, one: T, x: T, s: T, r: T|
        is_count(ops, 0, zero) && is_count(ops, 1, one) && #[trigger] is_sum(ops, zero, x, s)
            && #[trigger] is_quotient(ops, s, one, r) ==> r == x
}

/// Adding a scalar to zero twice and dividing by two gives the scalar back.
pub open spec fn mean_of_two_is_identity<T, A: Arithmetic<T>>(ops: &A) -> bool {
    forall|zero: T, two: T, x: T, s: T, t: T, r: T|
        is_count(ops, 0, zero) && is_count(ops, 2, two) && #[trigger] is_sum(ops, zero, x, s)
            && #[trigger] is_sum(ops, s, x, t) && #[trigger] is_quotient(ops, t, two, r) ==> r
            == x
}

/// Conjunction is commutative: what is a conjunction of `a` and `b` is one
/// of `b` and `a`.
pub proof fn lemma_and_commutative<T, A: Arithmetic<T>>(ops: &A, a: Seq<T>, b: Seq<T>, r: Seq<T>)
    requires
        product_commutes(ops),
        is_conjunction(ops, a, b, r),
    ensures
        is_conjunction(ops, b, a, r),
{
}

/// Complementing twice gives the tensor back, element for element.
pub proof fn lemma_double_negation<T, A: Arithmetic<T>>(ops: &A, a: Seq<T>, b: Seq<T>, c: Seq<T>)
    requires
        complement_is_involution(ops),
        is_complement(ops, a, b),
        is_complement(ops, b, c),
    ensures
        c == a,
{
    let one = choose|one: T|
        {
            &&& #[trigger] is_count(ops, 1, one)
            &&& forall|i: int| 0 <= i < b.len() ==> is_difference(ops, one, a[i], #[trigger] b[i])
        };
    let unit = choose|unit: T|
        {
            &&& #[trigger] is_count(ops, 1, unit)
            &&& forall|i: int| 0 <= i < c.len() ==> is_difference(ops, unit, b[i], #[trigger] c[i])
        };
    assert forall|i: int| 0 <= i < a.len() implies c[i] == a[i] by {
        assert(is_difference(ops, one, a[i], b[i]));
        assert(is_difference(ops, unit, b[i], c[i]));
    }
    assert(c =~= a);
}

/// A conjunction of a tensor with its double complement is a conjunction of
/// the tensor with itself.
pub proof fn lemma_and_double_negation<T, A: Arithmetic<T>>(
    ops: &A,
    a: Seq<T>,
    b: Seq<T>,
    c: Seq<T>,
    r: Seq<T>,
)
    requires
        complement_is_involution(ops),
        is_complement(ops, a, b),
        is_complement(ops, b, c),
        is_conjunction(ops, a, c, r),
    ensures
        is_conjunction(ops, a, a, r),
{
    lemma_double_negation(ops, a, b, c);
}

/// The mean of a single tensor is that tensor, element for element.
pub proof fn lemma_unify_single<T, A: Arithmetic<T>>(ops: &A, t: Tensor<T>, r: Seq<T>)
    requires
        mean_of_one_is_identity(ops),
        is_mean(ops, seq![t], r),
    ensures
        r == t.data@,
{
    let ts = seq![t];
    let (sums, count) = choose|sums: Seq<T>, count: T|
        {
            &&& sums.len() == r.len()
            &&& forall|i: int|
                0 <= i < sums.len() ==> is_column_sum(ops, ts, i, ts.len(), #[trigger] sums[i])
            &&& is_count(ops, ts.len() as usize, count)
            &&& #[trigger] is_scaled(ops, sums, count, r)
        };
    assert forall|i: int| 0 <= i < r.len() implies r[i] == t.data@[i] by {
        assert(is_column_sum(ops, ts, i, 1, sums[i]));
        let zero = choose|zero: T|
            {
                &&& is_column_sum(ops, ts, i, 0, zero)
                &&& #[trigger] is_sum(ops, zero, ts[0].data@[i], sums[i])
            };
        assert(is_count(ops, 0, zero));
        assert(is_quotient(ops, sums[i], count, r[i]));
    }
    assert(r =~= t.data@);
}

/// The mean of a tensor and itself is that tensor, element for element.
pub proof fn lemma_unify_pair<T, A: Arithmetic<T>>(ops: &A, t: Tensor<T>, r: Seq<T>)
    requires
        mean_of_two_is_identity(ops),
        is_mean(ops, seq![t, t], r),
    ensures
        r == t.data@,
{
    let ts = seq![t, t];
    let (sums, count) = choose|sums: Seq<T>, count: T|
        {
            &&& sums.len() == r.len()
            &&& forall|i: int|
                0 <= i < sums.len() ==> is_column_sum(ops, ts, i, ts.len(), #[trigger] sums[i])
            &&& is_count(ops, ts.len() as usize, count)
            &&& #[trigger] is_scaled(ops, sums, count, r)
        };
    assert forall|i: int| 0 <= i < r.len() implies r[i] == t.data@[i] by {
        assert(is_column_sum(ops, ts, i, 2, sums[i]));
        let first = choose|first: T|
            {
                &&& is_column_sum(ops, ts, i, 1, first)
                &&& #[trigger] is_sum(ops, first, ts[1].data@[i], sums[i])
            };
        let zero = choose|zero: T|
            {
                &&& is_column_sum(ops, ts, i, 0, zero)
                &&& #[trigger] is_sum(ops, zero, ts[0].data@[i], first)
            };
        assert(is_count(ops, 0, zero));
        assert(is_quotient(ops, sums[i], count, r[i]));
    }
    assert(r =~= t.data@);
}

/// The request for the product of an `m` by `k` matrix and a `k` by `n`
/// matrix: the second axis of the first and the first axis of the second
/// carry one label, and the result lists the other two.
pub open spec fn matrix_product(m: usize, k: usize, n: usize, i: usize, j: usize, l: usize) -> Contraction {
    Contraction {
        labels_a: seq![i, j],
        shape_a: seq![m, k],
        labels_b: seq![j, l],
        shape_b: seq![k, n],
        output: seq![i, l],
    }
}

/// Contraction over the shared axis of two matrices is their product: the
/// result is `m` by `n`, each of its sums has `k` terms, and term `t` of the
/// element in row `o / n` and column `o % n` multiplies the element of the
/// first matrix in that row and column `t` by the element of the second in
/// row `t` and that column.
pub proof fn lemma_matrix_product(
    m: usize,
    k: usize,
    n: usize,
    i: usize,
    j: usize,
    l: usize,
    o: int,
    t: int,
)
    requires
        i != j,
        j != l,
        i != l,
        0 <= o < m * n,
        0 <= t < k,
    ensures
        matrix_product(m, k, n, i, j, l).valid(),
        matrix_product(m, k, n, i, j, l).output_shape() == seq![m, n],
        matrix_product(m, k, n, i, j, l).summed_shape() == seq![k],
        matrix_product(m, k, n, i, j, l).offset_a(o, t) == (o / (n as int)) * k + t,
        matrix_product(m, k, n, i, j, l).offset_b(o, t) == t * n + o % (n as int),
{
    let c = matrix_product(m, k, n, i, j, l);
    let labels = c.axis_labels();
    let extents = c.axis_extents();
    assert(labels =~= seq![i, j, j, l]);
    assert(extents =~= seq![m, k, k, n]);
    lemma_first_index_is(labels, i, 0);
    lemma_first_index_is(labels, j, 1);
    lemma_first_index_is(labels, l, 3);
    assert(c.extent_of(i) == m && c.extent_of(j) == k && c.extent_of(l) == n);
    assert forall|p: int| 0 <= p < labels.len() implies !c.conflict_at(p) by {
        if p == 0 {
        } else if p == 1 {
        } else if p == 2 {
        } else {
        }
    }
    assert(c.output[0] == i && c.output[1] == l);
    assert(labels[0] == i && labels[3] == l);
    assert(c.resolvable());

    let base = c.output;
    let a1 = labels.take(1);
    let a2 = labels.take(2);
    let a3 = labels.take(3);
    assert(labels.drop_last() =~= a3);
    assert(a3.drop_last() =~= a2);
    assert(a2.drop_last() =~= a1);
    assert(a1.drop_last() =~= Seq::<usize>::empty());
    assert(extend_labels(base, Seq::<usize>::empty()) == base);
    assert(base[0] == i);
    assert(base.contains(i));
    assert(extend_labels(base, a1) == base);
    assert(!base.contains(j));
    let with_j = base.push(j);
    assert(extend_labels(base, a2) == with_j);
    assert(with_j[2] == j);
    assert(with_j.contains(j));
    assert(extend_labels(base, a3) == with_j);
    assert(with_j[1] == l);
    assert(with_j.contains(l));
    assert(extend_labels(base, labels) == with_j);
    let loops = c.loop_labels();
    assert(loops =~= seq![i, l, j]);
    lemma_first_index_is(loops, i, 0);
    lemma_first_index_is(loops, l, 1);
    lemma_first_index_is(loops, j, 2);

    assert(c.output_shape() =~= seq![m, n]);
    assert(c.summed_labels() =~= seq![j]);
    assert(c.summed_shape() =~= seq![k]);

    let os = seq![m, n];
    let ss = seq![k];
    assert(n > 0 && m > 0) by (nonlinear_arith)
        requires
            0 <= o < m * n,
    ;
    assert(0 <= o / (n as int) < m && 0 <= o % (n as int) < n) by (nonlinear_arith)
        requires
            0 <= o < m * n,
            n > 0,
    ;
    assert(os.drop_last() =~= seq![m]);
    assert(seq![m].drop_last() =~= Seq::<usize>::empty());
    assert(ss.drop_last() =~= Seq::<usize>::empty());
    let row = o / (n as int);
    let col = o % (n as int);
    reveal_with_fuel(unflatten, 3);
    assert(row % (m as int) == row) by (nonlinear_arith)
        requires
            0 <= row < m,
    ;
    assert(t % (k as int) == t) by (nonlinear_arith)
        requires
            0 <= t < k,
    ;
    assert(unflatten(o, os) =~= seq![row, col]);
    assert(unflatten(t, ss) =~= seq![t]);
    let asg = c.assignment(o, t);
    assert(asg =~= seq![row, col, t]);
    let pa = c.position_a(o, t);
    let pb = c.position_b(o, t);
    assert(pa =~= seq![row, t]);
    assert(pb =~= seq![t, col]);
    reveal_with_fuel(flatten, 3);
    assert(c.shape_a.drop_last() =~= seq![m]);
    assert(c.shape_b.drop_last() =~= seq![k]);
    assert(seq![k].drop_last() =~= Seq::<usize>::empty());
    assert(pa.drop_last() =~= seq![row]);
    assert(pb.drop_last() =~= seq![t]);
    assert(seq![row].drop_last() =~= Seq::<int>::empty());
    assert(seq![t].drop_last() =~= Seq::<int>::empty());
    assert(flatten(seq![row], seq![m]) == row);
    assert(flatten(seq![t], seq![k]) == t);
}

} // verus!
