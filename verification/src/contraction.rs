//! Index contraction (Einstein summation) of two tensors.
//!
//! Each axis of an input carries a label. A request lists the labels of the
//! result's axes; every other label is summed over. The element of the
//! result at a given assignment of its labels is the sum, over all
//! assignments of the summed labels, of the product of the two input
//! elements that the joint assignment addresses.

use vstd::prelude::*;
use crate::arithmetic::{is_dot, is_dot_prefix, lemma_dot_step, Arithmetic};
use crate::error::TensorError;
use crate::shape::{
    checked_size, copy_shape, flatten, lemma_flatten_bound, lemma_size_grows, lemma_size_step,
    lemma_size_zero_iff, lemma_unflatten_len, lemma_unflatten_within, shape_size, unflatten,
    unflatten_index, within,
};
use crate::tensor::Tensor;

verus! {

/// The position at which `label` first occurs in `labels`, or the length of
/// `labels` where it does not occur.
pub open spec fn first_index(labels: Seq<usize>, label: usize) -> int
    decreases labels.len(),
{
    if labels.len() == 0 {
        0
    } else if labels.first() == label {
        0
    } else {
        1 + first_index(labels.drop_first(), label)
    }
}

/// What `first_index` finds: the first occurrence, where there is one.
pub proof fn lemma_first_index(labels: Seq<usize>, label: usize)
    ensures
        0 <= first_index(labels, label) <= labels.len(),
        first_index(labels, label) < labels.len() <==> labels.contains(label),
        first_index(labels, label) < labels.len() ==> labels[first_index(labels, label)] == label,
        forall|q: int| 0 <= q < first_index(labels, label) ==> labels[q] != label,
    decreases labels.len(),
{
    if labels.len() > 0 {
        if labels.first() == label {
            assert(labels[0] == label);
        } else {
            let rest = labels.drop_first();
            lemma_first_index(rest, label);
            let f = first_index(rest, label);
            if f < rest.len() {
                assert(labels[f + 1] == rest[f]);
            }
            if labels.contains(label) {
                let w = choose|w: int| 0 <= w < labels.len() && labels[w] == label;
                assert(rest[w - 1] == label);
            }
            assert forall|q: int| 0 <= q < 1 + f implies labels[q] != label by {
                if q > 0 {
                    assert(rest[q - 1] == labels[q]);
                }
            }
        }
    }
}

/// A position that holds `label` and is preceded by no other that does is
/// the one that `first_index` finds.
pub proof fn lemma_first_index_is(labels: Seq<usize>, label: usize, p: int)
    requires
        0 <= p < labels.len(),
        labels[p] == label,
        forall|q: int| 0 <= q < p ==> labels[q] != label,
    ensures
        first_index(labels, label) == p,
{
    lemma_first_index(labels, label);
    let f = first_index(labels, label);
    assert(labels.contains(label));
    if f < p {
        assert(labels[f] != label);
    }
    if p < f {
        assert(labels[p] != label);
    }
}

/// `base`, followed by the labels of `axes` that occur neither in `base`
/// nor earlier in `axes`, in the order of their first occurrence.
pub open spec fn extend_labels(base: Seq<usize>, axes: Seq<usize>) -> Seq<usize>
    decreases axes.len(),
{
    if axes.len() == 0 {
        base
    } else {
        let before = extend_labels(base, axes.drop_last());
        if before.contains(axes.last()) {
            before
        } else {
            before.push(axes.last())
        }
    }
}

/// Extending keeps `base` in front, adds only labels that `axes` holds, and
/// leaves no label of `axes` out.
pub proof fn lemma_extend_labels(base: Seq<usize>, axes: Seq<usize>)
    ensures
        extend_labels(base, axes).len() >= base.len(),
        extend_labels(base, axes).take(base.len() as int) == base,
        forall|p: int| 0 <= p < axes.len() ==> extend_labels(base, axes).contains(#[trigger] axes[p]),
        forall|v: int|
            base.len() <= v < extend_labels(base, axes).len() ==> axes.contains(
                #[trigger] extend_labels(base, axes)[v],
            ),
    decreases axes.len(),
{
    let all = extend_labels(base, axes);
    if axes.len() == 0 {
        assert(base.take(base.len() as int) =~= base);
    } else {
        let front = axes.drop_last();
        let before = extend_labels(base, front);
        lemma_extend_labels(base, front);
        assert(all.take(base.len() as int) =~= before.take(base.len() as int));
        assert forall|p: int| 0 <= p < axes.len() implies all.contains(#[trigger] axes[p]) by {
            if p < front.len() {
                assert(front[p] == axes[p]);
                assert(before.contains(front[p]));
                let w = choose|w: int| 0 <= w < before.len() && before[w] == axes[p];
                assert(all[w] == axes[p]);
            } else {
                if before.contains(axes.last()) {
                } else {
                    assert(all[before.len() as int] == axes[p]);
                }
            }
        }
        assert forall|v: int| base.len() <= v < all.len() implies axes.contains(#[trigger] all[v]) by {
            if v < before.len() {
                assert(all[v] == before[v]);
                assert(front.contains(before[v]));
                let w = choose|w: int| 0 <= w < front.len() && front[w] == before[v];
                assert(axes[w] == all[v]);
            } else {
                assert(axes[axes.len() - 1] == all[v]);
            }
        }
    }
}

/// A request to contract two tensors: the shape of each, the label of each
/// of its axes, and the labels of the axes of the result.
pub struct Contraction {
    pub labels_a: Seq<usize>,
    pub shape_a: Seq<usize>,
    pub labels_b: Seq<usize>,
    pub shape_b: Seq<usize>,
    pub output: Seq<usize>,
}

impl Contraction {
    /// Each input has one label per axis.
    pub open spec fn arity_ok(self) -> bool {
        self.labels_a.len() == self.shape_a.len() && self.labels_b.len() == self.shape_b.len()
    }

    /// The labels of all input axes: those of the first input, then those of
    /// the second.
    pub open spec fn axis_labels(self) -> Seq<usize> {
        self.labels_a + self.labels_b
    }

    /// The extents of all input axes, in the same order.
    pub open spec fn axis_extents(self) -> Seq<usize> {
        self.shape_a + self.shape_b
    }

    /// Some input axis carries the label.
    pub open spec fn known(self, label: usize) -> bool {
        self.axis_labels().contains(label)
    }

    /// The extent of a label: that of the first input axis that carries it.
    pub open spec fn extent_of(self, label: usize) -> usize {
        self.axis_extents()[first_index(self.axis_labels(), label)]
    }

    /// The input axis `p` differs in extent from the first axis that carries
    /// its label.
    pub open spec fn conflict_at(self, p: int) -> bool {
        self.axis_extents()[p] != self.extent_of(self.axis_labels()[p])
    }

    /// Axes with one label have one extent.
    pub open spec fn consistent(self) -> bool {
        forall|p: int| 0 <= p < self.axis_labels().len() ==> !self.conflict_at(p)
    }

    /// Every label of the result is carried by some input axis.
    pub open spec fn resolvable(self) -> bool {
        forall|p: int| 0 <= p < self.output.len() ==> self.known(#[trigger] self.output[p])
    }

    /// The request can be carried out.
    pub open spec fn valid(self) -> bool {
        self.arity_ok() && self.consistent() && self.resolvable()
    }

    /// One label per loop of the contraction: the labels of the result's
    /// axes as listed, then the summed labels in the order in which the
    /// input axes first carry them.
    pub open spec fn loop_labels(self) -> Seq<usize> {
        extend_labels(self.output, self.axis_labels())
    }

    /// The shape of the result.
    pub open spec fn output_shape(self) -> Seq<usize> {
        Seq::new(self.output.len(), |p: int| self.extent_of(self.output[p]))
    }

    /// The labels that are summed over.
    pub open spec fn summed_labels(self) -> Seq<usize> {
        self.loop_labels().skip(self.output.len() as int)
    }

    /// The extents of the summed labels.
    pub open spec fn summed_shape(self) -> Seq<usize> {
        Seq::new(self.summed_labels().len(), |q: int| self.extent_of(self.summed_labels()[q]))
    }

    /// The result and the terms of each of its sums can be counted.
    pub open spec fn countable(self) -> bool {
        shape_size(self.output_shape()) <= usize::MAX && shape_size(self.summed_shape())
            <= usize::MAX
    }

    /// The value of each loop label for element `o` of the result and term
    /// `k` of its sum. A label that the result lists more than once takes
    /// its value from the first axis that it names.
    pub open spec fn assignment(self, o: int, k: int) -> Seq<int> {
        unflatten(o, self.output_shape()) + unflatten(k, self.summed_shape())
    }

    /// The position in the first input that term `k` of element `o` reads.
    pub open spec fn position_a(self, o: int, k: int) -> Seq<int> {
        Seq::new(
            self.labels_a.len(),
            |i: int| self.assignment(o, k)[first_index(self.loop_labels(), self.labels_a[i])],
        )
    }

    /// The position in the second input that term `k` of element `o` reads.
    pub open spec fn position_b(self, o: int, k: int) -> Seq<int> {
        Seq::new(
            self.labels_b.len(),
            |i: int| self.assignment(o, k)[first_index(self.loop_labels(), self.labels_b[i])],
        )
    }

    /// The flat index in the first input that term `k` of element `o` reads.
    pub open spec fn offset_a(self, o: int, k: int) -> int {
        flatten(self.position_a(o, k), self.shape_a)
    }

    /// The flat index in the second input that term `k` of element `o` reads.
    pub open spec fn offset_b(self, o: int, k: int) -> int {
        flatten(self.position_b(o, k), self.shape_b)
    }

    /// The elements of the first input that the sum for element `o` reads,
    /// in the order of its terms.
    pub open spec fn operands_a<T>(self, data: Seq<T>, o: int) -> Seq<T> {
        Seq::new(shape_size(self.summed_shape()), |k: int| data[self.offset_a(o, k)])
    }

    /// The elements of the second input that the sum for element `o` reads,
    /// in the order of its terms.
    pub open spec fn operands_b<T>(self, data: Seq<T>, o: int) -> Seq<T> {
        Seq::new(shape_size(self.summed_shape()), |k: int| data[self.offset_b(o, k)])
    }
}

impl Contraction {
    /// The loop labels are the result's labels followed by the summed ones,
    /// and each has its own entry in every assignment.
    pub proof fn lemma_loops(self)
        ensures
            self.loop_labels().len() == self.output.len() + self.summed_labels().len(),
            self.summed_shape().len() == self.summed_labels().len(),
            self.output_shape().len() == self.output.len(),
            forall|v: int| 0 <= v < self.output.len() ==> self.loop_labels()[v] == self.output[v],
            forall|p: int|
                0 <= p < self.axis_labels().len() ==> self.loop_labels().contains(
                    #[trigger] self.axis_labels()[p],
                ),
            forall|i: int|
                0 <= i < self.labels_a.len() ==> 0 <= first_index(
                    self.loop_labels(),
                    #[trigger] self.labels_a[i],
                ) < self.loop_labels().len(),
            forall|i: int|
                0 <= i < self.labels_b.len() ==> 0 <= first_index(
                    self.loop_labels(),
                    #[trigger] self.labels_b[i],
                ) < self.loop_labels().len(),
    {
        lemma_extend_labels(self.output, self.axis_labels());
        let all = self.loop_labels();
        assert forall|v: int| 0 <= v < self.output.len() implies all[v] == self.output[v] by {
            assert(all.take(self.output.len() as int)[v] == all[v]);
        }
        assert forall|i: int| 0 <= i < self.labels_a.len() implies 0 <= first_index(
            all,
            #[trigger] self.labels_a[i],
        ) < all.len() by {
            assert(self.axis_labels()[i] == self.labels_a[i]);
            lemma_first_index(all, self.labels_a[i]);
        }
        assert forall|i: int| 0 <= i < self.labels_b.len() implies 0 <= first_index(
            all,
            #[trigger] self.labels_b[i],
        ) < all.len() by {
            assert(self.axis_labels()[self.labels_a.len() + i] == self.labels_b[i]);
            lemma_first_index(all, self.labels_b[i]);
        }
    }

    /// In a request that can be carried out, every term of every element
    /// reads inside both inputs.
    pub proof fn lemma_reads_in_bounds(self, o: int, k: int)
        requires
            self.valid(),
            0 <= o < shape_size(self.output_shape()),
            0 <= k < shape_size(self.summed_shape()),
        ensures
            within(self.position_a(o, k), self.shape_a),
            within(self.position_b(o, k), self.shape_b),
            0 <= self.offset_a(o, k) < shape_size(self.shape_a),
            0 <= self.offset_b(o, k) < shape_size(self.shape_b),
    {
        let os = self.output_shape();
        let ss = self.summed_shape();
        let all = self.loop_labels();
        let n_out = self.output.len() as int;
        self.lemma_loops();
        lemma_size_zero_iff(os);
        lemma_size_zero_iff(ss);
        lemma_unflatten_within(o, os);
        lemma_unflatten_within(k, ss);
        let asg = self.assignment(o, k);
        assert(asg.len() == all.len());
        assert forall|v: int| 0 <= v < all.len() implies 0 <= #[trigger] asg[v] < self.extent_of(
            all[v],
        ) by {
            if v < n_out {
                assert(asg[v] == unflatten(o, os)[v]);
                assert(os[v] == self.extent_of(self.output[v]));
            } else {
                assert(asg[v] == unflatten(k, ss)[v - n_out]);
                assert(ss[v - n_out] == self.extent_of(self.summed_labels()[v - n_out]));
                assert(self.summed_labels()[v - n_out] == all[v]);
            }
        }
        let pa = self.position_a(o, k);
        assert forall|i: int| 0 <= i < self.shape_a.len() implies 0 <= #[trigger] pa[i]
            < self.shape_a[i] by {
            let l = self.labels_a[i];
            assert(self.axis_labels()[i] == l);
            assert(all.contains(self.axis_labels()[i]));
            lemma_first_index(all, l);
            let v = first_index(all, l);
            assert(pa[i] == asg[v]);
            assert(!self.conflict_at(i));
            assert(self.axis_extents()[i] == self.shape_a[i]);
        }
        let pb = self.position_b(o, k);
        assert forall|i: int| 0 <= i < self.shape_b.len() implies 0 <= #[trigger] pb[i]
            < self.shape_b[i] by {
            let l = self.labels_b[i];
            let p = self.labels_a.len() + i;
            assert(self.axis_labels()[p] == l);
            assert(all.contains(self.axis_labels()[p]));
            lemma_first_index(all, l);
            let v = first_index(all, l);
            assert(pb[i] == asg[v]);
            assert(!self.conflict_at(p));
            assert(self.axis_extents()[p] == self.shape_b[i]);
        }
        lemma_flatten_bound(pa, self.shape_a);
        lemma_flatten_bound(pb, self.shape_b);
    }
}

/// The position at which `label` first occurs in `labels`, if it occurs.
pub fn position(labels: &[usize], label: usize) -> (r: Option<usize>)
    ensures
        match r {
            Some(p) => {
                &&& p < labels@.len()
                &&& p == first_index(labels@, label)
                &&& labels@[p as int] == label
                &&& labels@.contains(label)
            },
            None => !labels@.contains(label),
        },
{
    let mut i: usize = 0;
    while i < labels.len()
        invariant
            i <= labels@.len(),
            forall|q: int| 0 <= q < i ==> labels@[q] != label,
        decreases labels@.len() - i,
    {
        if labels[i] == label {
            proof {
                lemma_first_index_is(labels@, label, i as int);
            }
            return Some(i);
        }
        i += 1;
    }
    None
}

/// One buffer after another.
fn concat(front: &[usize], back: &[usize]) -> (r: Vec<usize>)
    ensures
        r@ == front@ + back@,
{
    let mut out = copy_shape(front);
    let mut i: usize = 0;
    while i < back.len()
        invariant
            i <= back@.len(),
            out@ == front@ + back@.take(i as int),
        decreases back@.len() - i,
    {
        out.push(back[i]);
        assert(front@ + back@.take(i + 1) =~= (front@ + back@.take(i as int)).push(back@[i as int]));
        i += 1;
    }
    assert(back@.take(back@.len() as int) =~= back@);
    out
}

impl Contraction {
    /// Axis `p` is the first input axis whose extent differs from that of
    /// its label.
    pub open spec fn first_conflict(self, p: int) -> bool {
        &&& 0 <= p < self.axis_labels().len()
        &&& self.conflict_at(p)
        &&& forall|q: int| 0 <= q < p ==> !self.conflict_at(q)
    }

    /// Axis `p` of the result is the first whose label no input axis carries.
    pub open spec fn first_unknown(self, p: int) -> bool {
        &&& 0 <= p < self.output.len()
        &&& !self.known(self.output[p])
        &&& forall|q: int| 0 <= q < p ==> self.known(#[trigger] self.output[q])
    }

    /// `e` is the error that the request is refused with: the arity is
    /// checked first, then the extents, then the labels of the result.
    pub open spec fn rejects_with(self, e: TensorError) -> bool {
        match e {
            TensorError::IndexArityMismatch => !self.arity_ok(),
            TensorError::DimensionMismatch { label, dim_a, dim_b } => {
                &&& self.arity_ok()
                &&& exists|p: int|
                    {
                        &&& #[trigger] self.first_conflict(p)
                        &&& label == self.axis_labels()[p]
                        &&& dim_a == self.extent_of(label)
                        &&& dim_b == self.axis_extents()[p]
                    }
            },
            TensorError::UnknownOutputIndex { label } => {
                &&& self.arity_ok()
                &&& self.consistent()
                &&& exists|p: int| #[trigger] self.first_unknown(p) && label == self.output[p]
            },
            _ => false,
        }
    }
}

/// How a contraction runs: the shape of the result, the extents of the
/// summed labels, and for each input axis the loop that drives it. Loops
/// are numbered through the axes of the result first, then through the
/// summed labels.
pub struct ContractionPlan {
    pub output_shape: Vec<usize>,
    pub summed_shape: Vec<usize>,
    pub axes_a: Vec<usize>,
    pub axes_b: Vec<usize>,
}

impl ContractionPlan {
    /// The plan is the one that the request describes.
    pub open spec fn realizes(&self, c: Contraction) -> bool {
        &&& self.output_shape@ == c.output_shape()
        &&& self.summed_shape@ == c.summed_shape()
        &&& self.axes_a@.len() == c.labels_a.len()
        &&& self.axes_b@.len() == c.labels_b.len()
        &&& forall|i: int|
            0 <= i < c.labels_a.len() ==> #[trigger] self.axes_a@[i] == first_index(
                c.loop_labels(),
                c.labels_a[i],
            )
        &&& forall|i: int|
            0 <= i < c.labels_b.len() ==> #[trigger] self.axes_b@[i] == first_index(
                c.loop_labels(),
                c.labels_b[i],
            )
    }
}

/// For each of `labels`, the loop that drives it.
fn bind_axes(loops: &Vec<usize>, labels: &[usize]) -> (r: Vec<usize>)
    requires
        forall|i: int| 0 <= i < labels@.len() ==> loops@.contains(#[trigger] labels@[i]),
    ensures
        r@.len() == labels@.len(),
        forall|i: int| 0 <= i < labels@.len() ==> #[trigger] r@[i] == first_index(loops@, labels@[i]),
{
    let mut out: Vec<usize> = Vec::new();
    let mut i: usize = 0;
    while i < labels.len()
        invariant
            i <= labels@.len(),
            out@.len() == i,
            forall|j: int| 0 <= j < labels@.len() ==> loops@.contains(#[trigger] labels@[j]),
            forall|j: int| 0 <= j < i ==> #[trigger] out@[j] == first_index(loops@, labels@[j]),
        decreases labels@.len() - i,
    {
        let found = position(loops.as_slice(), labels[i]);
        assert(loops@.contains(labels@[i as int]));
        let v = match found {
            Some(v) => v,
            None => vstd::pervasive::unreached(),
        };
        out.push(v);
        i += 1;
    }
    out
}

/// Checks a contraction request and lays out its loops.
#[verifier::loop_isolation(false)]
pub fn plan_contraction(
    shape_a: &[usize],
    shape_b: &[usize],
    indices_a: &[usize],
    indices_b: &[usize],
    output_indices: &[usize],
) -> (r: Result<ContractionPlan, TensorError>)
    ensures
        ({
            let c = Contraction {
                labels_a: indices_a@,
                shape_a: shape_a@,
                labels_b: indices_b@,
                shape_b: shape_b@,
                output: output_indices@,
            };
            match r {
                Ok(plan) => c.valid() && plan.realizes(c),
                Err(e) => c.rejects_with(e),
            }
        }),
{
    let ghost c = Contraction {
        labels_a: indices_a@,
        shape_a: shape_a@,
        labels_b: indices_b@,
        shape_b: shape_b@,
        output: output_indices@,
    };
    if indices_a.len() != shape_a.len() || indices_b.len() != shape_b.len() {
        return Err(TensorError::IndexArityMismatch);
    }
    let labels = concat(indices_a, indices_b);
    let extents = concat(shape_a, shape_b);
    let n = labels.len();
    assert(labels@ == c.axis_labels());
    assert(extents@ == c.axis_extents());

    let mut p: usize = 0;
    while p < n
        invariant
            p <= n,
            forall|q: int| 0 <= q < p ==> !c.conflict_at(q),
        decreases n - p,
    {
        let label = labels[p];
        let found = position(labels.as_slice(), label);
        assert(labels@.contains(label));
        let q = match found {
            Some(q) => q,
            None => vstd::pervasive::unreached(),
        };
        if extents[p] != extents[q] {
            assert(c.first_conflict(p as int));
            return Err(
                TensorError::DimensionMismatch { label, dim_a: extents[q], dim_b: extents[p] },
            );
        }
        p += 1;
    }
    assert(c.consistent());

    let n_out = output_indices.len();
    let mut output_shape: Vec<usize> = Vec::new();
    let mut j: usize = 0;
    while j < n_out
        invariant
            j <= n_out,
            output_shape@.len() == j,
            forall|q: int| 0 <= q < j ==> c.known(#[trigger] c.output[q]),
            forall|q: int| 0 <= q < j ==> output_shape@[q] == c.extent_of(c.output[q]),
        decreases n_out - j,
    {
        let label = output_indices[j];
        match position(labels.as_slice(), label) {
            Some(q) => {
                output_shape.push(extents[q]);
            },
            None => {
                assert(c.first_unknown(j as int));
                return Err(TensorError::UnknownOutputIndex { label });
            },
        }
        j += 1;
    }
    assert(c.resolvable());
    assert(output_shape@ =~= c.output_shape());

    let mut loops = copy_shape(output_indices);
    let mut summed_shape: Vec<usize> = Vec::new();
    let mut p: usize = 0;
    while p < n
        invariant
            p <= n,
            loops@ == extend_labels(c.output, labels@.take(p as int)),
            loops@.len() == n_out + summed_shape@.len(),
            forall|q: int|
                0 <= q < summed_shape@.len() ==> summed_shape@[q] == c.extent_of(
                    loops@[n_out + q],
                ),
        decreases n - p,
    {
        let label = labels[p];
        proof {
            assert(labels@.take(p + 1).drop_last() =~= labels@.take(p as int));
            assert(labels@.take(p + 1).last() == label);
            assert(!c.conflict_at(p as int));
        }
        match position(loops.as_slice(), label) {
            Some(_) => {},
            None => {
                loops.push(label);
                summed_shape.push(extents[p]);
            },
        }
        assert(loops@ == extend_labels(c.output, labels@.take(p + 1)));
        p += 1;
    }
    proof {
        assert(labels@.take(n as int) =~= labels@);
        assert(loops@ == c.loop_labels());
        c.lemma_loops();
        assert(summed_shape@ =~= c.summed_shape());
        assert forall|i: int| 0 <= i < indices_a@.len() implies loops@.contains(
            #[trigger] indices_a@[i],
        ) by {
            assert(c.axis_labels()[i] == indices_a@[i]);
        }
        assert forall|i: int| 0 <= i < indices_b@.len() implies loops@.contains(
            #[trigger] indices_b@[i],
        ) by {
            assert(c.axis_labels()[indices_a@.len() + i] == indices_b@[i]);
        }
    }
    let axes_a = bind_axes(&loops, indices_a);
    let axes_b = bind_axes(&loops, indices_b);
    Ok(ContractionPlan { output_shape, summed_shape, axes_a, axes_b })
}

/// The flat index read in an input of the given shape, where loop
/// `axes[i]` drives axis `i` and the loops stand at `outer` followed by
/// `inner`.
fn address(axes: &Vec<usize>, shape: &Vec<usize>, outer: &Vec<usize>, inner: &Vec<usize>) -> (r:
    usize)
    requires
        axes@.len() == shape@.len(),
        shape_size(shape@) <= usize::MAX,
        forall|i: int| 0 <= i < axes@.len() ==> #[trigger] axes@[i] < outer@.len() + inner@.len(),
        forall|i: int|
            0 <= i < axes@.len() ==> (outer@ + inner@)[#[trigger] axes@[i] as int] < shape@[i],
    ensures
        r == flatten(
            Seq::new(shape@.len(), |i: int| (outer@ + inner@)[axes@[i] as int] as int),
            shape@,
        ),
        r < shape_size(shape@),
{
    let n = shape.len();
    let ghost loops = outer@ + inner@;
    let ghost pos = Seq::new(shape@.len(), |i: int| loops[axes@[i] as int] as int);
    let mut off: usize = 0;
    let mut i: usize = 0;
    proof {
        assert(within(pos, shape@)) by {
            assert forall|j: int| 0 <= j < shape@.len() implies 0 <= #[trigger] pos[j]
                < shape@[j] by {
                assert(loops[axes@[j] as int] < shape@[j]);
            }
        }
    }
    while i < n
        invariant
            i <= n,
            n == shape@.len(),
            axes@.len() == shape@.len(),
            shape_size(shape@) <= usize::MAX,
            pos.len() == n,
            within(pos, shape@),
            loops == outer@ + inner@,
            forall|j: int| 0 <= j < n ==> #[trigger] axes@[j] < outer@.len() + inner@.len(),
            forall|j: int| 0 <= j < n ==> pos[j] == loops[axes@[j] as int] as int,
            off == flatten(pos.take(i as int), shape@.take(i as int)),
            off < shape_size(shape@.take(i as int)),
        decreases n - i,
    {
        let v = axes[i];
        let d = if v < outer.len() {
            outer[v]
        } else {
            inner[v - outer.len()]
        };
        proof {
            assert(d == loops[v as int]);
            assert(pos[i as int] == d);
            assert(0 <= pos[i as int] < shape@[i as int]);
            lemma_size_step(shape@, i as int);
            assert forall|j: int| i + 1 <= j < shape@.len() implies shape@[j] > 0 by {
                assert(0 <= pos[j] < shape@[j]);
            }
            lemma_size_grows(shape@, i + 1);
            let a = shape_size(shape@.take(i as int)) as int;
            let s = shape@[i as int] as int;
            assert(0 <= off * s + d < a * s) by (nonlinear_arith)
                requires
                    0 <= off < a,
                    0 <= d < s,
            ;
            assert(0 <= off * s <= off * s + d) by (nonlinear_arith)
                requires
                    0 <= off,
                    0 <= s,
                    0 <= d,
            ;
            assert(pos.take(i + 1).drop_last() =~= pos.take(i as int));
            assert(shape@.take(i + 1).drop_last() =~= shape@.take(i as int));
        }
        off = off * shape[i] + d;
        i += 1;
    }
    proof {
        assert(pos.take(n as int) =~= pos);
        assert(shape@.take(n as int) =~= shape@);
    }
    off
}

/// Contracts two tensors.
///
/// Axis `i` of the first input carries the label `indices_a[i]`, axis `j` of
/// the second `indices_b[j]`; the result has one axis for each entry of
/// `output_indices`, in the order given, with the extent of the label named.
/// Every label that `output_indices` does not list is summed over: each
/// element of the result is the sum, over all assignments of the summed
/// labels in row-major order, of the products of the two elements that the
/// assignment addresses.
#[verifier::loop_isolation(false)]
pub fn einstein_summation<T, A: Arithmetic<T>>(
    tensor_a: &Tensor<T>,
    tensor_b: &Tensor<T>,
    indices_a: &[usize],
    indices_b: &[usize],
    output_indices: &[usize],
    ops: &A,
) -> (r: Result<Tensor<T>, TensorError>)
    requires
        tensor_a.wf(),
        tensor_b.wf(),
    ensures
        ({
            let c = Contraction {
                labels_a: indices_a@,
                shape_a: tensor_a.shape@,
                labels_b: indices_b@,
                shape_b: tensor_b.shape@,
                output: output_indices@,
            };
            match r {
                Ok(t) => {
                    &&& c.valid()
                    &&& c.countable()
                    &&& t.wf()
                    &&& t.shape@ == c.output_shape()
                    &&& forall|o: int|
                        0 <= o < t.data@.len() ==> is_dot(
                            ops,
                            c.operands_a(tensor_a.data@, o),
                            c.operands_b(tensor_b.data@, o),
                            #[trigger] t.data@[o],
                        )
                },
                Err(e) => match e {
                    TensorError::CapacityOverflow => c.valid() && !c.countable(),
                    _ => c.rejects_with(e),
                },
            }
        }),
{
    let ghost c = Contraction {
        labels_a: indices_a@,
        shape_a: tensor_a.shape@,
        labels_b: indices_b@,
        shape_b: tensor_b.shape@,
        output: output_indices@,
    };
    let plan = match plan_contraction(
        tensor_a.shape.as_slice(),
        tensor_b.shape.as_slice(),
        indices_a,
        indices_b,
        output_indices,
    ) {
        Ok(plan) => plan,
        Err(e) => {
            return Err(e);
        },
    };
    let out_size = match checked_size(plan.output_shape.as_slice()) {
        Some(n) => n,
        None => {
            return Err(TensorError::CapacityOverflow);
        },
    };
    let sum_size = match checked_size(plan.summed_shape.as_slice()) {
        Some(n) => n,
        None => {
            return Err(TensorError::CapacityOverflow);
        },
    };
    proof {
        c.lemma_loops();
        vstd::std_specs::vec::axiom_spec_len(&tensor_a.data);
        vstd::std_specs::vec::axiom_spec_len(&tensor_b.data);
    }
    let mut data: Vec<T> = Vec::new();
    let mut o: usize = 0;
    while o < out_size
        invariant
            o <= out_size,
            data@.len() == o,
            forall|j: int|
                0 <= j < o ==> is_dot(
                    ops,
                    c.operands_a(tensor_a.data@, j),
                    c.operands_b(tensor_b.data@, j),
                    #[trigger] data@[j],
                ),
        decreases out_size - o,
    {
        proof {
            lemma_size_zero_iff(plan.output_shape@);
        }
        let outer = unflatten_index(o, plan.output_shape.as_slice());
        let ghost xs = c.operands_a(tensor_a.data@, o as int);
        let ghost ys = c.operands_b(tensor_b.data@, o as int);
        let mut acc = ops.from_count(0);
        let mut k: usize = 0;
        while k < sum_size
            invariant
                k <= sum_size,
                is_dot_prefix(ops, xs, ys, k as nat, acc),
            decreases sum_size - k,
        {
            proof {
                lemma_size_zero_iff(plan.summed_shape@);
            }
            let inner = unflatten_index(k, plan.summed_shape.as_slice());
            proof {
                c.lemma_reads_in_bounds(o as int, k as int);
                lemma_unflatten_len(o as int, c.output_shape());
                lemma_unflatten_len(k as int, c.summed_shape());
                let asg = c.assignment(o as int, k as int);
                let loops = outer@ + inner@;
                assert forall|v: int| 0 <= v < loops.len() implies loops[v] as int == asg[v] by {
                    if v < outer@.len() {
                        assert(loops[v] == outer@[v]);
                    } else {
                        assert(loops[v] == inner@[v - outer@.len()]);
                    }
                }
                let pa = c.position_a(o as int, k as int);
                let pb = c.position_b(o as int, k as int);
                assert forall|i: int| 0 <= i < plan.axes_a@.len() implies loops[
                #[trigger] plan.axes_a@[i] as int] < tensor_a.shape@[i] by {
                    assert(pa[i] == asg[plan.axes_a@[i] as int]);
                    assert(0 <= pa[i] < tensor_a.shape@[i]);
                }
                assert forall|i: int| 0 <= i < plan.axes_b@.len() implies loops[
                #[trigger] plan.axes_b@[i] as int] < tensor_b.shape@[i] by {
                    assert(pb[i] == asg[plan.axes_b@[i] as int]);
                    assert(0 <= pb[i] < tensor_b.shape@[i]);
                }
                assert(Seq::new(
                    tensor_a.shape@.len(),
                    |i: int| loops[plan.axes_a@[i] as int] as int,
                ) =~= pa);
                assert(Seq::new(
                    tensor_b.shape@.len(),
                    |i: int| loops[plan.axes_b@[i] as int] as int,
                ) =~= pb);
            }
            let ia = address(&plan.axes_a, &tensor_a.shape, &outer, &inner);
            let ib = address(&plan.axes_b, &tensor_b.shape, &outer, &inner);
            let p = ops.times(&tensor_a.data[ia], &tensor_b.data[ib]);
            let next = ops.plus(&acc, &p);
            proof {
                assert(xs[k as int] == tensor_a.data@[ia as int]);
                assert(ys[k as int] == tensor_b.data@[ib as int]);
                lemma_dot_step(ops, xs, ys, k as nat, acc, p, next);
            }
            acc = next;
            k += 1;
        }
        data.push(acc);
        o += 1;
    }
    let rank = plan.output_shape.len();
    Ok(Tensor { shape: plan.output_shape, data, rank })
}

} // verus!
