//! The scalar arithmetic that the engine is parameterised by.
//!
//! Nothing is assumed of an implementation. A contract that speaks of a
//! scalar result does so through the predicates below, each of which holds
//! of exactly the values that the corresponding method may return.

use vstd::prelude::*;
use crate::parallel::par_map;

verus! {

/// Arithmetic on scalars of type `T`.
pub trait Arithmetic<T> {
    /// The scalar that stands for the count `n`.
    fn from_count(&self, n: usize) -> T;

    /// The scalar that stands for the fraction `numerator / denominator`.
    fn from_ratio(&self, numerator: u64, denominator: u64) -> T;

    /// `x + y`.
    fn plus(&self, x: &T, y: &T) -> T;

    /// `x - y`.
    fn minus(&self, x: &T, y: &T) -> T;

    /// `x * y`.
    fn times(&self, x: &T, y: &T) -> T;

    /// `x / y`.
    fn divide(&self, x: &T, y: &T) -> T;

    /// The larger of `x` and `y`.
    fn maximum(&self, x: &T, y: &T) -> T;

    /// `-x`.
    fn negate(&self, x: &T) -> T;

    /// The square root of `x`.
    fn square_root(&self, x: &T) -> T;

    /// `e` raised to `x`.
    fn exponential(&self, x: &T) -> T;

    /// `x` raised to `y`.
    fn power(&self, x: &T, y: &T) -> T;

    /// Whether `x < y`.
    fn less_than(&self, x: &T, y: &T) -> bool;
}

/// `r` is a scalar that `from_count(n)` may return.
pub open spec fn is_count<T, A: Arithmetic<T>>(ops: &A, n: usize, r: T) -> bool {
    call_ensures(A::from_count, (ops, n), r)
}

/// `r` is a scalar that `from_ratio(numerator, denominator)` may return.
pub open spec fn is_ratio<T, A: Arithmetic<T>>(
    ops: &A,
    numerator: u64,
    denominator: u64,
    r: T,
) -> bool {
    call_ensures(A::from_ratio, (ops, numerator, denominator), r)
}

/// The tolerance is one part in this many: a norm below it is treated as
/// zero.
pub const TOLERANCE_DENOMINATOR: u64 = 10_000_000_000;

/// `r` is a scalar for the tolerance, `1 / 10^10`.
pub open spec fn is_tolerance<T, A: Arithmetic<T>>(ops: &A, r: T) -> bool {
    is_ratio(ops, 1, TOLERANCE_DENOMINATOR, r)
}

/// `r` is a scalar that `plus(x, y)` may return.
pub open spec fn is_sum<T, A: Arithmetic<T>>(ops: &A, x: T, y: T, r: T) -> bool {
    call_ensures(A::plus, (ops, &x, &y), r)
}

/// `r` is a scalar that `minus(x, y)` may return.
pub open spec fn is_difference<T, A: Arithmetic<T>>(ops: &A, x: T, y: T, r: T) -> bool {
    call_ensures(A::minus, (ops, &x, &y), r)
}

/// `r` is a scalar that `times(x, y)` may return.
pub open spec fn is_product<T, A: Arithmetic<T>>(ops: &A, x: T, y: T, r: T) -> bool {
    call_ensures(A::times, (ops, &x, &y), r)
}

/// `r` is a scalar that `divide(x, y)` may return.
pub open spec fn is_quotient<T, A: Arithmetic<T>>(ops: &A, x: T, y: T, r: T) -> bool {
    call_ensures(A::divide, (ops, &x, &y), r)
}

/// `r` is a scalar that `maximum(x, y)` may return.
pub open spec fn is_maximum<T, A: Arithmetic<T>>(ops: &A, x: T, y: T, r: T) -> bool {
    call_ensures(A::maximum, (ops, &x, &y), r)
}

/// `r` is a scalar that `negate(x)` may return.
pub open spec fn is_negation<T, A: Arithmetic<T>>(ops: &A, x: T, r: T) -> bool {
    call_ensures(A::negate, (ops, &x), r)
}

/// `r` is a scalar that `square_root(x)` may return.
pub open spec fn is_square_root<T, A: Arithmetic<T>>(ops: &A, x: T, r: T) -> bool {
    call_ensures(A::square_root, (ops, &x), r)
}

/// `r` is a scalar that `exponential(x)` may return.
pub open spec fn is_exponential<T, A: Arithmetic<T>>(ops: &A, x: T, r: T) -> bool {
    call_ensures(A::exponential, (ops, &x), r)
}

/// `r` is a scalar that `power(x, y)` may return.
pub open spec fn is_power<T, A: Arithmetic<T>>(ops: &A, x: T, y: T, r: T) -> bool {
    call_ensures(A::power, (ops, &x, &y), r)
}

/// `r` is an answer that `less_than(x, y)` may give.
pub open spec fn is_less<T, A: Arithmetic<T>>(ops: &A, x: T, y: T, r: bool) -> bool {
    call_ensures(A::less_than, (ops, &x, &y), r)
}

/// `r` is a value that summing the first `n` products `xs[i] * ys[i]`, in
/// order of ascending `i` and starting from the scalar for zero, may give.
pub open spec fn is_dot_prefix<T, A: Arithmetic<T>>(
    ops: &A,
    xs: Seq<T>,
    ys: Seq<T>,
    n: nat,
    r: T,
) -> bool
    decreases n,
{
    if n == 0 {
        is_count(ops, 0, r)
    } else {
        exists|acc: T, p: T|
            {
                &&& is_dot_prefix(ops, xs, ys, (n - 1) as nat, acc)
                &&& is_product(ops, xs[n - 1], ys[n - 1], p)
                &&& #[trigger] is_sum(ops, acc, p, r)
            }
    }
}

/// `r` is a value that the inner product of `xs` and `ys` may have: their
/// products summed from the first pair to the last.
pub open spec fn is_dot<T, A: Arithmetic<T>>(ops: &A, xs: Seq<T>, ys: Seq<T>, r: T) -> bool {
    xs.len() == ys.len() && is_dot_prefix(ops, xs, ys, xs.len(), r)
}

/// One more product extends a partial inner product by one position.
pub proof fn lemma_dot_step<T, A: Arithmetic<T>>(
    ops: &A,
    xs: Seq<T>,
    ys: Seq<T>,
    n: nat,
    acc: T,
    p: T,
    r: T,
)
    requires
        n < xs.len(),
        n < ys.len(),
        is_dot_prefix(ops, xs, ys, n, acc),
        is_product(ops, xs[n as int], ys[n as int], p),
        is_sum(ops, acc, p, r),
    ensures
        is_dot_prefix(ops, xs, ys, n + 1, r),
{
    let m: nat = n + 1;
    assert((m - 1) as nat == n);
    assert(is_dot_prefix(ops, xs, ys, (m - 1) as nat, acc));
    assert(is_product(ops, xs[m - 1], ys[m - 1], p));
}

/// The inner product of two buffers of one length, accumulated in index
/// order.
pub fn dot<T, A: Arithmetic<T>>(ops: &A, xs: &Vec<T>, ys: &Vec<T>) -> (r: T)
    requires
        xs@.len() == ys@.len(),
    ensures
        is_dot(ops, xs@, ys@, r),
{
    let mut acc = ops.from_count(0);
    let mut i: usize = 0;
    while i < xs.len()
        invariant
            xs@.len() == ys@.len(),
            i <= xs@.len(),
            is_dot_prefix(ops, xs@, ys@, i as nat, acc),
        decreases xs@.len() - i,
    {
        let p = ops.times(&xs[i], &ys[i]);
        let next = ops.plus(&acc, &p);
        proof {
            lemma_dot_step(ops, xs@, ys@, i as nat, acc, p, next);
        }
        acc = next;
        i += 1;
    }
    acc
}

/// `r` is a value that the Euclidean norm of `xs` may have: the square root
/// of the inner product of `xs` with itself.
pub open spec fn is_norm<T, A: Arithmetic<T>>(ops: &A, xs: Seq<T>, r: T) -> bool {
    exists|s: T| is_dot(ops, xs, xs, s) && #[trigger] is_square_root(ops, s, r)
}

/// `r` holds, position by position, a quotient of the element of `xs` by
/// `divisor`.
pub open spec fn is_scaled<T, A: Arithmetic<T>>(ops: &A, xs: Seq<T>, divisor: T, r: Seq<T>) -> bool {
    &&& r.len() == xs.len()
    &&& forall|i: int| 0 <= i < r.len() ==> is_quotient(ops, xs[i], divisor, #[trigger] r[i])
}

/// The tolerance under which a norm is treated as zero.
pub fn tolerance<T, A: Arithmetic<T>>(ops: &A) -> (r: T)
    ensures
        is_tolerance(ops, r),
{
    ops.from_ratio(1, TOLERANCE_DENOMINATOR)
}

/// The Euclidean norm of a buffer.
pub fn norm_of<T, A: Arithmetic<T>>(ops: &A, xs: &Vec<T>) -> (r: T)
    ensures
        is_norm(ops, xs@, r),
{
    let s = dot(ops, xs, xs);
    let r = ops.square_root(&s);
    assert(is_square_root(ops, s, r));
    r
}

/// Every element of a buffer divided by `divisor`.
pub fn scale<T: Send + Sync, A: Arithmetic<T> + Sync>(ops: &A, xs: &Vec<T>, divisor: &T) -> (r:
    Vec<T>)
    ensures
        is_scaled(ops, xs@, *divisor, r@),
{
    let f = |x: &T| -> (q: T)
        ensures
            is_quotient(ops, *x, *divisor, q),
        { ops.divide(x, divisor) };
    par_map(&f, xs)
}

} // verus!
