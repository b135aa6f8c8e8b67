//! Elementwise work handed to a pool of worker threads.

use vstd::prelude::*;
use rayon::iter::IndexedParallelIterator;
use rayon::iter::IntoParallelRefIterator;
use rayon::iter::ParallelIterator;

verus! {

/// Applies `f` to the pairs `(a[i], b[i])` and collects the results in the
/// order of `i`.
///
/// Calls rayon's `par_iter`, `zip`, `map` and `collect`. The contract claims
/// of them that the pairs are those at equal positions as far as the shorter
/// buffer reaches, that `f` is called once for each pair, and that the
/// result holds what each call returned at the position of its pair.
#[verifier::external_body]
pub(crate) fn par_zip_with<T: Send + Sync, F: Fn(&T, &T) -> T + Send + Sync>(
    f: &F,
    a: &Vec<T>,
    b: &Vec<T>,
) -> (r: Vec<T>)
    requires
        forall|i: int| 0 <= i < a@.len() && i < b@.len() ==> f.requires((&a@[i], &b@[i])),
    ensures
        r@.len() == if a@.len() <= b@.len() {
            a@.len()
        } else {
            b@.len()
        },
        forall|i: int| 0 <= i < r@.len() ==> f.ensures((&a@[i], &b@[i]), #[trigger] r@[i]),
{
    a.par_iter().zip(b.par_iter()).map(|(x, y)| f(x, y)).collect()
}

/// Applies `f` to every element of `a` and collects the results in the
/// order of the elements.
///
/// Calls rayon's `par_iter`, `map` and `collect`. The contract claims of
/// them that `f` is called once for each element and that the result holds
/// what each call returned at the position of its element.
#[verifier::external_body]
pub(crate) fn par_map<T: Send + Sync, F: Fn(&T) -> T + Send + Sync>(f: &F, a: &Vec<T>) -> (r: Vec<
    T,
>)
    requires
        forall|i: int| 0 <= i < a@.len() ==> f.requires((&a@[i],)),
    ensures
        r@.len() == a@.len(),
        forall|i: int| 0 <= i < r@.len() ==> f.ensures((&a@[i],), #[trigger] r@[i]),
{
    a.par_iter().map(|x| f(x)).collect()
}

} // verus!
