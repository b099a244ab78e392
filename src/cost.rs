use vstd::prelude::*;

use crate::error::ShapeError;
use crate::mat::{is_sum_of, Mat};

verus! {

/// A loss between a network's output and its target, with its gradient.
#[derive(Debug, Clone, Copy, PartialEq, Eq, Structural)]
pub enum CostFn {
    /// The mean of the squared elementwise differences.
    MeanSquaredError,
}

impl CostFn {
    /// The loss of `output` against a target of the same shape. For mean squared
    /// error: every pair of elements is turned into a term by `sq_diff`
    /// (`(o - t)^2`), the terms are folded from `zero` by `plus`, and `per_element`
    /// divides the total by the element count `n`.
    pub fn cost<T: Copy, S: Fn(T, T) -> T, A: Fn(T, T) -> T, D: Fn(T, usize) -> T>(
        &self,
        output: &Mat<T>,
        target: &Mat<T>,
        zero: T,
        sq_diff: &S,
        plus: &A,
        per_element: &D,
    ) -> (r: Result<T, ShapeError>)
        requires
            forall|a: T, b: T| sq_diff.requires((a, b)),
            forall|acc: T, v: T| plus.requires((acc, v)),
            forall|total: T, n: usize| per_element.requires((total, n)),
        ensures
            r is Ok <==> (output.nrows() == target.nrows() && output.ncols() == target.ncols()),
            r is Err ==> r == Err::<T, ShapeError>(output.mismatch(target)),
            r matches Ok(v) ==> exists|terms: Mat<T>, total: T| {
                &&& #[trigger] terms.is_zip_of(output, target, *sq_diff)
                &&& #[trigger] is_sum_of(total, terms@, zero, *plus)
                &&& per_element.ensures((total, output@.len() as usize), v)
            },
    {
        match self {
            CostFn::MeanSquaredError => {
                let terms = match output.zip_map(target, sq_diff) {
                    Ok(terms) => terms,
                    Err(e) => {
                        return Err(e);
                    },
                };
                let n = output.as_slice().len();
                let total = terms.sum(zero, plus);
                let v = per_element(total, n);
                proof {
                    assert(terms.is_zip_of(output, target, *sq_diff));
                    assert(is_sum_of(total, terms@, zero, *plus));
                }
                Ok(v)
            },
        }
    }

    /// The gradient of the loss with respect to each element of `output`. For mean
    /// squared error, element `i` is `term(o_i, t_i, n)` (`2 * (o_i - t_i) / n`), with
    /// `n` the element count.
    pub fn grad<T: Copy, F: Fn(T, T, usize) -> T>(&self, output: &Mat<T>, target: &Mat<T>, term: &F) -> (r: Result<Mat<T>, ShapeError>)
        requires
            forall|a: T, b: T, n: usize| term.requires((a, b, n)),
        ensures
            r is Ok <==> (output.nrows() == target.nrows() && output.ncols() == target.ncols()),
            r is Err ==> r == Err::<Mat<T>, ShapeError>(output.mismatch(target)),
            r matches Ok(g) ==> {
                &&& g.nrows() == output.nrows()
                &&& g.ncols() == output.ncols()
                &&& g.shaped()
                &&& forall|i: int| 0 <= i < g@.len() ==> term.ensures(
                    (output@[i], target@[i], output@.len() as usize),
                    #[trigger] g@[i],
                )
            },
    {
        match self {
            CostFn::MeanSquaredError => {
                let n = output.as_slice().len();
                let step = |a: T, b: T| -> (v: T)
                    requires
                        term.requires((a, b, n)),
                    ensures
                        term.ensures((a, b, n), v),
                    { term(a, b, n) };
                output.zip_map(target, &step)
            },
        }
    }
}

} // verus!
