use vstd::prelude::*;

use crate::mat::Mat;

verus! {

/// The elementwise nonlinearity applied after a layer's affine step.
#[derive(Debug, Clone, Copy, PartialEq, Eq, Structural)]
pub enum Activation {
    /// `max(v, 0)`.
    ReLu,
    /// `1 / (1 + exp(-v))`.
    Sigmoid,
    /// `tanh(v)`.
    Tanh,
    /// The identity.
    Identity,
}

impl Activation {
    /// Rewrites every element of `x` by this activation. `kernel(act, v)` evaluates a
    /// non-identity activation on one element; the identity leaves `x` untouched.
    pub fn apply_inplace<T: Copy, F: Fn(Activation, T) -> T>(&self, x: &mut Mat<T>, kernel: &F)
        requires
            forall|a: Activation, v: T| kernel.requires((a, v)),
        ensures
            final(x).is_activation_of(old(x), *self, *kernel),
    {
        let act = *self;
        match act {
            Activation::Identity => {},
            _ => {
                let step = |v: T| -> (w: T)
                    requires
                        kernel.requires((act, v)),
                    ensures
                        kernel.ensures((act, v), w),
                    { kernel(act, v) };
                x.map_inplace(&step);
            },
        }
    }
}

impl<T> Mat<T> {
    /// `self` is `x` after activation `act`, element by element through `kernel`.
    pub open spec fn is_activation_of<F: Fn(Activation, T) -> T>(&self, x: &Mat<T>, act: Activation, kernel: F) -> bool {
        &&& self.nrows() == x.nrows()
        &&& self.ncols() == x.ncols()
        &&& self@.len() == x@.len()
        &&& act == Activation::Identity ==> self@ == x@
        &&& act != Activation::Identity ==> forall|i: int| 0 <= i < x@.len() ==> kernel.ensures((act, x@[i]), #[trigger] self@[i])
    }
}

} // verus!
