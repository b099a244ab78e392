use vstd::prelude::*;

use crate::activation::Activation;
use crate::error::ShapeError;

verus! {

/// The shape of a network: its layer widths, and one activation per connection
/// between consecutive layers.
#[derive(Debug, Clone)]
pub struct Arch {
    pub layers: Vec<usize>,
    pub activations: Vec<Activation>,
}

impl Arch {
    /// Number of connections between consecutive layers.
    pub open spec fn connections(&self) -> nat {
        if self.layers@.len() == 0 {
            0
        } else {
            (self.layers@.len() - 1) as nat
        }
    }

    /// At least one layer, and exactly one activation per connection.
    pub open spec fn counts_match(&self) -> bool {
        &&& self.layers@.len() >= 1
        &&& self.activations@.len() == self.layers@.len() - 1
    }

    /// Counts match and every layer that takes part in a connection has a positive width.
    pub open spec fn well_formed(&self) -> bool {
        &&& self.counts_match()
        &&& forall|i: int| 0 <= i < self.layers@.len() && self.layers@.len() > 1 ==> #[trigger] self.layers@[i] > 0
    }

    /// The architecture with the given widths and a rectified-linear activation on
    /// every connection.
    pub fn new(layers: Vec<usize>) -> (a: Arch)
        ensures
            a.layers@ == layers@,
            a.activations@.len() == a.connections(),
            forall|i: int| 0 <= i < a.activations@.len() ==> #[trigger] a.activations@[i] == Activation::ReLu,
    {
        let count: usize = if layers.len() == 0 { 0 } else { layers.len() - 1 };
        let mut activations: Vec<Activation> = Vec::new();
        let mut i: usize = 0;
        while i < count
            invariant
                i <= count,
                activations@.len() == i,
                forall|j: int| 0 <= j < i ==> #[trigger] activations@[j] == Activation::ReLu,
            decreases count - i,
        {
            activations.push(Activation::ReLu);
            i = i + 1;
        }
        Arch { layers, activations }
    }

    /// The same widths with the given activations, one per connection.
    pub fn with_activations(self, activations: Vec<Activation>) -> (r: Result<Arch, ShapeError>)
        ensures
            r is Ok <==> (self.layers@.len() >= 1 && activations@.len() == self.layers@.len() - 1),
            r is Err ==> r == Err::<Arch, ShapeError>(
                ShapeError::ActivationCount {
                    layers: self.layers@.len() as usize,
                    activations: activations@.len() as usize,
                },
            ),
            r matches Ok(a) ==> a.layers@ == self.layers@ && a.activations@ == activations@,
    {
        if self.layers.len() == 0 || activations.len() != self.layers.len() - 1 {
            return Err(
                ShapeError::ActivationCount {
                    layers: self.layers.len(),
                    activations: activations.len(),
                },
            );
        }
        Ok(Arch { layers: self.layers, activations })
    }

    /// Width of the first layer, or 0 when there is none.
    pub fn input_size(&self) -> (n: usize)
        ensures
            n == (if self.layers@.len() == 0 { 0 } else { self.layers@[0] }),
    {
        if self.layers.len() == 0 {
            0
        } else {
            self.layers[0]
        }
    }

    /// Width of the last layer, or 0 when there is none.
    pub fn output_size(&self) -> (n: usize)
        ensures
            n == (if self.layers@.len() == 0 { 0 } else { self.layers@.last() }),
    {
        if self.layers.len() == 0 {
            0
        } else {
            self.layers[self.layers.len() - 1]
        }
    }
}

} // verus!
