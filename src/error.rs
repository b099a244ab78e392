use vstd::prelude::*;

verus! {

/// Why a matrix or network operation refused its operands.
#[derive(Debug, Clone, Copy, PartialEq, Eq, Structural)]
pub enum ShapeError {
    /// Two operands whose shapes do not fit together, by their extents.
    Mismatch { left_rows: usize, left_cols: usize, right_rows: usize, right_cols: usize },
    /// A matrix was asked for with a zero extent.
    ZeroExtent { rows: usize, cols: usize },
    /// A buffer whose length is not `rows * cols`.
    BufferLength { rows: usize, cols: usize, len: usize },
    /// An activation list whose length is not one less than the number of layers.
    ActivationCount { layers: usize, activations: usize },
}

} // verus!
