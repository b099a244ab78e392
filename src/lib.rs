use vstd::prelude::*;

pub mod activation;
pub mod arch;
pub mod cost;
pub mod error;
pub mod mat;
pub mod nn;

pub use activation::Activation;
pub use arch::Arch;
pub use cost::CostFn;
pub use error::ShapeError;
pub use mat::Mat;
pub use nn::NeuralNet;

verus! {

} // verus!
