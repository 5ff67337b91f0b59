pub mod arith;
pub mod error;
pub mod optimus;

pub use crate::error::OptimusError;
pub use crate::optimus::Optimus;
