pub mod tensor_objects;
pub mod tensor_ops;

pub use tensor_objects::{Tensor, TensorError, TensorIndexResult, TensorModel};
