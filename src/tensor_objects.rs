mod tensor;

pub use tensor::{index_matches, lemma_model_bounded, model_of, sliced, Tensor, TensorError, TensorIndexResult, TensorModel};
