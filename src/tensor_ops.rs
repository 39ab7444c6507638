mod utilities;
pub use utilities::{get_dimension, lemma_shape_length_is_depth};

mod broadcasting;
pub use broadcasting::{
    broadcast_dims,
    broadcast_shape,
    broadcast_tensor,
    broadcastable,
    collapsed,
    compatible,
    expand_dims,
    expand_tensor,
    expanded,
    is_broadcastable,
    lemma_broadcast_dims_idempotent,
    lemma_broadcastable_symmetric,
    lemma_expand_dims_shape,
    lemma_stretch_own_shape,
    lemma_stretch_shape,
    source_index,
    stretch,
    stretchable,
    trailing,
};

mod standard_ops;
pub use standard_ops::{
    applied,
    first_error,
    lemma_op_after_broadcast_to_common_shape,
    op_error,
    result_of,
    tensor_op,
};

mod tensor_creation;
pub use tensor_creation::{filled, zero_tensor};
