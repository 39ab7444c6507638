use vstd::prelude::*;
use crate::tensor_objects::{Tensor, TensorModel};

verus! {

/// A tensor laid out by `dims` whose every value is `value`: `dims[0]`
/// copies of the tensor for the remaining extents, down to one vector of
/// `dims[last]` values.
pub open spec fn filled<T>(dims: Seq<usize>, value: T) -> TensorModel<T>
    decreases dims.len(),
{
    if dims.len() <= 1 {
        TensorModel::Element(Seq::new(dims[0] as nat, |_i: int| value))
    } else {
        TensorModel::Array(Seq::new(dims[0] as nat, |_i: int| filled(dims.drop_first(), value)))
    }
}

fn fill_from<T: Copy>(shape: &Vec<usize>, level: usize, value: T) -> (r: Tensor<T>)
    requires
        level < shape.len(),
    ensures
        r@ == filled(shape@.subrange(level as int, shape.len() as int), value),
    decreases shape.len() - level,
{
    let ghost dims = shape@.subrange(level as int, shape.len() as int);
    let extent = shape[level];
    if level + 1 == shape.len() {
        let mut out: Vec<T> = Vec::new();
        let mut n: usize = 0;
        while n < extent
            invariant
                n <= extent,
                out@ == Seq::new(n as nat, |_i: int| value),
            decreases extent - n,
        {
            out.push(value);
            n = n + 1;
            assert(out@ =~= Seq::new(n as nat, |_i: int| value));
        }
        let r = Tensor::Element(out);
        assert(r@->Element_0 =~= filled(dims, value)->Element_0);
        r
    } else {
        let ghost inner = filled(shape@.subrange(level + 1, shape.len() as int), value);
        assert(dims.drop_first() =~= shape@.subrange(level + 1, shape.len() as int));
        let mut out: Vec<Tensor<T>> = Vec::new();
        let mut n: usize = 0;
        while n < extent
            invariant
                level + 1 < shape.len(),
                inner == filled(shape@.subrange(level + 1, shape.len() as int), value),
                n <= extent,
                out.len() == n,
                forall|j: int| 0 <= j < n ==> (#[trigger] out[j])@ == inner,
            decreases extent - n,
        {
            out.push(fill_from(shape, level + 1, value));
            n = n + 1;
        }
        let r = Tensor::Array(out);
        assert(r@->Array_0 =~= filled(dims, value)->Array_0);
        r
    }
}

/// Creates a tensor of the given shape whose every value is `zero`.
pub fn zero_tensor<T: Copy>(shape: Vec<usize>, zero: T) -> (r: Tensor<T>)
    requires
        shape.len() >= 1,
    ensures
        r@ == filled(shape@, zero),
{
    let r = fill_from(&shape, 0, zero);
    assert(shape@.subrange(0, shape.len() as int) =~= shape@);
    r
}

} // verus!
