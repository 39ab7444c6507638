use vstd::prelude::*;
use crate::tensor_objects::{Tensor, TensorError, TensorModel};

verus! {

/// Finds the shape of a tensor, outermost axis first. It fails with
/// `ShapeMismatch` exactly when some `Array` in the tree holds children of
/// differing shapes.
pub fn get_dimension<T>(tensor: &Tensor<T>) -> (r: Result<Vec<usize>, TensorError>)
    ensures
        r is Ok <==> tensor@.wf(),
        r is Ok ==> r->Ok_0@ == tensor@.shape(),
        r is Err ==> r->Err_0 == TensorError::ShapeMismatch,
    decreases tensor@,
{
    match tensor {
        Tensor::Element(v) => {
            let mut dims: Vec<usize> = Vec::new();
            dims.push(v.len());
            assert(dims@ =~= tensor@.shape());
            Ok(dims)
        },
        Tensor::Array(v) => {
            let ghost cs = tensor@->Array_0;
            if v.len() == 0 {
                let mut dims: Vec<usize> = Vec::new();
                dims.push(0);
                assert(dims@ =~= tensor@.shape());
                return Ok(dims);
            }
            proof {
                assert(decreases_to!(tensor@ => cs));
                assert(decreases_to!(cs => cs[0]));
            }
            let first = match get_dimension(&v[0]) {
                Ok(d) => d,
                Err(e) => {
                    assert(!cs[0].wf());
                    return Err(e);
                },
            };
            let mut i: usize = 1;
            while i < v.len()
                invariant
                    *tensor == Tensor::Array(*v),
                    cs == tensor@->Array_0,
                    1 <= i <= v.len(),
                    first@ == cs[0].shape(),
                    forall|j: int| 0 <= j < i ==> (#[trigger] cs[j]).wf() && cs[j].shape() == cs[0].shape(),
                decreases v.len() - i,
            {
                proof {
                    assert(decreases_to!(tensor@ => cs));
                    assert(decreases_to!(cs => cs[i as int]));
                }
                match get_dimension(&v[i]) {
                    Ok(d) => {
                        if !(d == first) {
                            assert(cs[i as int].shape() != cs[0].shape());
                            return Err(TensorError::ShapeMismatch);
                        }
                    },
                    Err(e) => {
                        assert(!cs[i as int].wf());
                        return Err(e);
                    },
                }
                i = i + 1;
            }
            let mut dims: Vec<usize> = Vec::new();
            dims.push(v.len());
            let mut k: usize = 0;
            while k < first.len()
                invariant
                    k <= first.len(),
                    dims@ == seq![v.len()] + first@.take(k as int),
                decreases first.len() - k,
            {
                dims.push(first[k]);
                k = k + 1;
                assert(dims@ =~= seq![v.len()] + first@.take(k as int));
            }
            assert(first@.take(first.len() as int) =~= first@);
            assert(dims@ =~= tensor@.shape());
            Ok(dims)
        },
    }
}

/// The shape of a well-formed tensor has one extent per level of nesting,
/// and below an `Array` with children, every child has the shape that
/// follows the outermost extent.
pub proof fn lemma_shape_length_is_depth<T>(t: TensorModel<T>)
    requires
        t.wf(),
    ensures
        t.shape().len() == t.depth(),
        t is Array && t.extent() > 0 ==> forall|i: int|
            0 <= i < t.extent() ==> (#[trigger] t->Array_0[i]).shape() == t.shape().drop_first(),
    decreases t,
{
    if let TensorModel::Array(cs) = t {
        if cs.len() > 0 {
            assert(cs[0].wf());
            lemma_shape_length_is_depth(cs[0]);
            assert(t.shape().drop_first() =~= cs[0].shape());
        }
    }
}

} // verus!
