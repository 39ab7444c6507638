use vstd::prelude::*;
use crate::tensor_objects::{lemma_model_bounded, Tensor, TensorError, TensorModel};
use crate::tensor_ops::broadcasting::{lemma_stretch_own_shape, stretch, stretchable};

verus! {

/// The error that combining `a` and `b` element-wise meets first, walking
/// both trees in order, or `None` when their structures agree.
pub open spec fn op_error<T>(a: TensorModel<T>, b: TensorModel<T>) -> Option<TensorError>
    decreases a, 0int,
{
    match a {
        TensorModel::Array(xs) => match b {
            TensorModel::Array(ys) => if xs.len() != ys.len() {
                Some(TensorError::LengthMismatch)
            } else {
                first_error(xs, ys, 0)
            },
            TensorModel::Element(_) => Some(TensorError::DimensionalityMismatch),
        },
        TensorModel::Element(xs) => match b {
            TensorModel::Array(_) => Some(TensorError::DimensionalityMismatch),
            TensorModel::Element(ys) => if xs.len() != ys.len() {
                Some(TensorError::LengthMismatch)
            } else {
                None
            },
        },
    }
}

/// The first error met among the child pairs from position `i` on.
pub open spec fn first_error<T>(xs: Seq<TensorModel<T>>, ys: Seq<TensorModel<T>>, i: int) -> Option<
    TensorError,
>
    decreases xs, xs.len() - i,
{
    if i < 0 || i >= xs.len() {
        None
    } else if op_error(xs[i], ys[i]) is Some {
        op_error(xs[i], ys[i])
    } else {
        first_error(xs, ys, i + 1)
    }
}

/// `r` has the structure of `a` and `b`, and each of its values `z` stands
/// in `rel(x, y, z)` to the values `x` and `y` of `a` and `b` at its position.
pub open spec fn applied<T>(
    a: TensorModel<T>,
    b: TensorModel<T>,
    r: TensorModel<T>,
    rel: spec_fn(T, T, T) -> bool,
) -> bool
    decreases a,
{
    match a {
        TensorModel::Array(xs) => {
            &&& b is Array
            &&& r is Array
            &&& r->Array_0.len() == xs.len()
            &&& forall|i: int|
                0 <= i < xs.len() ==> applied(#[trigger] xs[i], b->Array_0[i], r->Array_0[i], rel)
        },
        TensorModel::Element(xs) => {
            &&& b is Element
            &&& r is Element
            &&& r->Element_0.len() == xs.len()
            &&& forall|i: int|
                0 <= i < xs.len() ==> rel(xs[i], b->Element_0[i], #[trigger] r->Element_0[i])
        },
    }
}

proof fn lemma_first_error_prefix<T>(xs: Seq<TensorModel<T>>, ys: Seq<TensorModel<T>>, i: int)
    requires
        0 <= i <= xs.len(),
        forall|j: int| 0 <= j < i ==> (#[trigger] op_error(xs[j], ys[j])) is None,
    ensures
        first_error(xs, ys, 0) == first_error(xs, ys, i),
    decreases i,
{
    if i > 0 {
        assert(op_error(xs[i - 1], ys[i - 1]) is None);
        lemma_first_error_prefix(xs, ys, i - 1);
    }
}

fn apply_op<T: Copy, F: Fn(T, T) -> T>(ltensor: &Tensor<T>, rtensor: &Tensor<T>, func: &F) -> (r: Result<
    Tensor<T>,
    TensorError,
>)
    requires
        forall|x: T, y: T| call_requires(*func, (x, y)),
    ensures
        r is Ok <==> op_error(ltensor@, rtensor@) is None,
        r is Ok ==> applied(ltensor@, rtensor@, r->Ok_0@, result_of(*func)),
        r is Err ==> Some(r->Err_0) == op_error(ltensor@, rtensor@),
    decreases ltensor@,
{
    match ltensor {
        Tensor::Element(x) => match rtensor {
            Tensor::Element(y) => {
                if x.len() != y.len() {
                    return Err(TensorError::LengthMismatch);
                }
                let mut out: Vec<T> = Vec::new();
                let mut n: usize = 0;
                while n < x.len()
                    invariant
                        x.len() == y.len(),
                        forall|a: T, b: T| call_requires(*func, (a, b)),
                        n <= x.len(),
                        out.len() == n,
                        forall|i: int| 0 <= i < n ==> call_ensures(*func, (x[i], y[i]), #[trigger] out[i]),
                    decreases x.len() - n,
                {
                    out.push(func(x[n], y[n]));
                    n = n + 1;
                }
                Ok(Tensor::Element(out))
            },
            Tensor::Array(_) => Err(TensorError::DimensionalityMismatch),
        },
        Tensor::Array(x) => match rtensor {
            Tensor::Element(_) => Err(TensorError::DimensionalityMismatch),
            Tensor::Array(y) => {
                if x.len() != y.len() {
                    return Err(TensorError::LengthMismatch);
                }
                let ghost xs = ltensor@->Array_0;
                let ghost ys = rtensor@->Array_0;
                let mut out: Vec<Tensor<T>> = Vec::new();
                let mut n: usize = 0;
                while n < x.len()
                    invariant
                        *ltensor == Tensor::Array(*x),
                        *rtensor == Tensor::Array(*y),
                        xs == ltensor@->Array_0,
                        ys == rtensor@->Array_0,
                        x.len() == y.len(),
                        forall|a: T, b: T| call_requires(*func, (a, b)),
                        n <= x.len(),
                        out.len() == n,
                        forall|i: int| 0 <= i < n ==> (#[trigger] op_error(xs[i], ys[i])) is None,
                        forall|i: int| 0 <= i < n ==> applied(xs[i], ys[i], (#[trigger] out[i])@, result_of(*func)),
                    decreases x.len() - n,
                {
                    proof {
                        assert(decreases_to!(ltensor@ => xs));
                        assert(decreases_to!(xs => xs[n as int]));
                    }
                    match apply_op(&x[n], &y[n], func) {
                        Ok(t) => out.push(t),
                        Err(e) => {
                            proof {
                                lemma_first_error_prefix(xs, ys, n as int);
                            }
                            return Err(e);
                        },
                    }
                    n = n + 1;
                }
                proof {
                    lemma_first_error_prefix(xs, ys, n as int);
                }
                let r = Tensor::Array(out);
                assert(applied(ltensor@, rtensor@, r@, result_of(*func)));
                Ok(r)
            },
        },
    }
}

/// What `func` may return on `x` and `y`, as a relation of the three.
pub open spec fn result_of<T, F: Fn(T, T) -> T>(func: F) -> spec_fn(T, T, T) -> bool {
    |x: T, y: T, z: T| call_ensures(func, (x, y), z)
}

/// Applies `func` to each pair of values at the same position of two tensors
/// of one structure. It fails with `LengthMismatch` where two vectors differ
/// in length, and with `DimensionalityMismatch` where one tensor holds values
/// and the other children; the first such place in tree order decides.
pub fn tensor_op<T: Copy, F: Fn(T, T) -> T>(ltensor: &Tensor<T>, rtensor: &Tensor<T>, func: F) -> (r:
    Result<Tensor<T>, TensorError>)
    requires
        forall|x: T, y: T| call_requires(func, (x, y)),
    ensures
        r is Ok <==> op_error(ltensor@, rtensor@) is None,
        r is Ok ==> applied(ltensor@, rtensor@, r->Ok_0@, result_of(func)),
        r is Err ==> Some(r->Err_0) == op_error(ltensor@, rtensor@),
{
    apply_op(ltensor, rtensor, &func)
}

/// For two well-formed tensors of one shape, broadcasting both to that shape
/// first changes nothing: `tensor_op` meets the same error, or may give the
/// same results, as on the tensors themselves.
pub proof fn lemma_op_after_broadcast_to_common_shape<T, F: Fn(T, T) -> T>(
    a: Tensor<T>,
    b: Tensor<T>,
    func: F,
)
    requires
        a@.wf(),
        b@.wf(),
        a@.shape() == b@.shape(),
    ensures
        stretchable(a@.shape(), a@.shape()),
        stretchable(b@.shape(), a@.shape()),
        op_error(stretch(a@, a@.shape()), stretch(b@, a@.shape())) == op_error(a@, b@),
        forall|r: TensorModel<T>|
            applied(stretch(a@, a@.shape()), stretch(b@, a@.shape()), r, result_of(func))
                == applied(a@, b@, r, result_of(func)),
{
    lemma_model_bounded(a);
    lemma_model_bounded(b);
    lemma_stretch_own_shape(a@);
    lemma_stretch_own_shape(b@);
}

} // verus!
