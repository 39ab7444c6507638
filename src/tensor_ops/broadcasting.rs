use vstd::prelude::*;
use crate::tensor_objects::{lemma_model_bounded, Tensor, TensorError, TensorModel};
use crate::tensor_ops::utilities::get_dimension;

verus! {

/// The extent of `dims` at position `k` counted from the innermost axis; a
/// position beyond the leading axis reads as 1.
pub open spec fn trailing(dims: Seq<usize>, k: int) -> usize {
    if k < dims.len() {
        dims[dims.len() - 1 - k]
    } else {
        1
    }
}

/// Two extents can meet in one axis when they are equal or one of them is 1.
pub open spec fn compatible(x: usize, y: usize) -> bool {
    x == y || x == 1 || y == 1
}

/// Two shapes are broadcastable when they agree, axis by axis from the
/// innermost, over the length of the shorter one.
pub open spec fn broadcastable(a: Seq<usize>, b: Seq<usize>) -> bool {
    forall|k: int|
        0 <= k < a.len() && k < b.len() ==> compatible(#[trigger] trailing(a, k), trailing(b, k))
}

/// The shape that two broadcastable shapes meet in: as long as the longer
/// one, and at each axis the extent that is not 1, if any.
pub open spec fn broadcast_dims(a: Seq<usize>, b: Seq<usize>) -> Seq<usize> {
    let n = if a.len() >= b.len() {
        a.len()
    } else {
        b.len()
    };
    Seq::new(
        n,
        |i: int|
            if trailing(a, n - 1 - i) == 1 {
                trailing(b, n - 1 - i)
            } else {
                trailing(a, n - 1 - i)
            },
    )
}

/// Broadcastability does not depend on the order of the two shapes.
pub proof fn lemma_broadcastable_symmetric(a: Seq<usize>, b: Seq<usize>)
    ensures
        broadcastable(a, b) == broadcastable(b, a),
{
    if broadcastable(a, b) {
        assert forall|k: int| 0 <= k < b.len() && k < a.len() implies compatible(
            #[trigger] trailing(b, k),
            trailing(a, k),
        ) by {
            assert(compatible(trailing(a, k), trailing(b, k)));
        }
    }
    if broadcastable(b, a) {
        assert forall|k: int| 0 <= k < a.len() && k < b.len() implies compatible(
            #[trigger] trailing(a, k),
            trailing(b, k),
        ) by {
            assert(compatible(trailing(b, k), trailing(a, k)));
        }
    }
}

/// A shape is broadcastable with itself, and broadcasts to itself.
pub proof fn lemma_broadcast_dims_idempotent(a: Seq<usize>)
    ensures
        broadcastable(a, a),
        broadcast_dims(a, a) == a,
{
    assert(broadcast_dims(a, a) =~= a);
}

/// Determines whether two shapes can be broadcast together.
pub fn is_broadcastable(ldims: &Vec<usize>, rdims: &Vec<usize>) -> (r: bool)
    ensures
        r == broadcastable(ldims@, rdims@),
{
    if ldims == rdims {
        return true;
    }
    let shorter: usize = if ldims.len() < rdims.len() {
        ldims.len()
    } else {
        rdims.len()
    };
    let mut num: usize = 0;
    while num < shorter
        invariant
            num <= shorter,
            shorter <= ldims.len(),
            shorter <= rdims.len(),
            shorter == ldims.len() || shorter == rdims.len(),
            forall|k: int|
                0 <= k < num ==> compatible(#[trigger] trailing(ldims@, k), trailing(rdims@, k)),
        decreases shorter - num,
    {
        let l = ldims[ldims.len() - num - 1];
        let r = rdims[rdims.len() - num - 1];
        if l != r && l != 1 && r != 1 {
            assert(!compatible(trailing(ldims@, num as int), trailing(rdims@, num as int)));
            return false;
        }
        num = num + 1;
    }
    true
}

/// Computes the shape that two broadcastable shapes are broadcast to, or
/// `ShapeMismatch` when they are not broadcastable.
pub fn broadcast_shape(ldims: &Vec<usize>, rdims: &Vec<usize>) -> (r: Result<Vec<usize>, TensorError>)
    ensures
        r is Ok <==> broadcastable(ldims@, rdims@),
        r is Ok ==> r->Ok_0@ == broadcast_dims(ldims@, rdims@),
        r is Err ==> r->Err_0 == TensorError::ShapeMismatch,
{
    if !is_broadcastable(ldims, rdims) {
        return Err(TensorError::ShapeMismatch);
    }
    let longer: usize = if ldims.len() >= rdims.len() {
        ldims.len()
    } else {
        rdims.len()
    };
    let ghost target = broadcast_dims(ldims@, rdims@);
    let mut final_dims: Vec<usize> = Vec::new();
    let mut i: usize = 0;
    while i < longer
        invariant
            i <= longer,
            longer == target.len(),
            target == broadcast_dims(ldims@, rdims@),
            final_dims@ == target.take(i as int),
        decreases longer - i,
    {
        let num = longer - 1 - i;
        let l: usize = if num < ldims.len() {
            ldims[ldims.len() - num - 1]
        } else {
            1
        };
        let r: usize = if num < rdims.len() {
            rdims[rdims.len() - num - 1]
        } else {
            1
        };
        final_dims.push(if l == 1 { r } else { l });
        i = i + 1;
        assert(final_dims@ =~= target.take(i as int));
    }
    assert(final_dims@ =~= target);
    Ok(final_dims)
}

/// `m` wrapped in `c` enclosing arrays of one child each.
pub open spec fn expanded<T>(m: TensorModel<T>, c: nat) -> TensorModel<T>
    decreases c,
{
    if c == 0 {
        m
    } else {
        TensorModel::Array(seq![expanded(m, (c - 1) as nat)])
    }
}

/// A source shape stretches to a target shape when both have the same rank
/// and every source extent equals the target extent or is 1.
pub open spec fn stretchable(source: Seq<usize>, target: Seq<usize>) -> bool {
    &&& source.len() == target.len()
    &&& forall|i: int| 0 <= i < source.len() ==> #[trigger] source[i] == target[i] || source[i] == 1
}

/// Which child or value of an axis of extent `extent` fills output position `n`:
/// the only one when the axis has extent 1, else the one at `n`.
pub open spec fn source_index(extent: nat, n: int) -> int {
    if extent == 1 {
        0
    } else {
        n
    }
}

/// `m` with each axis copied out to the extent that `target` gives it.
pub open spec fn stretch<T>(m: TensorModel<T>, target: Seq<usize>) -> TensorModel<T>
    decreases m,
{
    match m {
        TensorModel::Array(cs) => TensorModel::Array(
            Seq::new(
                target[0] as nat,
                |n: int|
                    if 0 <= source_index(cs.len(), n) < cs.len() {
                        stretch(cs[source_index(cs.len(), n)], target.drop_first())
                    } else {
                        arbitrary()
                    },
            ),
        ),
        TensorModel::Element(xs) => TensorModel::Element(
            Seq::new(target[0] as nat, |n: int| xs[source_index(xs.len(), n)]),
        ),
    }
}

/// `m` with its `c` outermost levels of nesting taken off, following the first child.
pub open spec fn collapsed<T>(m: TensorModel<T>, c: nat) -> TensorModel<T>
    decreases c,
{
    if c == 0 {
        m
    } else {
        match m {
            TensorModel::Array(cs) => if cs.len() > 0 {
                collapsed(cs[0], (c - 1) as nat)
            } else {
                m
            },
            TensorModel::Element(_) => m,
        }
    }
}

/// Broadcasting a well-formed tensor to its own shape gives it back unchanged.
pub proof fn lemma_stretch_own_shape<T>(m: TensorModel<T>)
    requires
        m.wf(),
        m.bounded(),
    ensures
        stretchable(m.shape(), m.shape()),
        stretch(m, m.shape()) == m,
    decreases m,
{
    match m {
        TensorModel::Array(cs) => {
            let g = m.shape();
            if cs.len() > 0 {
                assert(g.drop_first() =~= cs[0].shape());
                assert forall|i: int| 0 <= i < cs.len() implies stretch(
                    #[trigger] cs[i],
                    g.drop_first(),
                ) == cs[i] by {
                    assert(cs[i].wf() && cs[i].bounded());
                    lemma_stretch_own_shape(cs[i]);
                }
            }
            assert(stretch(m, g)->Array_0 =~= cs);
        },
        TensorModel::Element(xs) => {
            assert(stretch(m, m.shape())->Element_0 =~= xs);
        },
    }
}

/// Broadcasting a well-formed tensor to a target it stretches to gives a
/// well-formed tensor of the target's shape, provided no axis but the
/// innermost has extent 0 (an empty array hides the axes below it).
pub proof fn lemma_stretch_shape<T>(m: TensorModel<T>, target: Seq<usize>)
    requires
        m.wf(),
        m.bounded(),
        stretchable(m.shape(), target),
        forall|i: int| 0 <= i < target.len() - 1 ==> #[trigger] target[i] > 0,
    ensures
        stretch(m, target).wf(),
        stretch(m, target).shape() == target,
    decreases m,
{
    let r = stretch(m, target);
    match m {
        TensorModel::Array(cs) => {
            let rs = r->Array_0;
            let next = target.drop_first();
            assert(m.shape()[0] == target[0] || m.shape()[0] == 1);
            if cs.len() > 0 {
                assert(m.shape() == seq![cs.len() as usize] + cs[0].shape());
                assert forall|i: int| 0 <= i < cs[0].shape().len() implies #[trigger] cs[0].shape()[i]
                    == next[i] || cs[0].shape()[i] == 1 by {
                    assert(m.shape()[i + 1] == cs[0].shape()[i]);
                }
                assert forall|n: int| 0 <= n < rs.len() implies (#[trigger] rs[n]).wf() && rs[n].shape()
                    == next by {
                    let k = source_index(cs.len(), n);
                    assert(cs[k].wf() && cs[k].bounded() && cs[k].shape() == cs[0].shape());
                    lemma_stretch_shape(cs[k], next);
                }
                assert(target[0] > 0);
                assert(r.shape() =~= target);
            } else {
                assert(r.shape() =~= target);
            }
        },
        TensorModel::Element(xs) => {
            assert(r.shape() =~= target);
        },
    }
}

/// Creates a tensor one axis larger, holding `copy_value` copies of `tensor`.
pub fn expand_tensor<T: Copy>(tensor: &Tensor<T>, copy_value: u32) -> (r: Tensor<T>)
    ensures
        r@ == TensorModel::Array(Seq::new(copy_value as nat, |_i: int| tensor@)),
{
    let mut copies: Vec<Tensor<T>> = Vec::new();
    let mut i: u32 = 0;
    while i < copy_value
        invariant
            i <= copy_value,
            copies.len() == i,
            forall|j: int| 0 <= j < i ==> (#[trigger] copies[j])@ == tensor@,
        decreases copy_value - i,
    {
        copies.push(tensor.deep_copy());
        i = i + 1;
    }
    let r = Tensor::Array(copies);
    assert(r@->Array_0 =~= Seq::new(copy_value as nat, |_i: int| tensor@));
    r
}

/// Adds `num_expansions` leading axes of extent 1, by wrapping the tensor in
/// that many single-child arrays. The values are not touched.
pub fn expand_dims<T>(tensor: Tensor<T>, num_expansions: usize) -> (r: Tensor<T>)
    ensures
        r@ == expanded(tensor@, num_expansions as nat),
{
    let ghost given = tensor@;
    let mut tensor = tensor;
    let mut i: usize = 0;
    while i < num_expansions
        invariant
            i <= num_expansions,
            tensor@ == expanded(given, i as nat),
        decreases num_expansions - i,
    {
        let ghost inner = tensor@;
        tensor = Tensor::Array(vec![tensor]);
        i = i + 1;
        assert(tensor@->Array_0 =~= seq![inner]);
    }
    tensor
}

/// Expanding a well-formed tensor keeps it well-formed and puts `c` axes of
/// extent 1 in front of its shape; broadcasting the result to its own shape
/// changes nothing, and taking the `c` new levels off gives the tensor back.
pub proof fn lemma_expand_dims_shape<T>(t: Tensor<T>, c: nat)
    requires
        t@.wf(),
    ensures
        expanded(t@, c).wf(),
        expanded(t@, c).shape() == Seq::new(c, |_i: int| 1usize) + t@.shape(),
        stretch(expanded(t@, c), expanded(t@, c).shape()) == expanded(t@, c),
        collapsed(expanded(t@, c), c) == t@,
{
    lemma_model_bounded(t);
    lemma_expanded_model(t@, c);
    lemma_stretch_own_shape(expanded(t@, c));
}

proof fn lemma_expanded_model<T>(m: TensorModel<T>, c: nat)
    requires
        m.wf(),
        m.bounded(),
    ensures
        expanded(m, c).wf(),
        expanded(m, c).bounded(),
        expanded(m, c).shape() == Seq::new(c, |_i: int| 1usize) + m.shape(),
        collapsed(expanded(m, c), c) == m,
    decreases c,
{
    if c > 0 {
        let c1 = (c - 1) as nat;
        lemma_expanded_model(m, c1);
        let e = expanded(m, c);
        assert(e->Array_0[0] == expanded(m, c1));
        assert(e.shape() =~= Seq::new(c, |_i: int| 1usize) + m.shape());
    }
}

/// Builds `stretch(tensor@, target[level..])`, for a tensor known to fit.
fn stretch_to<T: Copy>(tensor: &Tensor<T>, target: &Vec<usize>, level: usize) -> (r: Tensor<T>)
    requires
        level < target.len(),
        tensor@.wf(),
        stretchable(tensor@.shape(), target@.subrange(level as int, target.len() as int)),
    ensures
        r@ == stretch(tensor@, target@.subrange(level as int, target.len() as int)),
    decreases tensor@,
{
    let ghost tail = target@.subrange(level as int, target.len() as int);
    let extent = target[level];
    assert(tail[0] == extent);
    match tensor {
        Tensor::Array(v) => {
            let ghost cs = tensor@->Array_0;
            let ghost next = target@.subrange(level + 1, target.len() as int);
            assert(tail.drop_first() =~= next);
            assert(tensor@.shape()[0] == v.len());
            assert(tensor@.shape()[0] == tail[0] || tensor@.shape()[0] == 1);
            if v.len() > 0 {
                assert(tensor@.shape() == seq![v.len()] + cs[0].shape());
                assert(cs[0].shape().len() + 1 == tail.len());
                assert(level + 1 < target.len());
                assert forall|i: int| 0 <= i < cs[0].shape().len() implies
                    #[trigger] cs[0].shape()[i] == next[i] || cs[0].shape()[i] == 1 by {
                    assert(tensor@.shape()[i + 1] == cs[0].shape()[i]);
                    assert(tail[i + 1] == next[i]);
                }
            }
            let mut out: Vec<Tensor<T>> = Vec::new();
            let mut n: usize = 0;
            while n < extent
                invariant
                    *tensor == Tensor::Array(*v),
                    cs == tensor@->Array_0,
                    tensor@.wf(),
                    tail.len() > 0,
                    extent == tail[0],
                    v.len() == 1 || v.len() == extent,
                    v.len() > 0 ==> level + 1 < target.len() && stretchable(cs[0].shape(), next),
                    next == target@.subrange(level + 1, target.len() as int),
                    n <= extent,
                    out.len() == n,
                    forall|j: int|
                        0 <= j < n ==> (#[trigger] out[j])@ == stretch(
                            cs[source_index(cs.len(), j)],
                            next,
                        ),
                decreases extent - n,
            {
                let idx: usize = if v.len() == 1 {
                    0
                } else {
                    n
                };
                proof {
                    assert(decreases_to!(tensor@ => cs));
                    assert(decreases_to!(cs => cs[idx as int]));
                    assert(cs[idx as int].wf());
                    assert(cs[idx as int].shape() == cs[0].shape());
                }
                out.push(stretch_to(&v[idx], target, level + 1));
                n = n + 1;
            }
            let r = Tensor::Array(out);
            assert(r@->Array_0 =~= stretch(tensor@, tail)->Array_0);
            r
        },
        Tensor::Element(v) => {
            assert(tensor@.shape() == seq![v.len()]);
            assert(tensor@.shape()[0] == tail[0] || tensor@.shape()[0] == 1);
            let mut out: Vec<T> = Vec::new();
            let mut n: usize = 0;
            while n < extent
                invariant
                    *tensor == Tensor::Element(*v),
                    tail.len() > 0,
                    extent == tail[0],
                    v.len() == 1 || v.len() == extent,
                    n <= extent,
                    out@ == Seq::new(n as nat, |j: int| v@[source_index(v.len() as nat, j)]),
                decreases extent - n,
            {
                let idx: usize = if v.len() == 1 {
                    0
                } else {
                    n
                };
                out.push(v[idx]);
                n = n + 1;
                assert(out@ =~= Seq::new(n as nat, |j: int| v@[source_index(v.len() as nat, j)]));
            }
            let r = Tensor::Element(out);
            assert(r@->Element_0 =~= stretch(tensor@, tail)->Element_0);
            r
        },
    }
}

/// Checks that every extent of `source` equals that of `target` or is 1.
fn stretches_to(source: &Vec<usize>, target: &Vec<usize>) -> (r: bool)
    ensures
        r == stretchable(source@, target@),
{
    if source.len() != target.len() {
        return false;
    }
    let mut i: usize = 0;
    while i < source.len()
        invariant
            source.len() == target.len(),
            i <= source.len(),
            forall|j: int| 0 <= j < i ==> #[trigger] source@[j] == target@[j] || source@[j] == 1,
        decreases source.len() - i,
    {
        if source[i] != target[i] && source[i] != 1 {
            return false;
        }
        i = i + 1;
    }
    true
}

/// Broadcasts a tensor to a target shape of the same rank by copying out
/// each axis of extent 1. It fails with `ShapeMismatch` when the tensor is
/// malformed, its rank differs from the target's, or one of its extents is
/// neither 1 nor the target's.
pub fn broadcast_tensor<T: Copy>(tensor: &Tensor<T>, target_shape: &Vec<usize>) -> (r: Result<Tensor<T>, TensorError>)
    ensures
        r is Ok <==> tensor@.wf() && stretchable(tensor@.shape(), target_shape@),
        r is Ok ==> r->Ok_0@ == stretch(tensor@, target_shape@),
        r is Ok && (forall|i: int| 0 <= i < target_shape.len() - 1 ==> #[trigger] target_shape@[i] > 0)
            ==> r->Ok_0@.wf() && r->Ok_0@.shape() == target_shape@,
        r is Err ==> r->Err_0 == TensorError::ShapeMismatch,
{
    let tensor_shape = match get_dimension(tensor) {
        Ok(s) => s,
        Err(e) => return Err(e),
    };
    if !stretches_to(&tensor_shape, target_shape) {
        return Err(TensorError::ShapeMismatch);
    }
    assert(target_shape@.subrange(0, target_shape.len() as int) =~= target_shape@);
    proof {
        lemma_model_bounded(*tensor);
        if forall|i: int| 0 <= i < target_shape.len() - 1 ==> #[trigger] target_shape@[i] > 0 {
            lemma_stretch_shape(tensor@, target_shape@);
        }
    }
    Ok(stretch_to(tensor, target_shape, 0))
}

} // verus!
