use vstd::prelude::*;

verus! {

/// A multidimensional array stored as a tree: an `Array` holds one child per
/// index of its outermost axis, an `Element` holds the values of the innermost axis.
#[derive(Debug, PartialEq)]
pub enum Tensor<T> {
    Array(Vec<Tensor<T>>),
    Element(Vec<T>),
}

/// What indexing one position off the outermost axis yields.
#[derive(Debug, PartialEq)]
pub enum TensorIndexResult<T> {
    Tensor(Tensor<T>),
    Value(T),
}

/// The structural errors that the tensor operations report.
#[derive(Debug, Clone, Copy, PartialEq, Eq, Structural)]
pub enum TensorError {
    /// Sibling subtrees disagree in shape, or two shapes cannot be broadcast together.
    ShapeMismatch,
    /// Two tensors combined element-wise differ in a child or element count.
    LengthMismatch,
    /// One tensor holds values where the other holds children.
    DimensionalityMismatch,
}

/// The mathematical value of a tensor: the same tree, with sequences for vectors.
pub enum TensorModel<T> {
    Array(Seq<TensorModel<T>>),
    Element(Seq<T>),
}

/// The model of a tensor, built child by child.
pub open spec fn model_of<T>(t: Tensor<T>) -> TensorModel<T>
    decreases t,
{
    match t {
        Tensor::Array(v) => TensorModel::Array(
            Seq::new(
                v.len() as nat,
                |i: int|
                    if 0 <= i < v.len() {
                        model_of(v[i])
                    } else {
                        arbitrary()
                    },
            ),
        ),
        Tensor::Element(v) => TensorModel::Element(v@),
    }
}

impl<T> View for Tensor<T> {
    type V = TensorModel<T>;

    open spec fn view(&self) -> TensorModel<T> {
        model_of(*self)
    }
}

impl<T> TensorModel<T> {
    /// The extent of the outermost axis.
    pub open spec fn extent(self) -> nat {
        match self {
            TensorModel::Array(cs) => cs.len(),
            TensorModel::Element(xs) => xs.len(),
        }
    }

    /// The axis extents, outermost first. An empty `Array` has no child to
    /// tell the inner axes, so its shape is the single extent 0.
    pub open spec fn shape(self) -> Seq<usize>
        decreases self,
    {
        match self {
            TensorModel::Array(cs) => if cs.len() == 0 {
                seq![0usize]
            } else {
                seq![cs.len() as usize] + cs[0].shape()
            },
            TensorModel::Element(xs) => seq![xs.len() as usize],
        }
    }

    /// The nesting depth: one for an `Element`, one more than the first child for an `Array`.
    pub open spec fn depth(self) -> nat
        decreases self,
    {
        match self {
            TensorModel::Array(cs) => if cs.len() == 0 {
                1
            } else {
                1 + cs[0].depth()
            },
            TensorModel::Element(_) => 1,
        }
    }

    /// Every extent in the tree is one that a `usize` holds, as in the model of any tensor.
    pub open spec fn bounded(self) -> bool
        decreases self,
    {
        match self {
            TensorModel::Array(cs) => cs.len() <= usize::MAX && forall|i: int|
                0 <= i < cs.len() ==> (#[trigger] cs[i]).bounded(),
            TensorModel::Element(xs) => xs.len() <= usize::MAX,
        }
    }

    /// Well-formed: within every `Array`, all children are well-formed and share one shape.
    pub open spec fn wf(self) -> bool
        decreases self,
    {
        match self {
            TensorModel::Array(cs) => forall|i: int|
                0 <= i < cs.len() ==> (#[trigger] cs[i]).wf() && cs[i].shape() == cs[0].shape(),
            TensorModel::Element(_) => true,
        }
    }
}

impl<T: Copy> Tensor<T> {
    /// A deep copy: the same tree with the same values.
    pub fn deep_copy(&self) -> (r: Self)
        ensures
            r@ == self@,
        decreases self@,
    {
        match self {
            Tensor::Array(v) => {
                let mut out: Vec<Tensor<T>> = Vec::new();
                let mut i: usize = 0;
                while i < v.len()
                    invariant
                        *self == Tensor::Array(*v),
                        i <= v.len(),
                        out.len() == i,
                        forall|j: int| 0 <= j < i ==> (#[trigger] out[j])@ == v[j]@,
                    decreases v.len() - i,
                {
                    proof {
                        let s = self@->Array_0;
                        assert(s[i as int] == v[i as int]@);
                        assert(decreases_to!(self@ => s));
                        assert(decreases_to!(s => s[i as int]));
                    }
                    out.push(v[i].deep_copy());
                    i = i + 1;
                }
                let r = Tensor::Array(out);
                assert forall|j: int| 0 <= j < out.len() implies r@->Array_0[j] == self@->Array_0[j] by {
                    assert(out[j]@ == v[j]@);
                }
                assert(r@->Array_0 =~= self@->Array_0);
                r
            },
            Tensor::Element(v) => {
                let mut out: Vec<T> = Vec::new();
                let mut i: usize = 0;
                while i < v.len()
                    invariant
                        i <= v.len(),
                        out@ == v@.take(i as int),
                    decreases v.len() - i,
                {
                    out.push(v[i]);
                    i = i + 1;
                    assert(out@ =~= v@.take(i as int));
                }
                assert(out@ =~= v@);
                Tensor::Element(out)
            },
        }
    }
}

/// The model of a tensor never holds more children or values than a `Vec` can.
pub proof fn lemma_model_bounded<T>(t: Tensor<T>)
    ensures
        t@.bounded(),
    decreases t@,
{
    match t {
        Tensor::Element(v) => {
            assert(v@.len() == v.len());
        },
        Tensor::Array(v) => {
            let cs = t@->Array_0;
            assert(cs.len() == v.len());
            assert forall|i: int| 0 <= i < cs.len() implies (#[trigger] cs[i]).bounded() by {
                assert(decreases_to!(t@ => cs));
                assert(decreases_to!(cs => cs[i]));
                lemma_model_bounded(v[i]);
            }
        },
    }
}

/// `r` is what indexing position `i` off the outermost axis of `m` gives:
/// the child or value there, or nothing past the end.
pub open spec fn index_matches<T>(m: TensorModel<T>, i: int, r: Option<TensorIndexResult<T>>) -> bool {
    match m {
        TensorModel::Array(cs) => match r {
            None => i >= cs.len(),
            Some(TensorIndexResult::Tensor(c)) => i < cs.len() && c@ == cs[i],
            Some(TensorIndexResult::Value(_)) => false,
        },
        TensorModel::Element(xs) => match r {
            None => i >= xs.len(),
            Some(TensorIndexResult::Value(x)) => i < xs.len() && x == xs[i],
            Some(TensorIndexResult::Tensor(_)) => false,
        },
    }
}

/// `m` cut down to positions `start` up to `end` of its outermost axis.
pub open spec fn sliced<T>(m: TensorModel<T>, start: int, end: int) -> TensorModel<T> {
    match m {
        TensorModel::Array(cs) => TensorModel::Array(cs.subrange(start, end)),
        TensorModel::Element(xs) => TensorModel::Element(xs.subrange(start, end)),
    }
}

impl<T: Copy> Tensor<T> {
    /// The child or value at position `i` of the outermost axis, or `None`
    /// when `i` is out of range.
    pub fn index(&self, i: usize) -> (r: Option<TensorIndexResult<T>>)
        ensures
            index_matches(self@, i as int, r),
    {
        match self {
            Tensor::Array(v) => {
                if i < v.len() {
                    Some(TensorIndexResult::Tensor(v[i].deep_copy()))
                } else {
                    None
                }
            },
            Tensor::Element(v) => {
                if i < v.len() {
                    Some(TensorIndexResult::Value(v[i]))
                } else {
                    None
                }
            },
        }
    }

    /// The positions `range.start` up to `range.end` of the outermost axis, as a new tensor.
    pub fn slice(&self, range: std::ops::Range<usize>) -> (r: Tensor<T>)
        requires
            range.start <= range.end <= self@.extent(),
        ensures
            r@ == sliced(self@, range.start as int, range.end as int),
    {
        match self {
            Tensor::Array(v) => {
                let mut out: Vec<Tensor<T>> = Vec::new();
                let mut i: usize = range.start;
                while i < range.end
                    invariant
                        range.start <= i <= range.end <= v.len(),
                        out.len() == i - range.start,
                        forall|j: int|
                            0 <= j < out.len() ==> (#[trigger] out[j])@ == v[range.start + j]@,
                    decreases range.end - i,
                {
                    out.push(v[i].deep_copy());
                    i = i + 1;
                }
                let r = Tensor::Array(out);
                assert(r@->Array_0 =~= self@->Array_0.subrange(range.start as int, range.end as int));
                r
            },
            Tensor::Element(v) => {
                let mut out: Vec<T> = Vec::new();
                let mut i: usize = range.start;
                while i < range.end
                    invariant
                        range.start <= i <= range.end <= v.len(),
                        out@ == v@.subrange(range.start as int, i as int),
                    decreases range.end - i,
                {
                    out.push(v[i]);
                    i = i + 1;
                    assert(out@ =~= v@.subrange(range.start as int, i as int));
                }
                Tensor::Element(out)
            },
        }
    }
}

impl<T: Copy> Clone for Tensor<T> {
    fn clone(&self) -> (r: Self)
        ensures
            r@ == self@,
    {
        self.deep_copy()
    }
}

} // verus!
