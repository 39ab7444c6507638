use tensorium::tensor_ops::{
    broadcast_shape, broadcast_tensor, expand_dims, expand_tensor, get_dimension,
    is_broadcastable,
};
use tensorium::{Tensor, TensorError};

#[test]
fn basic_broadcasting() {
    let a = Tensor::Array(Vec::from([Tensor::Array(Vec::from([
        Tensor::Element(Vec::from([1.0, 2.0, 3.0])),
        Tensor::Element(Vec::from([4.0, 5.0, 6.0])),
        Tensor::Element(Vec::from([7.0, 8.0, 9.0])),
    ]))]));

    let target_shape: Vec<usize> = Vec::from([2, 3, 3]);

    let broadcasted_tensor = broadcast_tensor(&a, &target_shape);
    let truth_tensor = Tensor::Array(Vec::from([
        Tensor::Array(Vec::from([
            Tensor::Element(Vec::from([1.0, 2.0, 3.0])),
            Tensor::Element(Vec::from([4.0, 5.0, 6.0])),
            Tensor::Element(Vec::from([7.0, 8.0, 9.0])),
        ])),
        Tensor::Array(Vec::from([
            Tensor::Element(Vec::from([1.0, 2.0, 3.0])),
            Tensor::Element(Vec::from([4.0, 5.0, 6.0])),
            Tensor::Element(Vec::from([7.0, 8.0, 9.0])),
        ])),
    ]));

    assert_eq!(broadcasted_tensor, Ok(truth_tensor));
}

#[test]
fn expanding_dims() {
    let a = Tensor::Element(Vec::from([1.0, 2.0, 3.0]));
    let target_dims: Vec<usize> = Vec::from([1, 1, 3]);

    let expanded_a = get_dimension(&expand_dims(a, 2));

    assert_eq!(expanded_a, Ok(target_dims));
}

#[test]
fn singular_broadcasting() {
    let a = Tensor::Element(Vec::from([1.0]));
    let target_dims = Vec::from([3, 3, 3]);

    let num_expansions = target_dims.len() - get_dimension(&a).unwrap().len();
    let aa = expand_dims(a, num_expansions);

    let target_broadcast = Tensor::Array(Vec::from([
        Tensor::Array(Vec::from([
            Tensor::Element(Vec::from([1.0, 1.0, 1.0])),
            Tensor::Element(Vec::from([1.0, 1.0, 1.0])),
            Tensor::Element(Vec::from([1.0, 1.0, 1.0])),
        ])),
        Tensor::Array(Vec::from([
            Tensor::Element(Vec::from([1.0, 1.0, 1.0])),
            Tensor::Element(Vec::from([1.0, 1.0, 1.0])),
            Tensor::Element(Vec::from([1.0, 1.0, 1.0])),
        ])),
        Tensor::Array(Vec::from([
            Tensor::Element(Vec::from([1.0, 1.0, 1.0])),
            Tensor::Element(Vec::from([1.0, 1.0, 1.0])),
            Tensor::Element(Vec::from([1.0, 1.0, 1.0])),
        ])),
    ]));

    let broadcasted_aa = broadcast_tensor(&aa, &target_dims);

    assert_eq!(broadcasted_aa, Ok(target_broadcast));
}

#[test]
fn broadcastable_doc_examples() {
    assert!(is_broadcastable(&vec![2, 3], &vec![4, 1, 3]));
    assert!(!is_broadcastable(&vec![2, 3], &vec![1, 3, 3]));
}

#[test]
fn broadcastable_is_symmetric() {
    let pairs: Vec<(Vec<usize>, Vec<usize>)> = vec![
        (vec![2, 3], vec![4, 1, 3]),
        (vec![2, 3], vec![1, 3, 3]),
        (vec![5], vec![]),
        (vec![3, 1], vec![1, 4]),
        (vec![2, 2], vec![3, 2]),
    ];
    for (a, b) in pairs.iter() {
        assert_eq!(is_broadcastable(a, b), is_broadcastable(b, a));
    }
}

#[test]
fn broadcast_shape_of_itself() {
    let a: Vec<usize> = vec![4, 1, 5];
    assert_eq!(broadcast_shape(&a, &a), Ok(a.clone()));
    let ones: Vec<usize> = vec![1, 1];
    assert_eq!(broadcast_shape(&ones, &ones), Ok(vec![1, 1]));
}

#[test]
fn broadcast_shape_doc_example() {
    assert_eq!(broadcast_shape(&vec![3, 2], &vec![4, 1, 2]), Ok(vec![4, 3, 2]));
}

#[test]
fn broadcast_shape_pads_shorter_shape() {
    assert_eq!(broadcast_shape(&vec![5], &vec![2, 3, 1]), Ok(vec![2, 3, 5]));
    assert_eq!(broadcast_shape(&vec![], &vec![2, 3]), Ok(vec![2, 3]));
}

#[test]
fn broadcast_shape_rejects_incompatible() {
    assert_eq!(
        broadcast_shape(&vec![3, 5], &vec![3, 2, 1]),
        Err(TensorError::ShapeMismatch)
    );
    assert_eq!(
        broadcast_shape(&vec![2, 3], &vec![1, 3, 3]),
        Err(TensorError::ShapeMismatch)
    );
}

#[test]
fn expand_dims_doc_example() {
    let t = Tensor::Element(vec![2.0, 5.0]);
    assert_eq!(get_dimension(&expand_dims(t, 2)), Ok(vec![1, 1, 2]));
}

#[test]
fn expand_dims_zero_is_no_op() {
    let t = Tensor::Array(vec![Tensor::Element(vec![1.0, 2.0])]);
    assert_eq!(expand_dims(t.clone(), 0), t);
}

#[test]
fn expand_dims_then_broadcast_to_own_shape() {
    let t = Tensor::Array(vec![
        Tensor::Element(vec![1.0, 2.0]),
        Tensor::Element(vec![3.0, 4.0]),
    ]);
    let e = expand_dims(t.clone(), 2);
    let shape = get_dimension(&e).unwrap();
    assert_eq!(shape, vec![1, 1, 2, 2]);
    assert_eq!(broadcast_tensor(&e, &shape), Ok(e.clone()));
    assert_eq!(e, Tensor::Array(vec![Tensor::Array(vec![t])]));
}

#[test]
fn broadcast_row_to_four_rows() {
    let t = Tensor::Array(Vec::from([Tensor::Element(vec![1.0, 2.0])]));
    let target_shape: Vec<usize> = vec![4, 2];
    let target_tensor = Tensor::Array(Vec::from([
        Tensor::Element(vec![1.0, 2.0]),
        Tensor::Element(vec![1.0, 2.0]),
        Tensor::Element(vec![1.0, 2.0]),
        Tensor::Element(vec![1.0, 2.0]),
    ]));
    assert_eq!(broadcast_tensor(&t, &target_shape), Ok(target_tensor));
}

#[test]
fn broadcast_rank_mismatch_fails() {
    let t = Tensor::Element(vec![1.0, 2.0]);
    let target_shape: Vec<usize> = vec![1, 1, 2];
    assert_eq!(
        broadcast_tensor(&t, &target_shape),
        Err(TensorError::ShapeMismatch)
    );
}

#[test]
fn broadcast_incompatible_extent_fails() {
    let t = Tensor::Array(Vec::from([Tensor::Element(vec![1.0, 2.0])]));
    let target_shape: Vec<usize> = vec![1, 3];
    assert_eq!(
        broadcast_tensor(&t, &target_shape),
        Err(TensorError::ShapeMismatch)
    );
}

#[test]
fn broadcast_does_not_shrink_an_axis() {
    let t = Tensor::Element(vec![1.0, 2.0, 3.0]);
    assert_eq!(broadcast_tensor(&t, &vec![1]), Err(TensorError::ShapeMismatch));
}

#[test]
fn broadcast_malformed_tensor_fails() {
    let t = Tensor::Array(vec![
        Tensor::Element(vec![1.0, 2.0]),
        Tensor::Element(vec![3.0]),
    ]);
    assert_eq!(broadcast_tensor(&t, &vec![2, 2]), Err(TensorError::ShapeMismatch));
}

#[test]
fn broadcast_empty_array() {
    let t: Tensor<f64> = Tensor::Array(vec![]);
    assert_eq!(broadcast_tensor(&t, &vec![0]), Ok(Tensor::Array(vec![])));
    assert_eq!(broadcast_tensor(&t, &vec![1]), Err(TensorError::ShapeMismatch));
}

#[test]
fn broadcast_column_and_row() {
    let t1 = Tensor::Element(vec![1.0, 2.0, 3.0]);
    let t2 = Tensor::Array(vec![
        Tensor::Element(vec![1.0]),
        Tensor::Element(vec![2.0]),
        Tensor::Element(vec![3.0]),
    ]);
    let s1 = get_dimension(&t1).unwrap();
    let s2 = get_dimension(&t2).unwrap();
    let shape = broadcast_shape(&s1, &s2).unwrap();
    assert_eq!(shape, vec![3, 3]);
    let t1 = expand_dims(t1, shape.len() - s1.len());
    let t2 = expand_dims(t2, shape.len() - s2.len());
    let b1 = broadcast_tensor(&t1, &shape).unwrap();
    let b2 = broadcast_tensor(&t2, &shape).unwrap();
    assert_eq!(
        b1,
        Tensor::Array(vec![
            Tensor::Element(vec![1.0, 2.0, 3.0]),
            Tensor::Element(vec![1.0, 2.0, 3.0]),
            Tensor::Element(vec![1.0, 2.0, 3.0]),
        ])
    );
    assert_eq!(
        b2,
        Tensor::Array(vec![
            Tensor::Element(vec![1.0, 1.0, 1.0]),
            Tensor::Element(vec![2.0, 2.0, 2.0]),
            Tensor::Element(vec![3.0, 3.0, 3.0]),
        ])
    );
}

#[test]
fn expand_tensor_copies() {
    let t1 = Tensor::Element(vec![1.0, 2.0]);
    assert_eq!(
        expand_tensor(&t1, 3),
        Tensor::Array(Vec::from([
            Tensor::Element(vec![1.0, 2.0]),
            Tensor::Element(vec![1.0, 2.0]),
            Tensor::Element(vec![1.0, 2.0]),
        ]))
    );
    assert_eq!(expand_tensor(&t1, 0), Tensor::Array(vec![]));
}
