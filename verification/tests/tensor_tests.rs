use tensor_env::tensor::generate;
use tensor_env::tensor::shape_element_count;
use tensor_env::tensor::DenseArray;
use tensor_env::tensor::FillStrategy;
use tensor_env::tensor::FIXED_ONE;

fn as_fractions(a: &DenseArray) -> Vec<f64> {
    a.elems
        .iter()
        .map(|e| (*e as f64) / (FIXED_ONE as f64))
        .collect()
}

#[test]
fn counts_elements_of_shapes() {
    assert_eq!(shape_element_count(&vec![]), Some(1));
    assert_eq!(shape_element_count(&vec![2, 3]), Some(6));
    assert_eq!(shape_element_count(&vec![1, 3, 32, 32]), Some(3072));
    assert_eq!(shape_element_count(&vec![5, 0, 9]), Some(0));
}

#[test]
fn reports_element_count_overflow() {
    assert_eq!(shape_element_count(&vec![usize::MAX, 2]), None);
    assert_eq!(shape_element_count(&vec![usize::MAX, usize::MAX, 0]), Some(0));
}

#[test]
fn zeros_fill_shape_2_3() {
    let a = generate(&vec![2, 3], FillStrategy::Zeros);
    assert_eq!(a.dims, vec![2, 3]);
    assert_eq!(a.elems.len(), 6);
    for v in as_fractions(&a) {
        assert_eq!(v, 0.0);
    }
}

#[test]
fn ones_fill_shape_2_3() {
    let a = generate(&vec![2, 3], FillStrategy::Ones);
    assert_eq!(a.dims, vec![2, 3]);
    assert_eq!(a.elems.len(), 6);
    for v in as_fractions(&a) {
        assert_eq!(v, 1.0);
    }
}

#[test]
fn scalar_shape_has_one_element() {
    let a = generate(&vec![], FillStrategy::Zeros);
    assert_eq!(a.elems.len(), 1);
    let b = generate(&vec![], FillStrategy::Random);
    assert_eq!(b.elems.len(), 1);
}

#[test]
fn zero_dimension_gives_empty_array() {
    let a = generate(&vec![3, 0], FillStrategy::Ones);
    assert_eq!(a.dims, vec![3, 0]);
    assert_eq!(a.elems.len(), 0);
}

#[test]
fn random_fill_stays_in_band() {
    let a = generate(&vec![10, 10], FillStrategy::Random);
    assert_eq!(a.elems.len(), 100);
    for v in as_fractions(&a) {
        assert!(-2.0 <= v && v < 2.0, "element {v} out of range");
    }
}

#[test]
fn random_fill_is_not_constant_on_large_arrays() {
    // Repeated draws are not required to be equal; on 1000 elements a
    // constant outcome would mean the sampler ignores its source.
    let a = generate(&vec![1000], FillStrategy::Random);
    let first = a.elems[0];
    assert!(a.elems.iter().any(|e| *e != first));
}

#[test]
fn duplicate_copies_shape_and_elements() {
    let a = generate(&vec![2, 2], FillStrategy::Random);
    let b = a.duplicate();
    assert_eq!(a.dims, b.dims);
    assert_eq!(a.elems, b.elems);
}
