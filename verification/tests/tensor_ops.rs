use lm_tensor::error::TensorError;
use lm_tensor::permutation::inverse_permutation;
use lm_tensor::tensor::Tensor;

fn sample() -> Tensor<i32> {
    Tensor::new(vec![1, 2, 3, 4, 5, 6], &vec![2, 3]).unwrap()
}

fn counting(shape: &Vec<usize>) -> Tensor<u32> {
    let size: usize = shape.iter().product();
    Tensor::new((0..size as u32).collect(), shape).unwrap()
}

#[test]
fn new_keeps_data_and_shape() {
    let t = sample();
    assert_eq!(t.size(), 6);
    assert_eq!(t.shape(), &vec![2, 3]);
    assert_eq!(t.data(), &[1, 2, 3, 4, 5, 6]);
}

#[test]
fn new_refuses_a_shape_of_another_size() {
    assert_eq!(
        Tensor::new(vec![1, 2, 3, 4, 5, 6], &vec![4]).err(),
        Some(TensorError::ShapeMismatch)
    );
    assert_eq!(
        Tensor::new(vec![1, 2, 3], &vec![]).err(),
        Some(TensorError::ShapeMismatch)
    );
}

#[test]
fn new_accepts_the_empty_shape_for_one_element() {
    let t = Tensor::new(vec![7u8], &vec![]).unwrap();
    assert_eq!(t.size(), 1);
    assert_eq!(t.data(), &[7]);
}

#[test]
fn new_accepts_a_zero_dimension_for_no_elements() {
    let t = Tensor::new(Vec::<u8>::new(), &vec![3, 0, 2]).unwrap();
    assert_eq!(t.size(), 0);
    assert_eq!(t.shape(), &vec![3, 0, 2]);
    assert!(t.data().is_empty());
}

#[test]
fn new_refuses_a_shape_whose_size_overflows() {
    let huge = vec![usize::MAX, 2];
    assert_eq!(
        Tensor::new(vec![0u8; 4], &huge).err(),
        Some(TensorError::ShapeMismatch)
    );
}

#[test]
fn default_is_zero_filled() {
    let t: Tensor<u32> = Tensor::default(&vec![2, 2, 3]);
    assert_eq!(t.size(), 12);
    assert_eq!(t.shape(), &vec![2, 2, 3]);
    assert_eq!(t.data(), &[0u32; 12]);
}

#[test]
fn clone_shares_the_buffer() {
    let t = sample();
    let twin = t.clone();
    assert_eq!(twin.data(), t.data());
    assert_eq!(twin.shape(), t.shape());
    assert_eq!(twin.size(), t.size());
    assert!(std::ptr::eq(twin.data().as_ptr(), t.data().as_ptr()));
}

#[test]
fn reshape_keeps_the_flat_order() {
    let mut t = sample();
    let before = t.data().as_ptr();
    assert_eq!(t.reshape(&vec![3, 2]), Ok(()));
    assert_eq!(t.shape(), &vec![3, 2]);
    assert_eq!(t.data(), &[1, 2, 3, 4, 5, 6]);
    assert_eq!(t.reshape(&vec![6]), Ok(()));
    assert_eq!(t.reshape(&vec![1, 6, 1]), Ok(()));
    assert_eq!(t.shape(), &vec![1, 6, 1]);
    assert_eq!(t.data(), &[1, 2, 3, 4, 5, 6]);
    assert!(std::ptr::eq(before, t.data().as_ptr()));
}

#[test]
fn reshape_refuses_another_size() {
    let mut t = sample();
    assert_eq!(t.reshape(&vec![4]), Err(TensorError::ShapeMismatch));
    assert_eq!(t.shape(), &vec![2, 3]);
    assert_eq!(t.size(), 6);
    assert_eq!(t.data(), &[1, 2, 3, 4, 5, 6]);
}

#[test]
fn slice_views_part_of_the_buffer() {
    let t = sample();
    let cut = t.slice(3, &vec![3]).unwrap();
    assert_eq!(cut.data(), &[4, 5, 6]);
    assert_eq!(cut.shape(), &vec![3]);
    assert_eq!(cut.size(), 3);
    assert!(std::ptr::eq(cut.data().as_ptr(), t.data()[3..].as_ptr()));
}

#[test]
fn slice_is_the_named_range_of_the_source() {
    let t = counting(&vec![4, 5]);
    let cut = t.slice(5, &vec![2, 5]).unwrap();
    assert_eq!(cut.size(), 10);
    assert_eq!(cut.data(), &t.data()[5..15]);
    let whole = t.slice(0, &vec![20]).unwrap();
    assert_eq!(whole.data(), t.data());
    let none = t.slice(20, &vec![0]).unwrap();
    assert_eq!(none.size(), 0);
}

#[test]
fn slice_refuses_what_reaches_past_the_view() {
    let t = sample();
    assert_eq!(t.slice(4, &vec![3]).err(), Some(TensorError::BoundsError));
    assert_eq!(t.slice(7, &vec![0]).err(), Some(TensorError::BoundsError));
    assert_eq!(t.slice(0, &vec![7]).err(), Some(TensorError::BoundsError));
    assert_eq!(
        t.slice(usize::MAX, &vec![2]).err(),
        Some(TensorError::BoundsError)
    );
    assert_eq!(
        t.slice(0, &vec![usize::MAX, 3]).err(),
        Some(TensorError::BoundsError)
    );
}

#[test]
fn slice_of_a_slice_counts_the_offset_against_the_view() {
    let t = counting(&vec![12]);
    let cut = t.slice(2, &vec![6]).unwrap();
    assert_eq!(cut.data(), &[2, 3, 4, 5, 6, 7]);
    // offset 2 + start 1 + 3 elements fit the 6 of the view
    let inner = cut.slice(1, &vec![3]).unwrap();
    assert_eq!(inner.data(), &[3, 4, 5]);
    // offset 2 + start 2 + 3 elements do not
    assert_eq!(cut.slice(2, &vec![3]).err(), Some(TensorError::BoundsError));
}

#[test]
fn transpose_swaps_rows_and_columns() {
    let t = sample();
    let turned = t.transpose(vec![1, 0]).unwrap();
    assert_eq!(turned.shape(), &vec![3, 2]);
    assert_eq!(turned.data(), &[1, 4, 2, 5, 3, 6]);
    assert_eq!(turned.size(), t.size());
    assert_eq!(t.data(), &[1, 2, 3, 4, 5, 6]);
}

#[test]
fn transpose_moves_axis_j_to_place_perm_j() {
    // element (a, b, c) of a [2, 3, 4] tensor is 12a + 4b + c
    let t = counting(&vec![2, 3, 4]);
    let turned = t.transpose(vec![1, 2, 0]).unwrap();
    // axis 0 -> 1, axis 1 -> 2, axis 2 -> 0: the new shape is [4, 2, 3]
    assert_eq!(turned.shape(), &vec![4, 2, 3]);
    assert_eq!(turned.size(), 24);
    let data = turned.data();
    for a in 0..2 {
        for b in 0..3 {
            for c in 0..4 {
                assert_eq!(data[c * 6 + a * 3 + b], (12 * a + 4 * b + c) as u32);
            }
        }
    }
    assert_eq!(&data[..7], &[0, 4, 8, 12, 16, 20, 1]);
}

#[test]
fn transpose_with_inverse_gives_back_the_source() {
    let t = counting(&vec![2, 3, 4, 5]);
    for perm in [
        vec![0, 1, 2, 3],
        vec![1, 2, 3, 0],
        vec![3, 0, 2, 1],
        vec![2, 3, 0, 1],
        vec![1, 0, 3, 2],
    ] {
        let back = inverse_permutation(&perm).unwrap();
        let turned = t.transpose(perm.clone()).unwrap();
        assert_eq!(turned.size(), t.size());
        let again = turned.transpose(back).unwrap();
        assert_eq!(again.shape(), t.shape());
        assert_eq!(again.data(), t.data());
    }
}

#[test]
fn transpose_by_identity_copies() {
    let t = counting(&vec![3, 2, 2]);
    let same = t.transpose(vec![0, 1, 2]).unwrap();
    assert_eq!(same.shape(), t.shape());
    assert_eq!(same.data(), t.data());
    assert!(!std::ptr::eq(same.data().as_ptr(), t.data().as_ptr()));
}

#[test]
fn transpose_of_a_view_has_the_size_of_the_view() {
    let t = counting(&vec![4, 6]);
    let cut = t.slice(6, &vec![2, 3]).unwrap();
    assert_eq!(cut.data(), &[6, 7, 8, 9, 10, 11]);
    let turned = cut.transpose(vec![1, 0]).unwrap();
    assert_eq!(turned.shape(), &vec![3, 2]);
    assert_eq!(turned.size(), 6);
    assert_eq!(turned.data(), &[6, 9, 7, 10, 8, 11]);
}

#[test]
fn transpose_of_nothing() {
    let t = Tensor::new(Vec::<u32>::new(), &vec![2, 0, 5]).unwrap();
    let turned = t.transpose(vec![2, 0, 1]).unwrap();
    assert_eq!(turned.shape(), &vec![0, 5, 2]);
    assert_eq!(turned.size(), 0);
    let scalar = Tensor::new(vec![9u32], &vec![]).unwrap();
    let same = scalar.transpose(vec![]).unwrap();
    assert_eq!(same.data(), &[9]);
}

#[test]
fn transpose_refuses_what_is_no_permutation() {
    let t = counting(&vec![2, 3, 4]);
    for perm in [
        vec![0, 1],
        vec![0, 1, 2, 3],
        vec![0, 0, 1],
        vec![1, 2, 3],
        vec![0, 1, usize::MAX],
        vec![],
    ] {
        assert_eq!(
            t.transpose(perm).err(),
            Some(TensorError::InvalidPermutation)
        );
    }
}

#[test]
fn offset_counts_from_the_start_of_the_buffer() {
    let t = counting(&vec![12]);
    assert_eq!(t.offset(), 0);
    let cut = t.slice(2, &vec![6]).unwrap();
    assert_eq!(cut.offset(), 2);
    assert_eq!(cut.slice(1, &vec![3]).unwrap().offset(), 3);
    assert_eq!(cut.clone().offset(), 2);
    assert_eq!(cut.transpose(vec![0]).unwrap().offset(), 0);
}

#[test]
fn rows_are_runs_of_the_last_dimension() {
    let t = counting(&vec![2, 2, 3]);
    let rows = t.rows();
    assert_eq!(rows.len(), 4);
    assert_eq!(rows[0], &[0, 1, 2]);
    assert_eq!(rows[1], &[3, 4, 5]);
    assert_eq!(rows[3], &[9, 10, 11]);
    let cut = t.slice(3, &vec![1, 4]).unwrap();
    assert_eq!(cut.rows(), vec![&[3u32, 4, 5, 6][..]]);
    let none = Tensor::new(Vec::<u32>::new(), &vec![0, 5]).unwrap();
    assert!(none.rows().is_empty());
}
