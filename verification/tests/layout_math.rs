use lm_tensor::layout::{compute_flat_index, compute_index, compute_strides, element_count};
use lm_tensor::permutation::{inverse_permutation, permute};

#[test]
fn element_count_is_the_product() {
    assert_eq!(element_count(&vec![]), Some(1));
    assert_eq!(element_count(&vec![7]), Some(7));
    assert_eq!(element_count(&vec![2, 3, 4]), Some(24));
    assert_eq!(element_count(&vec![5, 0, 4]), Some(0));
}

#[test]
fn element_count_knows_what_does_not_fit() {
    assert_eq!(element_count(&vec![usize::MAX, 2]), None);
    assert_eq!(element_count(&vec![1 << 40, 1 << 40]), None);
    assert_eq!(element_count(&vec![usize::MAX, 1, 1]), Some(usize::MAX));
    // a zero dimension makes the product zero whatever the others are
    assert_eq!(element_count(&vec![usize::MAX, usize::MAX, 0]), Some(0));
    assert_eq!(element_count(&vec![0, usize::MAX, usize::MAX]), Some(0));
}

#[test]
fn strides_are_products_of_later_dimensions() {
    assert_eq!(compute_strides(&vec![2, 3, 4]), vec![12, 4, 1]);
    assert_eq!(compute_strides(&vec![5]), vec![1]);
    assert_eq!(compute_strides(&vec![]), Vec::<usize>::new());
    assert_eq!(compute_strides(&vec![7, 1, 1, 9]), vec![9, 9, 9, 1]);
    // the first dimension has no part in any stride
    assert_eq!(compute_strides(&vec![usize::MAX, 2]), vec![2, 1]);
    assert_eq!(compute_strides(&vec![3, 0, 2]), vec![0, 2, 1]);
}

#[test]
fn index_is_split_by_strides() {
    let strides = vec![12, 4, 1];
    assert_eq!(compute_index(0, &strides), vec![0, 0, 0]);
    assert_eq!(compute_index(17, &strides), vec![1, 1, 1]);
    assert_eq!(compute_index(23, &strides), vec![1, 2, 3]);
    assert_eq!(compute_index(5, &vec![]), Vec::<usize>::new());
    // strides need not be those of a shape
    assert_eq!(compute_index(29, &vec![10, 3, 2]), vec![2, 3, 0]);
}

#[test]
fn flat_index_is_the_weighted_sum() {
    let strides = vec![12, 4, 1];
    assert_eq!(compute_flat_index(vec![0, 0, 0], &strides), 0);
    assert_eq!(compute_flat_index(vec![1, 1, 1], &strides), 17);
    assert_eq!(compute_flat_index(vec![1, 2, 3], &strides), 23);
    assert_eq!(compute_flat_index(vec![], &strides), 0);
    assert_eq!(compute_flat_index(vec![2, 1], &strides), 28);
}

#[test]
fn flat_index_undoes_index() {
    let strides = compute_strides(&vec![3, 4, 5]);
    for position in 0..60 {
        let coords = compute_index(position, &strides);
        assert!(coords[0] < 3 && coords[1] < 4 && coords[2] < 5);
        assert_eq!(coords[1], (position / 5) % 4);
        assert_eq!(compute_flat_index(coords, &strides), position);
    }
}

#[test]
fn inverse_of_a_permutation() {
    assert_eq!(inverse_permutation(&vec![]), Some(vec![]));
    assert_eq!(inverse_permutation(&vec![0]), Some(vec![0]));
    assert_eq!(inverse_permutation(&vec![1, 2, 0]), Some(vec![2, 0, 1]));
    assert_eq!(inverse_permutation(&vec![3, 0, 2, 1]), Some(vec![1, 3, 2, 0]));
}

#[test]
fn no_inverse_of_what_is_no_permutation() {
    assert_eq!(inverse_permutation(&vec![1]), None);
    assert_eq!(inverse_permutation(&vec![0, 0]), None);
    assert_eq!(inverse_permutation(&vec![0, 2]), None);
    assert_eq!(inverse_permutation(&vec![2, 1, 1]), None);
    assert_eq!(inverse_permutation(&vec![usize::MAX, 0]), None);
}

#[test]
fn permute_sends_each_item_to_its_place() {
    assert_eq!(permute(&vec![10, 20, 30], &vec![1, 2, 0]), vec![30, 10, 20]);
    assert_eq!(permute(&vec![10, 20, 30], &vec![0, 1, 2]), vec![10, 20, 30]);
    assert_eq!(permute(&vec![], &vec![]), Vec::<usize>::new());
    let perm = vec![3, 0, 2, 1];
    let back = inverse_permutation(&perm).unwrap();
    let items = vec![5, 6, 7, 8];
    assert_eq!(permute(&permute(&items, &perm), &back), items);
}

#[test]
fn strides_follow_the_recurrence() {
    let shape = vec![3, 5, 2, 7];
    let strides = compute_strides(&shape);
    assert_eq!(strides[3], 1);
    for axis in 0..3 {
        assert_eq!(strides[axis], strides[axis + 1] * shape[axis + 1]);
    }
}
