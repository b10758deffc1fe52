use linfa_bayes::Matrix;
use linfa_bayes::filter;
use linfa_bayes::unique_labels;

fn matrix_rows(m: &Matrix) -> Vec<Vec<i64>> {
    let mut rows = Vec::new();
    for i in 0..m.nrows() {
        rows.push(m.row(i));
    }
    rows
}

// features = [[1,2],[3,4],[5,6]], targets = ["a","b","a"] (labels
// "a","b","c" carried as 0,1,2): filtering by "a" gives
// [[1,2],[5,6]], by "b" gives [[3,4]], by "c" an empty 0-by-2 matrix.
#[test]
fn filter_keeps_matching_rows_in_order() {
    let x = Matrix::from_rows(&vec![vec![1, 2], vec![3, 4], vec![5, 6]], 2);
    let y = vec![0, 1, 0];

    let sub_a = filter(&x, &y, 0);
    assert_eq!(matrix_rows(&sub_a), vec![vec![1, 2], vec![5, 6]]);
    assert_eq!(sub_a.ncols(), 2);

    let sub_b = filter(&x, &y, 1);
    assert_eq!(matrix_rows(&sub_b), vec![vec![3, 4]]);
    assert_eq!(sub_b.ncols(), 2);

    let sub_c = filter(&x, &y, 2);
    assert_eq!(sub_c.nrows(), 0);
    assert_eq!(sub_c.ncols(), 2);
}

#[test]
fn filter_row_count_equals_matching_positions() {
    let x = Matrix::from_rows(
        &vec![vec![1], vec![2], vec![3], vec![4], vec![5]],
        1,
    );
    let y = vec![9, 4, 9, 9, 4];
    assert_eq!(filter(&x, &y, 9).nrows(), 3);
    assert_eq!(filter(&x, &y, 4).nrows(), 2);
    assert_eq!(filter(&x, &y, 1).nrows(), 0);
}

#[test]
fn filter_subsets_over_all_labels_partition_the_rows() {
    let x = Matrix::from_rows(
        &vec![vec![1, 10], vec![2, 20], vec![3, 30], vec![4, 40]],
        2,
    );
    let y = vec![2, 1, 2, 3];
    let mut gathered = Vec::new();
    for label in unique_labels(&y) {
        gathered.extend(matrix_rows(&filter(&x, &y, label)));
    }
    let mut original = matrix_rows(&x);
    gathered.sort();
    original.sort();
    assert_eq!(gathered, original);
}

#[test]
fn filter_on_zero_rows() {
    let x = Matrix::from_rows(&Vec::new(), 3);
    let y = Vec::new();
    let sub = filter(&x, &y, 0);
    assert_eq!(sub.nrows(), 0);
    assert_eq!(sub.ncols(), 3);
}

#[test]
fn matrix_accessors_expose_the_given_rows() {
    let x = Matrix::from_rows(&vec![vec![-7, 0, 9], vec![1, 2, 3]], 3);
    assert_eq!(x.nrows(), 2);
    assert_eq!(x.ncols(), 3);
    assert_eq!(x.get(0, 0), -7);
    assert_eq!(x.get(0, 2), 9);
    assert_eq!(x.get(1, 1), 2);
    assert_eq!(x.row(0), vec![-7, 0, 9]);
    assert_eq!(x.row(1), vec![1, 2, 3]);
}

#[test]
fn unique_labels_are_sorted_and_deduplicated() {
    assert_eq!(unique_labels(&vec![3, 1, 2, 1, 3, 3]), vec![1, 2, 3]);
    assert_eq!(unique_labels(&vec![5]), vec![5]);
    assert_eq!(unique_labels(&Vec::new()), Vec::<u64>::new());
    assert_eq!(unique_labels(&vec![0, u64::MAX, 0]), vec![0, u64::MAX]);
}
