use wireframe::matrix::Matrix;

fn mul_add_f32(acc: f32, x: f32, y: f32) -> f32 {
    acc + x * y
}

fn mul_add_i64(acc: i64, x: i64, y: i64) -> i64 {
    acc + x * y
}

fn from_rows_f32(rows: Vec<Vec<f32>>) -> Matrix<f32> {
    Matrix::from_vec(rows, 0.0)
}

fn entries<T: Copy>(m: &Matrix<T>) -> Vec<Vec<T>> {
    let mut out = Vec::new();
    for i in 0..m.num_rows() {
        let mut row = Vec::new();
        for j in 0..m.num_cols() {
            row.push(m.at(i, j));
        }
        out.push(row);
    }
    out
}

#[test]
fn new_matrix_is_zero_filled() {
    let m = Matrix::new(2, 3, 0.0f32);
    assert_eq!(m.num_rows(), 2);
    assert_eq!(m.num_cols(), 3);
    assert_eq!(entries(&m), vec![vec![0.0; 3]; 2]);
}

#[test]
fn new_matrix_with_no_rows_or_columns() {
    let m = Matrix::new(0, 0, 0.0f32);
    assert_eq!(m.num_rows(), 0);
    assert_eq!(m.num_cols(), 0);
    assert_eq!(m.at(0, 0), 0.0);
}

#[test]
fn at_outside_the_matrix_reads_zero() {
    let m = from_rows_f32(vec![vec![1.0, 2.0, 3.0], vec![4.0, 5.0, 6.0]]);
    for row in 0..5 {
        for col in 0..6 {
            if row >= 2 || col >= 3 {
                assert_eq!(m.at(row, col), 0.0);
                assert!(!m.in_bounds(row, col));
            }
        }
    }
    // a column past the end does not wrap into the next row
    assert_eq!(m.at(0, 3), 0.0);
    assert_eq!(m.at(usize::MAX, usize::MAX), 0.0);
}

#[test]
fn set_then_at_reads_the_value() {
    let mut m = Matrix::new(2, 2, 0.0f32);
    m.set(0, 0, 413.0);
    m.set(0, 1, 55.0);
    m.set(1, 0, 2.0);
    m.set(1, 1, 27492.0);
    assert_eq!(entries(&m), vec![vec![413.0, 55.0], vec![2.0, 27492.0]]);
}

#[test]
fn from_vec_keeps_rows() {
    let m = Matrix::from_vec(vec![vec![1, 2, 3, 4], vec![5, 6, 7, 8]], 0i64);
    assert_eq!(m.num_rows(), 2);
    assert_eq!(m.num_cols(), 4);
    assert_eq!(m.at(1, 2), 7);
    assert_eq!(m.index(1, 2), 6);
}

#[test]
fn get_coords_splits_a_flat_index() {
    assert_eq!(Matrix::<f32>::get_coords(5, 2, 3), Some((1, 2)));
    assert_eq!(Matrix::<f32>::get_coords(0, 2, 3), Some((0, 0)));
    assert_eq!(Matrix::<f32>::get_coords(3, 0, 3), None);
}

#[test]
fn scalar_updates_touch_every_element() {
    let mut m = Matrix::new(2, 5, 0.0f32);
    m.update_each(|x| x + 3.0);
    assert_eq!(entries(&m), vec![vec![3.0; 5]; 2]);
    m.update_each(|x| x * 2.0);
    assert_eq!(entries(&m), vec![vec![6.0; 5]; 2]);
    m.update_each(|x| x - 1.0);
    assert_eq!(entries(&m), vec![vec![5.0; 5]; 2]);
}

#[test]
fn matrix_add_sums_elementwise() {
    let a = from_rows_f32(vec![vec![1.0, 2.0], vec![3.0, 4.0]]);
    let b = from_rows_f32(vec![vec![10.0, 20.0], vec![30.0, 40.0]]);
    let c = a.zip_with(&b, |x, y| x + y).unwrap();
    assert_eq!(entries(&c), vec![vec![11.0, 22.0], vec![33.0, 44.0]]);
}

#[test]
fn matrix_add_with_other_shape_fails() {
    let a = Matrix::new(2, 5, 3.0f32);
    let b = Matrix::new(5, 2, 4.0f32);
    assert!(a.zip_with(&b, |x, y| x + y).is_none());
    assert!(!a.same_shape(&b));
}

#[test]
fn equality_is_exact_and_needs_the_same_shape() {
    let a = from_rows_f32(vec![vec![1.0, 2.0], vec![3.0, 4.0]]);
    let b = from_rows_f32(vec![vec![1.0, 2.0], vec![3.0, 4.0]]);
    let c = from_rows_f32(vec![vec![1.0, 2.0], vec![3.0, 4.000001]]);
    let d = from_rows_f32(vec![vec![1.0, 2.0, 3.0, 4.0]]);
    assert!(a.all_pairs(&b, |x, y| x == y));
    assert!(!a.all_pairs(&c, |x, y| x == y));
    assert!(!a.all_pairs(&d, |x, y| x == y));
}

#[test]
fn matrix_multiply_two_by_three_times_three_by_two() {
    let a = from_rows_f32(vec![vec![1.0, 2.0, 3.0], vec![4.0, 5.0, 6.0]]);
    let b = from_rows_f32(vec![vec![7.0, 8.0], vec![9.0, 10.0], vec![11.0, 12.0]]);
    let c = a.matrix_multiply(&b, mul_add_f32).unwrap();
    assert_eq!(entries(&c), vec![vec![58.0, 64.0], vec![139.0, 154.0]]);
    let c2 = a.matrix_multiply2(&b, mul_add_f32).unwrap();
    assert_eq!(entries(&c2), vec![vec![58.0, 64.0], vec![139.0, 154.0]]);
}

#[test]
fn matrix_multiply_two_by_four_times_four_by_two() {
    let a = from_rows_f32(vec![vec![1.0, 2.0, 3.0, 4.0], vec![5.0, 6.0, 7.0, 8.0]]);
    let b = from_rows_f32(vec![
        vec![1.0, 2.0],
        vec![1.0, 2.0],
        vec![1.0, 2.0],
        vec![1.0, 2.0],
    ]);
    let c = a.matrix_multiply2(&b, mul_add_f32).unwrap();
    assert_eq!(entries(&c), vec![vec![10.0, 20.0], vec![26.0, 52.0]]);
}

#[test]
fn matrix_multiply_with_mismatched_inner_size_fails() {
    let a = Matrix::new(2, 3, 0.0f32);
    let b = Matrix::new(2, 3, 0.0f32);
    assert!(a.matrix_multiply(&b, mul_add_f32).is_none());
    assert!(a.matrix_multiply2(&b, mul_add_f32).is_none());
}

#[test]
fn the_two_products_agree() {
    let mut seed: u64 = 12345;
    let mut next = move || {
        seed = seed.wrapping_mul(6364136223846793005).wrapping_add(1442695040888963407);
        ((seed >> 33) % 2001) as f32 / 100.0 - 10.0
    };
    for (r, c, k) in [(1, 1, 1), (2, 3, 4), (4, 4, 4), (5, 1, 3), (3, 7, 2)] {
        let mut a = Matrix::new(r, k, 0.0f32);
        let mut b = Matrix::new(k, c, 0.0f32);
        for i in 0..r {
            for j in 0..k {
                a.set(i, j, next());
            }
        }
        for i in 0..k {
            for j in 0..c {
                b.set(i, j, next());
            }
        }
        let p1 = a.matrix_multiply(&b, mul_add_f32).unwrap();
        let p2 = a.matrix_multiply2(&b, mul_add_f32).unwrap();
        assert!(p1.all_pairs(&p2, |x, y| x == y));
    }
}

#[test]
fn product_is_associative_on_exact_values() {
    let a = Matrix::from_vec(vec![vec![1, 2], vec![3, 4], vec![5, 6]], 0i64);
    let b = Matrix::from_vec(vec![vec![7, 8, 9], vec![10, 11, 12]], 0i64);
    let c = Matrix::from_vec(vec![vec![1, -1], vec![2, 0], vec![0, 3]], 0i64);
    let ab_c = a
        .matrix_multiply(&b, mul_add_i64)
        .unwrap()
        .matrix_multiply(&c, mul_add_i64)
        .unwrap();
    let a_bc = a
        .matrix_multiply(&b.matrix_multiply(&c, mul_add_i64).unwrap(), mul_add_i64)
        .unwrap();
    assert!(ab_c.all_pairs(&a_bc, |x, y| x == y));
    assert_eq!(entries(&ab_c), entries(&a_bc));
}

#[test]
fn product_is_associative_on_small_floats() {
    let a = from_rows_f32(vec![vec![1.0, 2.0], vec![3.0, 4.0]]);
    let b = from_rows_f32(vec![vec![0.5, -1.0], vec![2.0, 0.25]]);
    let c = from_rows_f32(vec![vec![4.0, 0.0], vec![-2.0, 1.0]]);
    let ab_c = a
        .matrix_multiply(&b, mul_add_f32)
        .unwrap()
        .matrix_multiply(&c, mul_add_f32)
        .unwrap();
    let a_bc = a
        .matrix_multiply(&b.matrix_multiply(&c, mul_add_f32).unwrap(), mul_add_f32)
        .unwrap();
    assert!(ab_c.all_pairs(&a_bc, |x, y| x == y));
}

#[test]
fn row_and_column_vectors() {
    let m = Matrix::from_vec(vec![vec![1, 2, 3], vec![4, 5, 6]], 0i64);
    assert_eq!(m.row_vec(1), vec![4, 5, 6]);
    assert_eq!(m.col_vec(2), vec![3, 6]);
    assert_eq!(Matrix::<i64>::dot_product(&vec![1, 2, 3], &vec![4, 5, 6], 0, &mul_add_i64), 32);
}
