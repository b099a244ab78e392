use rustvision::{CostFn, Mat, ShapeError};

fn mat(rows: usize, cols: usize, v: Vec<f32>) -> Mat<f32> {
    Mat::from_vec(rows, cols, v).unwrap()
}

fn mul_add(acc: f32, a: f32, b: f32) -> f32 {
    acc + a * b
}

fn plus(a: f32, b: f32) -> f32 {
    a + b
}

fn minus(a: f32, b: f32) -> f32 {
    a - b
}

fn close(a: &[f32], b: &[f32], rel: f32) -> bool {
    a.len() == b.len()
        && a.iter().zip(b).all(|(x, y)| (x - y).abs() <= rel * x.abs().max(y.abs()).max(1.0))
}

#[test]
fn new_is_zero_filled() {
    for (r, c) in [(1, 1), (2, 3), (7, 4)] {
        let m = Mat::new(r, c, 0.0f32);
        assert_eq!(m.shape(), (r, c));
        assert_eq!(m.as_slice().len(), r * c);
        assert!(m.as_slice().iter().all(|&x| x == 0.0));
    }
}

#[test]
fn from_vec_keeps_buffer() {
    let m = mat(2, 3, vec![1.0, 2.0, 3.0, 4.0, 5.0, 6.0]);
    assert_eq!(m.shape(), (2, 3));
    assert_eq!(m.as_slice(), &[1.0, 2.0, 3.0, 4.0, 5.0, 6.0]);
    assert_eq!(m.get(1, 0), 4.0);
    assert_eq!(m.row(1), &[4.0, 5.0, 6.0]);
}

#[test]
fn from_vec_rejects_wrong_length() {
    let r = Mat::from_vec(2, 3, vec![1.0f32; 5]);
    assert_eq!(r.unwrap_err(), ShapeError::BufferLength { rows: 2, cols: 3, len: 5 });
}

#[test]
fn from_vec_rejects_zero_extent() {
    let r = Mat::<f32>::from_vec(0, 3, vec![]);
    assert_eq!(r.unwrap_err(), ShapeError::ZeroExtent { rows: 0, cols: 3 });
}

#[test]
fn set_and_fill() {
    let mut m = Mat::new(2, 2, 0.0f32);
    m.set(1, 0, 9.0);
    assert_eq!(m.as_slice(), &[0.0, 0.0, 9.0, 0.0]);
    m.fill(3.5);
    assert_eq!(m.as_slice(), &[3.5; 4]);
}

#[test]
fn transpose_moves_elements() {
    let m = mat(2, 3, vec![1.0, 2.0, 3.0, 4.0, 5.0, 6.0]);
    let t = m.transpose();
    assert_eq!(t.shape(), (3, 2));
    assert_eq!(t.as_slice(), &[1.0, 4.0, 2.0, 5.0, 3.0, 6.0]);
}

#[test]
fn transpose_twice_is_identity() {
    let m = mat(3, 2, vec![0.5, -1.0, 2.25, 7.0, -3.5, 1e-3]);
    let tt = m.transpose().transpose();
    assert_eq!(tt.shape(), m.shape());
    assert_eq!(tt.as_slice(), m.as_slice());
}

#[test]
fn dot_exact_values() {
    let a = mat(2, 2, vec![1.0, 2.0, 3.0, 4.0]);
    let b = mat(2, 2, vec![5.0, 6.0, 7.0, 8.0]);
    let p = a.dot(&b, 0.0, &mul_add).unwrap();
    assert_eq!(p.shape(), (2, 2));
    assert_eq!(p.as_slice(), &[19.0, 22.0, 43.0, 50.0]);
}

#[test]
fn dot_rectangular() {
    let a = mat(1, 3, vec![1.0, 2.0, 3.0]);
    let b = mat(3, 2, vec![1.0, 0.0, 0.0, 1.0, 1.0, 1.0]);
    let p = a.dot(&b, 0.0, &mul_add).unwrap();
    assert_eq!(p.shape(), (1, 2));
    assert_eq!(p.as_slice(), &[4.0, 5.0]);
}

#[test]
fn dot_is_associative_within_tolerance() {
    let a = mat(2, 3, vec![0.1, -0.7, 1.3, 2.0, 0.5, -1.1]);
    let b = mat(3, 4, vec![1.5, 0.2, -0.3, 0.9, -2.2, 0.4, 1.1, 0.0, 0.6, -0.8, 0.7, 1.9]);
    let c = mat(4, 2, vec![0.3, -1.2, 0.8, 0.05, -0.4, 1.6, 2.1, -0.9]);
    let left = a.dot(&b, 0.0, &mul_add).unwrap().dot(&c, 0.0, &mul_add).unwrap();
    let right = a.dot(&b.dot(&c, 0.0, &mul_add).unwrap(), 0.0, &mul_add).unwrap();
    assert_eq!(left.shape(), (2, 2));
    assert_eq!(right.shape(), (2, 2));
    assert!(close(left.as_slice(), right.as_slice(), 1e-4));
}

#[test]
fn dot_rejects_inner_mismatch() {
    let a = Mat::new(2, 3, 0.0f32);
    let b = Mat::new(4, 5, 0.0f32);
    let r = a.dot(&b, 0.0, &mul_add);
    assert_eq!(
        r.unwrap_err(),
        ShapeError::Mismatch { left_rows: 2, left_cols: 3, right_rows: 4, right_cols: 5 }
    );
}

#[test]
fn add_subtract_round_trip() {
    let a = mat(2, 2, vec![1.25, -3.5, 0.1, 8.0]);
    let b = mat(2, 2, vec![0.75, 2.0, -0.3, 1e-2]);
    let sum = a.zip_map(&b, &plus).unwrap();
    assert_eq!(sum.as_slice(), &[2.0, -1.5, 0.1 + -0.3, 8.0 + 1e-2]);
    let back = sum.zip_map(&b, &minus).unwrap();
    assert!(close(back.as_slice(), a.as_slice(), 1e-6));
}

#[test]
fn add_and_subtract_reject_mismatch() {
    let a = Mat::new(2, 3, 1.0f32);
    let b = Mat::new(4, 5, 1.0f32);
    let expected = ShapeError::Mismatch { left_rows: 2, left_cols: 3, right_rows: 4, right_cols: 5 };
    assert_eq!(a.zip_map(&b, &plus).unwrap_err(), expected);
    assert_eq!(a.zip_map(&b, &minus).unwrap_err(), expected);
    assert_eq!(a.zip_map(&b, &|x: f32, y: f32| x * y).unwrap_err(), expected);
}

#[test]
fn scale_by_one_and_zero() {
    let a = mat(2, 3, vec![1.0, -2.0, 3.5, 0.0, 4.25, -7.0]);
    let one = a.map(&|x: f32| x * 1.0);
    assert_eq!(one.as_slice(), a.as_slice());
    let zero = a.map(&|x: f32| x * 0.0);
    assert_eq!(zero.shape(), (2, 3));
    assert!(zero.as_slice().iter().all(|&x| x == 0.0));
}

#[test]
fn map_inplace_rewrites_elements() {
    let mut a = mat(1, 3, vec![1.0, 2.0, 3.0]);
    a.map_inplace(&|x: f32| x * x);
    assert_eq!(a.as_slice(), &[1.0, 4.0, 9.0]);
}

#[test]
fn zip_map_row_adds_bias_to_each_row() {
    let a = mat(2, 2, vec![1.0, 2.0, 3.0, 4.0]);
    let b = mat(1, 2, vec![10.0, 20.0]);
    let s = a.zip_map_row(&b, &plus).unwrap();
    assert_eq!(s.as_slice(), &[11.0, 22.0, 13.0, 24.0]);
    let wide = Mat::new(1, 3, 0.0f32);
    assert_eq!(
        a.zip_map_row(&wide, &plus).unwrap_err(),
        ShapeError::Mismatch { left_rows: 2, left_cols: 2, right_rows: 1, right_cols: 3 }
    );
}

#[test]
fn copies_are_independent() {
    let a = mat(1, 2, vec![1.0, 2.0]);
    let mut b = a.clone();
    b.set(0, 0, 5.0);
    assert_eq!(a.as_slice(), &[1.0, 2.0]);
    assert_eq!(b.as_slice(), &[5.0, 2.0]);
}

fn squared_diff(a: f32, b: f32) -> f32 {
    (a - b).powi(2)
}

fn per_element(total: f32, n: usize) -> f32 {
    total / n as f32
}

fn mse_term(y_hat: f32, y: f32, n: usize) -> f32 {
    2.0 * (y_hat - y) / n as f32
}

#[test]
fn sum_folds_every_element() {
    let a = mat(2, 2, vec![1.0, 2.5, -4.0, 0.5]);
    assert_eq!(a.sum(0.0, &plus), 0.0);
    let b = mat(1, 3, vec![1.0, 2.0, 3.0]);
    assert_eq!(b.sum(0.0, &plus), 6.0);
    assert_eq!(b.sum(10.0, &plus), 16.0);
}

#[test]
fn cost_and_gradient_vanish_for_equal_matrices() {
    let out = mat(2, 3, vec![0.3, -1.0, 2.0, 0.0, 7.5, -0.25]);
    let cost_fn = CostFn::MeanSquaredError;
    let c = cost_fn.cost(&out, &out, 0.0, &squared_diff, &plus, &per_element).unwrap();
    assert_eq!(c, 0.0);
    let g = cost_fn.grad(&out, &out, &mse_term).unwrap();
    assert_eq!(g.shape(), (2, 3));
    assert!(g.as_slice().iter().all(|&x| x == 0.0));
}

#[test]
fn cost_and_gradient_values() {
    let out = mat(1, 2, vec![0.5, 0.0]);
    let target = mat(1, 2, vec![1.0, 0.0]);
    let cost_fn = CostFn::MeanSquaredError;
    let c = cost_fn.cost(&out, &target, 0.0, &squared_diff, &plus, &per_element).unwrap();
    assert_eq!(c, 0.125);
    let g = cost_fn.grad(&out, &target, &mse_term).unwrap();
    assert_eq!(g.as_slice(), &[-0.5, 0.0]);
}

#[test]
fn cost_and_gradient_reject_mismatch() {
    let out = Mat::new(2, 3, 0.0f32);
    let target = Mat::new(3, 2, 0.0f32);
    let expected = ShapeError::Mismatch { left_rows: 2, left_cols: 3, right_rows: 3, right_cols: 2 };
    let cost_fn = CostFn::MeanSquaredError;
    let c = cost_fn.cost(&out, &target, 0.0, &squared_diff, &plus, &per_element);
    assert_eq!(c.unwrap_err(), expected);
    assert_eq!(cost_fn.grad(&out, &target, &mse_term).unwrap_err(), expected);
}
