use nn::matrix::{Matrix, ShapeError};

fn mat(rows: &[Vec<f32>]) -> Matrix<f32> {
    Matrix::new(rows).unwrap()
}

fn plus(x: f32, y: f32) -> f32 {
    x + y
}

fn negate(x: f32) -> f32 {
    x * -1.
}

fn step(acc: f32, x: f32, y: f32) -> f32 {
    acc + x * y
}

fn close(x: f32, y: f32) -> bool {
    (x - y).abs() <= f32::EPSILON
}

fn same(a: &Matrix<f32>, b: &Matrix<f32>) -> bool {
    a.matches_with(b, close)
}

fn within(tol: f32) -> impl Fn(f32, f32) -> bool {
    move |x: f32, y: f32| (x - y).abs() <= tol
}

#[test]
fn test_add() {
    let a = mat(&[vec![1., 2.], vec![3., 4.]]);
    let b = mat(&[vec![5., 6.], vec![7., 8.]]);
    let expected = mat(&[vec![6., 8.], vec![10., 12.]]);
    assert!(same(&a.zip_with(&b, plus).unwrap(), &expected));
}

#[test]
fn test_add_panic() {
    let a = mat(&[vec![1., 2.], vec![3., 4.]]);
    let b = mat(&[vec![5., 6.]]);
    let result = a.zip_with(&b, plus);
    assert_eq!(
        result.unwrap_err(),
        ShapeError::Mismatch { left_rows: 2, left_cols: 2, right_rows: 1, right_cols: 2 }
    );
}

#[test]
fn test_neg() {
    let a = mat(&[vec![1., 2.], vec![3., 4.]]);
    let expected = mat(&[vec![-1., -2.], vec![-3., -4.]]);
    assert!(same(&a.map(negate), &expected));
}

#[test]
fn test_sub() {
    let a = mat(&[vec![1., 2.], vec![3., 4.]]);
    let b = mat(&[vec![5., 6.], vec![7., 8.]]);
    let expected = mat(&[vec![-4., -4.], vec![-4., -4.]]);
    assert!(same(&a.subtract(&b, plus, negate).unwrap(), &expected));
}

#[test]
fn test_sub_panic() {
    let a = mat(&[vec![1., 2.], vec![3., 4.]]);
    let b = mat(&[vec![5., 6.]]);
    let result = a.subtract(&b, plus, negate);
    assert_eq!(
        result.unwrap_err(),
        ShapeError::Mismatch { left_rows: 2, left_cols: 2, right_rows: 1, right_cols: 2 }
    );
}

#[test]
fn test_mul() {
    let a = mat(&[vec![1., 2.], vec![3., 4.]]);
    let b = mat(&[vec![5., 6.], vec![7., 8.]]);
    let expected = mat(&[vec![19., 22.], vec![43., 50.]]);
    assert!(same(&a.product(&b, 0., step).unwrap(), &expected));
}

#[test]
fn test_mul_panic() {
    let a = mat(&[vec![1., 2.], vec![3., 4.]]);
    let b = mat(&[vec![5., 6.]]);
    let result = a.product(&b, 0., step);
    assert_eq!(
        result.unwrap_err(),
        ShapeError::Mismatch { left_rows: 2, left_cols: 2, right_rows: 1, right_cols: 2 }
    );
}

#[test]
fn test_add_assign() {
    let m1 = mat(&[vec![1., 2.], vec![3., 4.]]);
    let mut m2 = mat(&[vec![5., 6.], vec![7., 8.]]);
    m2.zip_with_assign(&m1, plus).unwrap();
    assert!(same(&m2, &mat(&[vec![6., 8.], vec![10., 12.]])));
}

#[test]
fn test_sub_assign() {
    let m1 = mat(&[vec![1., 2.], vec![3., 4.]]);
    let mut m2 = mat(&[vec![5., 6.], vec![7., 8.]]);
    m2.subtract_assign(&m1, plus, negate).unwrap();
    assert!(same(&m2, &mat(&[vec![4., 4.], vec![4., 4.]])));
}

#[test]
fn test_mul_assign() {
    let m1 = mat(&[vec![1., 2.], vec![3., 4.]]);
    let mut m2 = mat(&[vec![5., 6.], vec![7., 8.]]);
    m2.product_assign(&m1, 0., step).unwrap();
    assert!(same(&m2, &mat(&[vec![23., 34.], vec![31., 46.]])));
}

#[test]
fn new_reports_shape() {
    let m = mat(&[vec![1., 2., 3.], vec![4., 5., 6.]]);
    assert_eq!(m.row_count(), 2);
    assert_eq!(m.col_count(), 3);
}

#[test]
fn new_rejects_no_rows() {
    let rows: Vec<Vec<f32>> = Vec::new();
    assert_eq!(Matrix::new(&rows).unwrap_err(), ShapeError::Empty);
}

#[test]
fn new_rejects_empty_first_row() {
    assert_eq!(Matrix::<f32>::new(&[vec![], vec![1.]]).unwrap_err(), ShapeError::Empty);
}

#[test]
fn new_rejects_jagged_rows() {
    let rows = vec![vec![1., 2.], vec![3., 4.], vec![5.], vec![6., 7., 8.]];
    assert_eq!(Matrix::<f32>::new(&rows).unwrap_err(), ShapeError::Jagged { row: 2 });
}

#[test]
fn add_rejects_column_mismatch() {
    let a = mat(&[vec![1., 2.]]);
    let b = mat(&[vec![1., 2., 3.]]);
    assert!(a.zip_with(&b, plus).is_err());
}

#[test]
fn add_commutes() {
    let a = mat(&[vec![1.25, -2.], vec![3., 0.5]]);
    let b = mat(&[vec![5., 6.75], vec![-7., 8.]]);
    let ab = a.zip_with(&b, plus).unwrap();
    let ba = b.zip_with(&a, plus).unwrap();
    assert!(same(&ab, &ba));
}

#[test]
fn add_negation_is_zero() {
    let a = mat(&[vec![1.25, -2.], vec![3., 0.5], vec![9., -4.]]);
    let sum = a.zip_with(&a.map(negate), plus).unwrap();
    assert!(same(&sum, &mat(&[vec![0., 0.], vec![0., 0.], vec![0., 0.]])));
}

#[test]
fn negate_twice_is_identity() {
    let a = mat(&[vec![1.25, -2., 7.], vec![3., 0.5, -0.25]]);
    assert!(same(&a.map(negate).map(negate), &a));
}

#[test]
fn subtract_is_add_of_negation() {
    let a = mat(&[vec![1.5, 2.], vec![-3., 4.25]]);
    let b = mat(&[vec![0.5, 6.], vec![7., -8.]]);
    let direct = a.subtract(&b, plus, negate).unwrap();
    let composed = a.zip_with(&b.map(negate), plus).unwrap();
    assert!(same(&direct, &composed));
    assert!(same(&direct, &mat(&[vec![1., -4.], vec![-10., 12.25]])));
}

#[test]
fn product_with_identity() {
    let a = mat(&[vec![1.5, 2., -3.], vec![4., 5.25, 6.]]);
    let id = mat(&[vec![1., 0., 0.], vec![0., 1., 0.], vec![0., 0., 1.]]);
    assert!(same(&a.product(&id, 0., step).unwrap(), &a));
}

#[test]
fn product_is_associative() {
    let a = mat(&[vec![1., 2.], vec![3., 4.]]);
    let b = mat(&[vec![0.5, -1., 2.], vec![1.5, 0., -0.5]]);
    let c = mat(&[vec![2.], vec![-1.], vec![0.25]]);
    let left = a.product(&b, 0., step).unwrap().product(&c, 0., step).unwrap();
    let right = a.product(&b.product(&c, 0., step).unwrap(), 0., step).unwrap();
    assert!(left.matches_with(&right, within(1e-4)));
    assert!(same(&left, &mat(&[vec![8.25], vec![19.]])));
}

#[test]
fn product_changes_shape() {
    let a = mat(&[vec![1., 2., 3.], vec![4., 5., 6.]]);
    let b = mat(&[vec![1.], vec![0.], vec![-1.]]);
    let p = a.product(&b, 0., step).unwrap();
    assert_eq!((p.row_count(), p.col_count()), (2, 1));
    assert!(same(&p, &mat(&[vec![-2.], vec![-2.]])));
}

#[test]
fn compound_forms_match_pure_forms() {
    let a = mat(&[vec![1., 2.], vec![3., 4.]]);
    let b = mat(&[vec![0.5, -6.], vec![7., 8.25]]);
    let mut s = a.clone();
    s.zip_with_assign(&b, plus).unwrap();
    assert!(same(&s, &a.zip_with(&b, plus).unwrap()));
    let mut d = a.clone();
    d.subtract_assign(&b, plus, negate).unwrap();
    assert!(same(&d, &a.subtract(&b, plus, negate).unwrap()));
    let mut p = a.clone();
    p.product_assign(&b, 0., step).unwrap();
    assert!(same(&p, &a.product(&b, 0., step).unwrap()));
}

#[test]
fn failed_assign_leaves_receiver() {
    let a = mat(&[vec![1., 2.], vec![3., 4.]]);
    let b = mat(&[vec![5., 6., 7.]]);
    let mut m = a.clone();
    assert!(m.zip_with_assign(&b, plus).is_err());
    assert!(m.subtract_assign(&b, plus, negate).is_err());
    assert!(m.product_assign(&b, 0., step).is_err());
    assert!(same(&m, &a));
}

#[test]
fn equality_tolerates_epsilon() {
    let a = mat(&[vec![1., 2.], vec![3., 4.]]);
    let b = mat(&[vec![1. + f32::EPSILON, 2.], vec![3., 4.]]);
    assert!(same(&a, &b));
}

#[test]
fn equality_rejects_more_than_epsilon() {
    let a = mat(&[vec![1., 2.], vec![3., 4.]]);
    let b = mat(&[vec![1. + 2. * f32::EPSILON, 2.], vec![3., 4.]]);
    assert!(!same(&a, &b));
}

#[test]
fn equality_rejects_other_shape() {
    let a = mat(&[vec![1., 2.]]);
    let b = mat(&[vec![1.], vec![2.]]);
    assert!(!same(&a, &b));
}
