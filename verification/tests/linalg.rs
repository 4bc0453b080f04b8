use gprs::linalg::matmul::{
    matmul_wrapper, matmul_wrapper_diag, par_matmul, par_tr_matmul, par_tr_matmul_diag,
};
use gprs::linalg::matrix::Matrix;
use gprs::linalg::solve::{
    par_solve_lower_triangular_unchecked, par_solve_lower_triangular_unchecked_mut,
    solve_lower_triangular_vector_unchecked_mut,
};
use gprs::linalg::util::par_add_diagonal_mut_unchecked;
use gprs::scalar::Scalar;

#[derive(Clone, Copy, Debug, PartialEq)]
struct Real(f64);

impl Scalar for Real {
    fn zero() -> Self {
        Real(0.0)
    }

    fn half() -> Self {
        Real(0.5)
    }

    fn plus(self, rhs: Self) -> Self {
        Real(self.0 + rhs.0)
    }

    fn minus(self, rhs: Self) -> Self {
        Real(self.0 - rhs.0)
    }

    fn times(self, rhs: Self) -> Self {
        Real(self.0 * rhs.0)
    }

    fn over(self, rhs: Self) -> Self {
        Real(self.0 / rhs.0)
    }

    fn negate(self) -> Self {
        Real(-self.0)
    }

    fn exp(self) -> Self {
        Real(self.0.exp())
    }
}

fn reals(v: Vec<f64>) -> Vec<Real> {
    v.into_iter().map(Real).collect()
}

fn floats(v: &[Real]) -> Vec<f64> {
    v.iter().map(|r| r.0).collect()
}

fn matrix(nrows: usize, ncols: usize, v: Vec<f64>) -> Matrix<Real> {
    Matrix::from_vec(nrows, ncols, reals(v))
}

fn transpose(m: &Matrix<Real>) -> Matrix<Real> {
    let (nrows, ncols) = m.shape();
    let mut data = Vec::new();
    for i in 0..nrows {
        for j in 0..ncols {
            data.push(*m.get(i, j));
        }
    }
    Matrix::from_vec(ncols, nrows, data)
}

#[test]
fn test_empty() {
    let mut mat: Matrix<Real> = matrix(0, 0, vec![]);
    par_add_diagonal_mut_unchecked(&mut mat, &Real(10.0_f64));
    assert_eq!(floats(mat.as_slice()).as_slice(), Vec::<f64>::new().as_slice());
}

#[test]
fn test_square() {
    let mut mat = matrix(3, 3, vec![0.0, 0.0, 0.0, 0.0, 0.0, 0.0, 0.0, 0.0, 0.0]);
    let expected = vec![10.0, 0.0, 0.0, 0.0, 10.0, 0.0, 0.0, 0.0, 10.0];
    par_add_diagonal_mut_unchecked(&mut mat, &Real(10.0_f64));
    assert_eq!(floats(mat.as_slice()).as_slice(), expected.as_slice());
}

#[test]
fn add_diagonal_keeps_the_rest() {
    let mut mat = matrix(2, 2, vec![1.0, 2.0, 3.0, 4.0]);
    par_add_diagonal_mut_unchecked(&mut mat, &Real(0.5));
    assert_eq!(floats(mat.as_slice()), vec![1.5, 2.0, 3.0, 4.5]);
    assert_eq!(mat.shape(), (2, 2));
}

#[test]
fn matmul_of_two_by_three() {
    let lhs = matrix(2, 3, vec![1.0, 4.0, 2.0, 5.0, 3.0, 6.0]);
    let rhs = matrix(3, 2, vec![7.0, 9.0, 11.0, 8.0, 10.0, 12.0]);
    let expected = vec![58.0, 139.0, 64.0, 154.0];
    assert_eq!(floats(&par_matmul(&lhs, &rhs).unwrap()), expected);
}

#[test]
fn matmul_is_not_its_left_operand() {
    let lhs = matrix(2, 2, vec![1.0, 2.0, 3.0, 4.0]);
    let rhs = matrix(2, 2, vec![0.0, 1.0, 1.0, 0.0]);
    assert_eq!(floats(&par_matmul(&lhs, &rhs).unwrap()), vec![3.0, 4.0, 1.0, 2.0]);
}

#[test]
fn matmul_rejects_shapes() {
    let lhs = matrix(2, 3, vec![1.0, 4.0, 2.0, 5.0, 3.0, 6.0]);
    let rhs = matrix(2, 1, vec![7.0, 9.0]);
    let err = par_matmul(&lhs, &rhs).unwrap_err();
    assert_eq!(err.shapes, vec![(2, 3), (2, 1)]);
}

#[test]
fn matmul_with_empty_shared_axis_is_zero() {
    let lhs = matrix(2, 0, vec![]);
    let rhs = matrix(0, 2, vec![]);
    assert_eq!(floats(&par_matmul(&lhs, &rhs).unwrap()), vec![0.0, 0.0, 0.0, 0.0]);
}

#[test]
fn tr_matmul_of_square() {
    let v = matrix(3, 3, vec![1.0, 4.0, 7.0, 2.0, 5.0, 8.0, 3.0, 6.0, 9.0]);
    let expected = vec![66.0, 78.0, 90.0, 78.0, 93.0, 108.0, 90.0, 108.0, 126.0];
    assert_eq!(floats(&par_tr_matmul(&v, &v).unwrap()), expected);
}

#[test]
fn tr_matmul_rejects_shapes() {
    let lhs = matrix(2, 3, vec![1.0, 4.0, 2.0, 5.0, 3.0, 6.0]);
    let rhs = matrix(3, 1, vec![7.0, 9.0, 1.0]);
    let err = par_tr_matmul(&lhs, &rhs).unwrap_err();
    assert_eq!(err.shapes, vec![(3, 2), (3, 1)]);
}

#[test]
fn tr_matmul_diag_of_square() {
    let v = matrix(3, 3, vec![1.0, 4.0, 7.0, 2.0, 5.0, 8.0, 3.0, 6.0, 9.0]);
    let expected = vec![66.0, 93.0, 126.0];
    assert_eq!(floats(&par_tr_matmul_diag(&v, &v).unwrap()), expected);
}

#[test]
fn tr_matmul_diag_has_the_shorter_length() {
    let lhs = matrix(2, 3, vec![1.0, 4.0, 2.0, 5.0, 3.0, 6.0]);
    let rhs = matrix(2, 2, vec![1.0, 0.0, 0.0, 1.0]);
    assert_eq!(floats(&par_tr_matmul_diag(&lhs, &rhs).unwrap()), vec![1.0, 5.0]);
    assert_eq!(floats(&par_tr_matmul_diag(&rhs, &lhs).unwrap()), vec![1.0, 5.0]);
}

#[test]
fn tr_matmul_diag_rejects_shapes() {
    let lhs = matrix(2, 3, vec![1.0, 4.0, 2.0, 5.0, 3.0, 6.0]);
    let rhs = matrix(3, 1, vec![7.0, 9.0, 1.0]);
    let err = par_tr_matmul_diag(&lhs, &rhs).unwrap_err();
    assert_eq!(err.shapes, vec![(3, 2), (3, 1)]);
}

#[test]
fn matmul_equals_tr_matmul_of_transpose() {
    let a = matrix(2, 3, vec![1.5, -4.0, 2.0, 5.25, 3.0, 6.0]);
    let b = matrix(3, 4, vec![7.0, 9.0, 11.0, 8.0, 10.0, 12.0, 0.5, 0.25, -1.0, 2.0, 3.0, 4.0]);
    let at = transpose(&a);
    assert_eq!(at.shape(), (3, 2));
    assert_eq!(par_matmul(&a, &b).unwrap(), par_tr_matmul(&at, &b).unwrap());
}

#[test]
fn tr_matmul_diag_equals_diagonal_of_tr_matmul() {
    let a = matrix(3, 4, vec![7.0, 9.0, 11.0, 8.0, 10.0, 12.0, 0.5, 0.25, -1.0, 2.0, 3.0, 4.0]);
    let full = par_tr_matmul(&a, &a).unwrap();
    let diag = par_tr_matmul_diag(&a, &a).unwrap();
    assert_eq!(diag.len(), 4);
    for c in 0..4 {
        assert_eq!(diag[c], full[c * 4 + c]);
    }
}

#[test]
fn wrapper_sums_along_the_shared_axis() {
    let op = |l: (usize, usize), r: (usize, usize)| Real((10 * l.0 + l.1 + 100 * r.1 + r.0) as f64);
    let out = matmul_wrapper((2, 2), (2, 3), &op);
    // cell (li, rj) = sum over k of 10 li + k + 100 rj + k
    let mut expected = Vec::new();
    for rj in 0..3 {
        for li in 0..2 {
            expected.push((2 * (10 * li + 100 * rj) + 2) as f64);
        }
    }
    assert_eq!(floats(&out), expected);
    let diag = matmul_wrapper_diag((2, 2), (2, 3), &op);
    assert_eq!(floats(&diag), vec![2.0, 222.0]);
}

#[test]
fn solve_identity() {
    let a = matrix(2, 2, vec![1.0, 0.0, 0.0, 1.0]);
    let b = matrix(2, 1, vec![1.0, 1.0]);
    let x = par_solve_lower_triangular_unchecked(&a, &b);
    assert_eq!(x.shape(), (2, 1));
    assert_eq!(floats(x.as_slice()), vec![1.0, 1.0]);
}

#[test]
fn solve_lower_triangle() {
    let a = matrix(2, 2, vec![1.0, 2.0, 0.0, 1.0]);
    let b = matrix(2, 1, vec![1.0, 1.0]);
    let x = par_solve_lower_triangular_unchecked(&a, &b);
    assert_eq!(floats(x.as_slice()), vec![1.0, -1.0]);
}

#[test]
fn solve_does_not_read_the_upper_triangle() {
    let a = matrix(2, 2, vec![2.0, 2.0, 77.0, 4.0]);
    let b = matrix(2, 2, vec![2.0, 6.0, 4.0, 0.0]);
    let x = par_solve_lower_triangular_unchecked(&a, &b);
    assert_eq!(x.shape(), (2, 2));
    assert_eq!(floats(x.as_slice()), vec![1.0, 1.0, 2.0, -1.0]);
}

#[test]
fn solve_one_vector_in_place() {
    let a = matrix(3, 3, vec![2.0, 1.0, 1.0, 0.0, 4.0, 2.0, 0.0, 0.0, 8.0]);
    let mut b = reals(vec![2.0, 5.0, 11.0]);
    solve_lower_triangular_vector_unchecked_mut(&a, &mut b);
    assert_eq!(floats(&b), vec![1.0, 1.0, 1.0]);
}

#[test]
fn solve_then_multiply_gives_the_right_hand_side() {
    let a = matrix(3, 3, vec![2.0, 1.0, -1.0, 0.0, 4.0, 0.5, 0.0, 0.0, 8.0]);
    let b = matrix(3, 2, vec![1.0, 2.0, 3.0, -4.0, 0.25, 9.0]);
    let x = par_solve_lower_triangular_unchecked(&a, &b);
    let back = par_matmul(&a, &x).unwrap();
    for (l, r) in floats(&back).iter().zip(floats(b.as_slice())) {
        assert!((l - r).abs() < 1e-9);
    }
}

#[test]
fn matrix_is_column_major() {
    let mut m = matrix(2, 3, vec![1.0, 2.0, 3.0, 4.0, 5.0, 6.0]);
    assert_eq!(m.nrows(), 2);
    assert_eq!(m.ncols(), 3);
    assert_eq!(m.get(1, 0).0, 2.0);
    assert_eq!(m.get(0, 2).0, 5.0);
    m.set(1, 2, Real(-6.0));
    assert_eq!(floats(m.as_slice()), vec![1.0, 2.0, 3.0, 4.0, 5.0, -6.0]);
    let copy = m.clone_owned();
    assert_eq!(copy.shape(), (2, 3));
    assert_eq!(floats(&copy.into_vec()), vec![1.0, 2.0, 3.0, 4.0, 5.0, -6.0]);
    let z: Matrix<Real> = Matrix::zeros(2, 2);
    assert_eq!(floats(z.as_slice()), vec![0.0, 0.0, 0.0, 0.0]);
}

#[test]
fn solve_in_place_replaces_the_right_hand_side() {
    let a = matrix(2, 2, vec![2.0, 2.0, 77.0, 4.0]);
    let mut b = matrix(2, 3, vec![2.0, 6.0, 4.0, 0.0, 0.0, 4.0]);
    par_solve_lower_triangular_unchecked_mut(&a, &mut b);
    assert_eq!(b.shape(), (2, 3));
    assert_eq!(floats(b.as_slice()), vec![1.0, 1.0, 2.0, -1.0, 0.0, 1.0]);
}

#[test]
fn many_cells_come_out_in_index_order() {
    let n = 37;
    let a = matrix(n, 1, (0..n).map(|v| v as f64).collect());
    let b = matrix(1, n, (0..n).map(|v| (v + 1) as f64).collect());
    let out = par_matmul(&a, &b).unwrap();
    assert_eq!(out.len(), n * n);
    for j in 0..n {
        for i in 0..n {
            assert_eq!(out[j * n + i].0, (i * (j + 1)) as f64);
        }
    }
}
