use gprs::kernels::errors::{CovarianceParamLengthError, InvalidKernelError};
use gprs::kernels::kernel::TriangleSide;
use gprs::kernels::{Kernel, RBF};
use gprs::linalg::matrix::Matrix;
use gprs::parameterized::Parameterized;
use gprs::scalar::Scalar;

#[derive(Clone, Copy, Debug, PartialEq)]
struct Real(f64);

impl Scalar for Real {
    fn zero() -> Self {
        Real(0.0)
    }

    fn half() -> Self {
        Real(0.5)
    }

    fn plus(self, rhs: Self) -> Self {
        Real(self.0 + rhs.0)
    }

    fn minus(self, rhs: Self) -> Self {
        Real(self.0 - rhs.0)
    }

    fn times(self, rhs: Self) -> Self {
        Real(self.0 * rhs.0)
    }

    fn over(self, rhs: Self) -> Self {
        Real(self.0 / rhs.0)
    }

    fn negate(self) -> Self {
        Real(-self.0)
    }

    fn exp(self) -> Self {
        Real(self.0.exp())
    }
}

fn reals(v: Vec<f64>) -> Vec<Real> {
    v.into_iter().map(Real).collect()
}

fn floats(v: &[Real]) -> Vec<f64> {
    v.iter().map(|r| r.0).collect()
}

fn matrix(nrows: usize, ncols: usize, v: Vec<f64>) -> Matrix<Real> {
    Matrix::from_vec(nrows, ncols, reals(v))
}

fn create(v: Vec<f64>) -> RBF<Real> {
    RBF::new(&reals(v), Real(1.0))
}

/// Passing invalid data will return an error
#[test]
#[should_panic]
fn test_mismatched() {
    let kern = create(vec![1.0]);

    let x = matrix(2, 1, vec![1.0, 1.0]);
    let y = matrix(2, 1, vec![1.0, 1.0]);
    kern.call(&x, &y).unwrap();
}

/// Passing a zero lengthscale will produce NaN
#[test]
fn test_zero_lengthscale() {
    let kern = create(vec![0.0]);
    let x = matrix(1, 1, vec![1.0]);

    let y = matrix(1, 1, vec![1.0]);
    let k = kern.call(&x, &y).unwrap();

    assert!(k.as_slice()[0].0.is_nan());
}

/// The covariance of a point to itself is 1.0
#[test]
fn test_1d_identity() {
    let kern = create(vec![1.0]);

    let x = matrix(1, 1, vec![1.0]);
    let y = matrix(1, 1, vec![1.0]);
    let k = kern.call(&x, &y).unwrap();

    assert_eq!(k.as_slice()[0].0, 1.0);
}

/// The covariance function is commutative
#[test]
fn test_1d_symmetry() {
    let kern = create(vec![1.0]);

    let x = matrix(1, 1, vec![1.0]);
    let y = matrix(1, 1, vec![2.0]);
    let k1 = kern.call(&x, &y).unwrap();
    let k2 = kern.call(&y, &x).unwrap();

    assert_eq!(k1.shape(), k2.shape());
    assert_eq!(k1.as_slice(), k2.as_slice());
}

#[test]
fn test_1d_correctness() {
    let kern = create(vec![0.5]);
    // gamma should be -0.5 / 0.25 = -2.0

    let x = matrix(1, 1, vec![1.0]);
    let y = matrix(1, 1, vec![3.0]);
    let k = kern.call(&x, &y).unwrap();

    assert_eq!(k.as_slice()[0].0, (-8.0_f64).exp());
}

#[test]
fn test_2d_identity() {
    let kern = create(vec![1.0, 2.0]);

    let x = matrix(2, 1, vec![1.0, 1.0]);
    let y = matrix(2, 1, vec![1.0, 1.0]);
    let k = kern.call(&x, &y).unwrap();

    assert_eq!(k.as_slice()[0].0, 1.0);
}

#[test]
fn test_2d_symmetry() {
    let kern = create(vec![1.0, 2.0]);

    let x = matrix(2, 1, vec![1.0, 1.0]);
    let y = matrix(2, 1, vec![2.0, 2.0]);
    let k1 = kern.call(&x, &y).unwrap();
    let k2 = kern.call(&y, &x).unwrap();

    assert_eq!(k1.shape(), k2.shape());
    assert_eq!(k1.as_slice(), k2.as_slice());
}

#[test]
fn test_2d_correctness() {
    let kern = create(vec![0.5, 2.0]);
    // gamma = -0.5 / [0.25, 4.0] = [-2.0, -0.125]

    let x = matrix(2, 1, vec![1.0, 1.0]);
    let y = matrix(2, 1, vec![3.0, 4.0]);
    let k = kern.call(&x, &y).unwrap();

    assert_eq!(k.as_slice()[0].0, (-9.125_f64).exp());
}

#[test]
fn gamma_and_amplitude_are_stored_transformed() {
    let kern = RBF::new(&reals(vec![0.5, 2.0]), Real(3.0));
    let (gamma, amplitude) = kern.get_params();
    assert_eq!(floats(&gamma), vec![-2.0, -0.125]);
    assert_eq!(amplitude.0, 9.0);
}

#[test]
fn params_round_trip() {
    let mut kern: RBF<Real> = RBF::from_params((reals(vec![-0.5, -0.125]), Real(1.0)));
    let (gamma, amplitude) = kern.get_params();
    assert_eq!(floats(&gamma), vec![-0.5, -0.125]);
    assert_eq!(amplitude.0, 1.0);
    kern.set_params((reals(vec![-1.0]), Real(4.0)));
    let (gamma, amplitude) = kern.get_params();
    assert_eq!(floats(&gamma), vec![-1.0]);
    assert_eq!(amplitude.0, 4.0);
}

#[test]
fn call_point_scales_by_the_amplitude() {
    let kern = RBF::new(&reals(vec![1.0]), Real(2.0));
    let r = kern.call_point(&reals(vec![0.0]), &reals(vec![2.0]));
    assert_eq!(r.0, (-2.0_f64).exp() * 4.0);
}

#[test]
fn zero_amplitude_gives_zero_covariance() {
    let kern = RBF::new(&reals(vec![1.0]), Real(0.0));
    let x = matrix(1, 3, vec![0.0, 1.0, 2.0]);
    let k = kern.call(&x, &x).unwrap();
    assert!(k.as_slice().iter().all(|v| v.0 == 0.0));
}

#[test]
fn call_has_one_row_per_column_of_x() {
    let kern = create(vec![1.0, 2.0]);
    let x = matrix(2, 3, vec![1.8, 5.5, 1.5, 4.5, 2.3, 4.6]);
    let y = matrix(2, 4, vec![2.2, 3.0, 1.8, 5.5, 1.5, 4.5, 2.3, 4.6]);
    let k = kern.call(&x, &y).unwrap();
    assert_eq!(k.shape(), (3, 4));
    for i in 0..3 {
        for j in 0..4 {
            let expected = kern.call_point(&x.as_slice()[2 * i..2 * i + 2], &y.as_slice()[2 * j..2 * j + 2]);
            assert_eq!(*k.get(i, j), expected);
        }
    }
    // column 0 of x is column 1 of y
    assert_eq!(k.get(0, 1).0, 1.0);
}

#[test]
fn call_is_the_transpose_of_the_swapped_call() {
    let kern = create(vec![1.0, 2.0]);
    let x = matrix(2, 3, vec![1.8, 5.5, 1.5, 4.5, 2.3, 4.6]);
    let y = matrix(2, 4, vec![2.2, 3.0, 1.8, 5.5, 1.5, 4.5, 2.3, 4.6]);
    let kxy = kern.call(&x, &y).unwrap();
    let kyx = kern.call(&y, &x).unwrap();
    assert_eq!(kyx.shape(), (4, 3));
    for i in 0..3 {
        for j in 0..4 {
            assert_eq!(kxy.get(i, j), kyx.get(j, i));
        }
    }
}

#[test]
fn diagonal_of_call_is_call_diagonal() {
    let kern = RBF::new(&reals(vec![1.0, 2.0]), Real(1.5));
    let x = matrix(2, 3, vec![1.8, 5.5, 1.5, 4.5, 2.3, 4.6]);
    let k = kern.call(&x, &x).unwrap();
    let d = kern.call_diagonal(&x).unwrap();
    assert_eq!(floats(&d), vec![2.25, 2.25, 2.25]);
    for i in 0..3 {
        assert_eq!(*k.get(i, i), d[i]);
    }
}

#[test]
fn triangular_is_one_triangle_of_call() {
    let kern = create(vec![1.0, 2.0]);
    let x = matrix(2, 3, vec![1.8, 5.5, 1.5, 4.5, 2.3, 4.6]);
    let full = kern.call(&x, &x).unwrap();
    let lower = kern.call_triangular(&x, TriangleSide::LOWER).unwrap();
    let upper = kern.call_triangular(&x, TriangleSide::UPPER).unwrap();
    assert_eq!(lower.shape(), (3, 3));
    assert_eq!(upper.shape(), (3, 3));
    for i in 0..3 {
        for j in 0..3 {
            if i >= j {
                assert_eq!(lower.get(i, j), full.get(i, j));
            } else {
                assert_eq!(lower.get(i, j).0, 0.0);
            }
            if i <= j {
                assert_eq!(upper.get(i, j), full.get(i, j));
            } else {
                assert_eq!(upper.get(i, j).0, 0.0);
            }
        }
    }
}

#[test]
fn triangular_inplace_leaves_the_other_triangle() {
    let kern = create(vec![1.0]);
    let x = matrix(1, 2, vec![0.0, 1.0]);
    let mut into = matrix(2, 2, vec![7.0, 7.0, 7.0, 7.0]);
    kern.call_triangular_inplace(&x, TriangleSide::LOWER, &mut into).unwrap();
    assert_eq!(floats(into.as_slice()), vec![1.0, (-0.5_f64).exp(), 7.0, 1.0]);
}

#[test]
fn call_reports_all_shapes() {
    let kern = create(vec![1.0]);
    let x = matrix(2, 1, vec![1.0, 1.0]);
    let y = matrix(1, 3, vec![1.0, 1.0, 1.0]);
    let err = kern.call(&x, &y).unwrap_err();
    assert_eq!(err.shapes, vec![(2, 1), (1, 3), (1, 1), (1, 3)]);
    let err = kern.call_triangular(&x, TriangleSide::LOWER).unwrap_err();
    assert_eq!(err.shapes, vec![(2, 1), (2, 1), (1, 1), (1, 1)]);
    let err = kern.call_diagonal(&x).unwrap_err();
    assert_eq!(err.shapes, vec![(2, 1), (2, 1), (1, 1), (1, 1)]);
    assert!(kern.check_shapes((1, 4), (1, 5), (4, 5)).is_ok());
}

#[test]
fn call_inplace_does_not_touch_a_wrong_buffer() {
    let kern = create(vec![1.0]);
    let x = matrix(1, 2, vec![0.0, 1.0]);
    let mut into = matrix(1, 2, vec![7.0, 7.0]);
    let err = kern.call_inplace(&x, &x, &mut into).unwrap_err();
    assert_eq!(err.shapes, vec![(1, 2), (1, 2), (1, 1), (1, 2)]);
    assert_eq!(floats(into.as_slice()), vec![7.0, 7.0]);
    let mut into = matrix(2, 2, vec![7.0, 7.0, 7.0, 7.0]);
    kern.call_inplace(&x, &x, &mut into).unwrap();
    assert_eq!(floats(into.as_slice()), vec![1.0, (-0.5_f64).exp(), (-0.5_f64).exp(), 1.0]);
}

#[test]
fn triangle_sides_share_the_diagonal() {
    assert!(TriangleSide::LOWER.contains(2, 2));
    assert!(TriangleSide::UPPER.contains(2, 2));
    assert!(TriangleSide::LOWER.contains(3, 1));
    assert!(!TriangleSide::LOWER.contains(1, 3));
    assert!(TriangleSide::UPPER.contains(1, 3));
    assert!(!TriangleSide::UPPER.contains(3, 1));
}

#[test]
fn kernel_errors_describe_themselves() {
    assert_eq!(format!("{:?}", InvalidKernelError::NonPositiveLengthScale), "NonPositiveLengthScale");
    assert_eq!(format!("{:?}", InvalidKernelError::LengthScaleSizeInvalid), "LengthScaleSizeInvalid");
    let e = CovarianceParamLengthError { expected: 2, x_len: 3, y_len: 4 };
    assert_eq!((e.expected, e.x_len, e.y_len), (2, 3, 4));
}

#[test]
fn nan_coordinates_propagate() {
    let kern = create(vec![1.0]);
    let x = matrix(1, 2, vec![f64::NAN, 1.0]);
    let k = kern.call(&x, &x).unwrap();
    assert!(k.get(0, 0).0.is_nan());
    assert!(k.get(0, 1).0.is_nan());
    assert_eq!(k.get(1, 1).0, 1.0);
}
