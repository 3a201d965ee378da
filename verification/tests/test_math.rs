use nkinematics::math::{to_euler_angles, try_inverse};
use nkinematics::matrix::Matrix;
use nkinematics::scalar::{
    rabs, radd, rasin, ratan2, rbits, rcos, rdiv, req, rint, rlt, rmul, rsin, rsqrt, rsub, Real,
};
use nkinematics::transform::UnitQuaternion;
use nkinematics::urdf::parse_real_bytes;

fn r(s: &str) -> Real {
    parse_real_bytes(s.as_bytes()).unwrap()
}

fn f(v: Real) -> f64 {
    f64::from_bits(rbits(v))
}

fn mat(rows: usize, cols: usize, vals: &[&str]) -> Matrix {
    assert_eq!(vals.len(), rows * cols);
    let mut data = Vec::new();
    for i in 0..rows {
        let mut row = Vec::new();
        for j in 0..cols {
            row.push(r(vals[i * cols + j]));
        }
        data.push(row);
    }
    Matrix { nrows: rows, ncols: cols, data }
}

fn ident(n: usize) -> Matrix {
    Matrix::identity(n)
}

fn assert_mat_close(a: &Matrix, b: &Matrix, tol: f64) {
    assert_eq!(a.nrows, b.nrows);
    assert_eq!(a.ncols, b.ncols);
    for i in 0..a.nrows {
        for j in 0..a.ncols {
            let d = (f(a.data[i][j]) - f(b.data[i][j])).abs();
            assert!(d < tol, "entry ({}, {}) differs by {}", i, j, d);
        }
    }
}

#[test]
fn test_to_euler_angles() {
    let q = UnitQuaternion::from_euler_angles(r("0.1"), r("0.2"), r("0.3"));
    let rpy = to_euler_angles(&q);
    assert!((f(rpy.x) - 0.1).abs() < 0.0001);
    assert!((f(rpy.y) - 0.2).abs() < 0.0001);
    assert!((f(rpy.z) - 0.3).abs() < 0.0001);
}

#[test]
fn euler_convention_matches_nalgebra() {
    let q = UnitQuaternion::from_euler_angles(r("0.1"), r("0.2"), r("0.3"));
    let nq = nalgebra::UnitQuaternion::from_euler_angles(0.1f64, 0.2, 0.3);
    assert!((f(q.w) - nq.w).abs() < 1e-12);
    assert!((f(q.x) - nq.i).abs() < 1e-12);
    assert!((f(q.y) - nq.j).abs() < 1e-12);
    assert!((f(q.z) - nq.k).abs() < 1e-12);
}

#[test]
fn try_pseudo_inverse_identity() {
    let m = ident(3);
    let p = nkinematics::math::try_pseudo_inverse(&m).unwrap();
    assert_mat_close(&p, &m, 1e-12);

    let m = ident(6);
    let p = nkinematics::math::try_pseudo_inverse(&m).unwrap();
    assert_mat_close(&p, &m, 1e-12);
}

#[test]
fn try_pseudo_inverse() {
    let m = mat(3, 3, &["1", "2", "3", "4", "2", "6", "7", "1", "1"]);
    let pseudo = nkinematics::math::try_pseudo_inverse(&m).unwrap();
    let pseudo_pseudo = nkinematics::math::try_pseudo_inverse(&pseudo).unwrap();
    assert_mat_close(&pseudo_pseudo, &m, 0.00001);
    let back = m.mul(&pseudo).mul(&m);
    assert_mat_close(&back, &m, 0.00001);
}

#[test]
fn try_pseudo_inverse_65fail() {
    let m = mat(
        6,
        5,
        &[
            "1", "2", "3", "4", "5", "6", "1", "2", "3", "4", "5", "6", "1", "2", "3", "4", "5",
            "6", "1", "2", "3", "4", "5", "6", "0", "0", "0", "0", "0", "0",
        ],
    );
    assert!(nkinematics::math::try_pseudo_inverse(&m).is_none());
}

#[test]
fn try_pseudo_inverse_56() {
    let m = mat(
        5,
        6,
        &[
            "1", "1", "1", "1", "1", "2", "2", "2", "2", "2", "3", "3", "3", "3", "3", "4", "4",
            "4", "4", "4", "5", "5", "5", "5", "5", "6", "6", "6", "6", "6",
        ],
    );
    let pseudo = nkinematics::math::try_pseudo_inverse(&m).unwrap();
    let back = m.mul(&pseudo).mul(&m);
    assert_mat_close(&back, &m, 0.00001);
}

#[test]
fn try_inverse_two_by_two() {
    let m = mat(2, 2, &["1", "2", "3", "4"]);
    let inv = try_inverse(&m).unwrap();
    assert!((f(inv.data[0][0]) + 2.0).abs() < 1e-12);
    assert!((f(inv.data[0][1]) - 1.0).abs() < 1e-12);
    assert!((f(inv.data[1][0]) - 1.5).abs() < 1e-12);
    assert!((f(inv.data[1][1]) + 0.5).abs() < 1e-12);
}

#[test]
fn try_inverse_singular_is_none() {
    let m = mat(2, 2, &["1", "2", "2", "4"]);
    assert!(try_inverse(&m).is_none());
}

#[test]
fn pitch_is_clamped_near_gimbal_lock() {
    // numerically past the pole: 2 * (w*y - z*x) comes out above one
    let q = UnitQuaternion { w: r("0.7071068"), x: r("0"), y: r("0.7071068"), z: r("0") };
    assert!(2.0 * f(q.w) * f(q.y) > 1.0);
    let rpy = to_euler_angles(&q);
    assert!(!f(rpy.y).is_nan());
    assert!((f(rpy.y) - std::f64::consts::FRAC_PI_2).abs() < 1e-9);
}

#[test]
fn scalar_ops_compute() {
    assert_eq!(f(radd(r("2"), r("3"))), 5.0);
    assert_eq!(f(rsub(r("2"), r("3"))), -1.0);
    assert_eq!(f(rmul(r("2"), r("3"))), 6.0);
    assert_eq!(f(rdiv(r("1"), r("8"))), 0.125);
    assert_eq!(f(rabs(r("-2"))), 2.0);
    assert_eq!(f(rsqrt(r("9"))), 3.0);
    assert_eq!(f(rsin(r("0"))), 0.0);
    assert_eq!(f(rcos(r("0"))), 1.0);
    assert!((f(rasin(r("1"))) - std::f64::consts::FRAC_PI_2).abs() < 1e-12);
    assert_eq!(f(ratan2(r("0"), r("1"))), 0.0);
    assert!(rlt(r("1"), r("2")));
    assert!(!rlt(r("2"), r("1")));
    assert!(req(r("2"), r("2")));
    assert!(!req(r("2"), r("3")));
    assert_eq!(f(rint(7)), 7.0);
    assert_eq!(f(rint(-7)), -7.0);
}
