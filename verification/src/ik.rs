//! The Jacobian inverse-kinematics solver.
//!
//! The solver works purely through the [`KinematicChain`] trait: it
//! estimates how the six pose components react to each joint angle by
//! finite differences, inverts that estimate, and steps the angles toward
//! the target pose.  Every iteration is mirrored by spec functions, so the
//! chain's state and the returned error are pinned for every outcome.

use vstd::prelude::*;

use crate::links::{
    angles_of, angles_ok_from, apply_angles_from, end_transform_spec, lemma_apply_keeps_structure,
    lemma_apply_overwrite, lemma_ok_same_structure, lemma_same_structure_dof, same_structure,
    JointError, KinematicChain,
};
use crate::links::LinkedJoint;
use crate::math::{euler_spec, inverse_spec, pseudo_inverse_spec, to_euler_angles, try_inverse,
    try_pseudo_inverse};
use crate::matrix::{grid_view, mat_vec_mul, mat_vec_spec, mat_wf, Matrix};
use crate::scalar::{
    radd, radd_of, rlt, rlt_of, rmul, rmul_of, rof_int, rsqrt_of, rsqrt, rint, rnonneg, rsub,
    rsub_of, Real,
};
use crate::transform::Isometry;

verus! {

/// What a solve can fail with.
#[derive(Clone, Debug, PartialEq, Eq, Structural)]
pub enum IKError {
    /// The iteration budget ran out before the error fell below tolerance.
    NotConverged,
    /// The estimated Jacobian could not be inverted.
    InverseMatrixError,
    /// The chain has fewer degrees of freedom than the solver supports.
    PreconditionError,
    /// A joint rejected an angle while the solver was moving the chain.
    JointOutOfLimit(JointError),
}

/// The difference of two vectors, elementwise.
pub open spec fn vsub_seq_spec(a: Seq<Real>, b: Seq<Real>) -> Seq<Real> {
    Seq::new(a.len(), |i: int| rsub_of(a[i], b[i]))
}

pub fn vec_sub(a: &Vec<Real>, b: &Vec<Real>) -> (r: Vec<Real>)
    requires
        b@.len() == a@.len(),
    ensures
        r@ == vsub_seq_spec(a@, b@),
{
    let mut out: Vec<Real> = Vec::new();
    let n = a.len();
    let mut i: usize = 0;
    while i < n
        invariant
            n == a@.len(),
            b@.len() == n,
            0 <= i <= n,
            out@.len() == i,
            forall|t: int| 0 <= t < i ==> out@[t] == rsub_of(a@[t], b@[t]),
        decreases n - i,
    {
        out.push(rsub(a[i], b[i]));
        i = i + 1;
    }
    proof {
        assert(out@ =~= vsub_seq_spec(a@, b@));
    }
    out
}

/// The running sum of squares of the first `k` components.
pub open spec fn sumsq_spec(v: Seq<Real>, k: int) -> Real
    decreases k,
{
    if k <= 0 {
        rof_int(0)
    } else {
        radd_of(sumsq_spec(v, k - 1), rmul_of(v[k - 1], v[k - 1]))
    }
}

/// The Euclidean norm: the square root of the sum of squares.
pub open spec fn norm_spec(v: Seq<Real>) -> Real {
    rsqrt_of(sumsq_spec(v, v.len() as int))
}

/// The norm of a vector; the sum of squares is proved non-negative, so the
/// square root is always a number.
pub fn vec_norm(v: &Vec<Real>) -> (r: Real)
    ensures
        r == norm_spec(v@),
{
    let mut acc = rint(0);
    let n = v.len();
    let mut i: usize = 0;
    while i < n
        invariant
            n == v@.len(),
            0 <= i <= n,
            acc == sumsq_spec(v@, i as int),
            rnonneg(acc),
        decreases n - i,
    {
        acc = radd(acc, rmul(v[i], v[i]));
        i = i + 1;
    }
    rsqrt(acc)
}

/// A pose as six comparable components: the translation, then roll, pitch
/// and yaw of the rotation.
pub open spec fn pose6_spec(p: Isometry) -> Seq<Real> {
    let rpy = euler_spec(p.rotation);
    seq![p.translation.x, p.translation.y, p.translation.z, rpy.x, rpy.y, rpy.z]
}

/// The six pose components of a chain state.
pub open spec fn pose6_of(base: Isometry, s: Seq<LinkedJoint>) -> Seq<Real> {
    pose6_spec(end_transform_spec(base, s))
}

pub fn calc_vector6_pose(pose: &Isometry) -> (r: Vec<Real>)
    ensures
        r@ == pose6_spec(*pose),
        r@.len() == 6,
{
    let rpy = to_euler_angles(&pose.rotation);
    let mut out: Vec<Real> = Vec::new();
    out.push(pose.translation.x);
    out.push(pose.translation.y);
    out.push(pose.translation.z);
    out.push(rpy.x);
    out.push(rpy.y);
    out.push(rpy.z);
    proof {
        assert(out@ =~= pose6_spec(*pose));
    }
    out
}

/// The angle vector with component `i` nudged by the step.
pub open spec fn col_pert(orig: Seq<Real>, eps: Real, i: int) -> Seq<Real> {
    orig.update(i, radd_of(orig[i], eps))
}

/// The first column whose nudged angles a joint rejects, or `dof` when all
/// pass.
pub open spec fn first_bad_col(
    s: Seq<LinkedJoint>,
    orig: Seq<Real>,
    eps: Real,
    i: int,
    dof: int,
) -> int
    decreases dof - i,
{
    if i >= dof {
        dof
    } else if !angles_ok_from(s, col_pert(orig, eps, i)) {
        i
    } else {
        first_bad_col(s, orig, eps, i + 1, dof)
    }
}

/// When the first `i` columns pass, the search for the first rejected one
/// can as well start at `i`.
proof fn lemma_first_bad_from(s: Seq<LinkedJoint>, orig: Seq<Real>, eps: Real, i: int, dof: int)
    requires
        0 <= i <= dof,
        forall|j: int| 0 <= j < i ==> angles_ok_from(s, col_pert(orig, eps, j)),
    ensures
        first_bad_col(s, orig, eps, 0, dof) == first_bad_col(s, orig, eps, i, dof),
    decreases i,
{
    if i > 0 {
        lemma_first_bad_from(s, orig, eps, i - 1, dof);
    }
}

/// The finite-difference columns: how the six pose components move when
/// each angle in turn is nudged by the step.  The columns are intentionally
/// left scaled by the step; the update multiplies by the step once more,
/// and the two scalings cancel to first order.
pub open spec fn jac_cols_spec(
    s: Seq<LinkedJoint>,
    base: Isometry,
    orig: Seq<Real>,
    eps: Real,
    dof: int,
) -> Seq<Seq<Real>> {
    Seq::new(
        dof as nat,
        |i: int|
            vsub_seq_spec(
                pose6_of(base, apply_angles_from(s, col_pert(orig, eps, i))),
                pose6_of(base, s),
            ),
    )
}

/// Columns laid side by side as a matrix with the given number of rows.
pub open spec fn cols_to_grid(cols: Seq<Seq<Real>>, rows: int) -> Seq<Seq<Real>> {
    Seq::new(rows as nat, |r: int| Seq::new(cols.len(), |c: int| cols[c][r]))
}

/// One whole solver iteration: the state the chain is left in, and the
/// result.  A rejected nudge or a rejected update fails with the joint's
/// error; a singular Jacobian fails with `InverseMatrixError`; otherwise
/// the distance still left to the target is returned.
#[verifier::opaque]
pub open spec fn one_loop_spec(
    s: Seq<LinkedJoint>,
    base: Isometry,
    target: Isometry,
    eps: Real,
) -> (Seq<LinkedJoint>, Result<Real, IKError>) {
    let dof = angles_of(s).len() as int;
    let orig = angles_of(s);
    let orig6 = pose6_of(base, s);
    let target6 = pose6_spec(target);
    let bad = first_bad_col(s, orig, eps, 0, dof);
    if bad < dof {
        let prev = if bad == 0 {
            s
        } else {
            apply_angles_from(s, col_pert(orig, eps, bad - 1))
        };
        (
            apply_angles_from(prev, col_pert(orig, eps, bad)),
            Err(IKError::JointOutOfLimit(JointError::OutOfLimit)),
        )
    } else {
        let jac = cols_to_grid(jac_cols_spec(s, base, orig, eps, dof), 6);
        let jinv = if dof > 6 {
            pseudo_inverse_spec(jac, 6, dof)
        } else {
            inverse_spec(jac, 6)
        };
        let last_state = apply_angles_from(s, col_pert(orig, eps, dof - 1));
        match jinv {
            Option::None => (last_state, Err(IKError::InverseMatrixError)),
            Option::Some(ji) => {
                let raw = mat_vec_spec(ji, vsub_seq_spec(target6, orig6), dof, 6);
                let newa = Seq::new(dof as nat, |i: int| radd_of(orig[i], rmul_of(raw[i], eps)));
                if angles_ok_from(s, newa) {
                    let ns = apply_angles_from(s, newa);
                    (ns, Ok(norm_spec(vsub_seq_spec(target6, pose6_of(base, ns)))))
                } else {
                    (
                        apply_angles_from(last_state, newa),
                        Err(IKError::JointOutOfLimit(JointError::OutOfLimit)),
                    )
                }
            },
        }
    }
}

/// The solver's iterations from a state, with `k` tries left: the state
/// reached, and the decision if one was reached within the budget.
pub open spec fn solve_iter_spec(
    s: Seq<LinkedJoint>,
    base: Isometry,
    target: Isometry,
    eps: Real,
    tol: Real,
    k: int,
) -> (Seq<LinkedJoint>, Option<Result<Real, IKError>>)
    decreases k,
{
    if k <= 0 {
        (s, None)
    } else {
        let step = one_loop_spec(s, base, target, eps);
        match step.1 {
            Result::Ok(d) => if rlt_of(d, tol) {
                (step.0, Some(Ok(d)))
            } else {
                solve_iter_spec(step.0, base, target, eps, tol, k - 1)
            },
            Result::Err(e) => (step.0, Some(Err(e))),
        }
    }
}

/// An inverse-kinematics solver over any chain shape.  Whatever the
/// outcome, the base transform and the chain's static shape are untouched,
/// and a chain with fewer than six degrees of freedom is rejected outright,
/// unchanged.
pub trait InverseKinematicsSolver<K: KinematicChain>: Sized {
    fn solve(&self, arm: &mut K, target_pose: &Isometry) -> (r: Result<Real, IKError>)
        ensures
            final(arm).base_view() == old(arm).base_view(),
            same_structure(final(arm).joints_view(), old(arm).joints_view()),
            angles_of(old(arm).joints_view()).len() < 6 ==> r == Err::<Real, IKError>(
                IKError::PreconditionError,
            ) && final(arm).joints_view() == old(arm).joints_view(),
    ;
}

/// The Jacobian solver: a finite-difference step size, an acceptable
/// remaining distance, and an iteration budget.
pub struct JacobianIKSolver {
    pub jacobian_move_epsilon: Real,
    pub allowable_target_distance: Real,
    pub num_max_try: i32,
}

/// Builds a matrix out of columns of equal height.
fn matrix_from_columns(cols: &Vec<Vec<Real>>, rows: usize) -> (r: Matrix)
    requires
        forall|c: int| 0 <= c < cols@.len() ==> (#[trigger] cols@[c])@.len() == rows,
    ensures
        mat_wf(r),
        r.nrows == rows,
        r.ncols == cols@.len(),
        r.view_spec() == cols_to_grid(grid_view(cols@), rows as int),
{
    let ncols = cols.len();
    let mut data: Vec<Vec<Real>> = Vec::new();
    let mut r: usize = 0;
    while r < rows
        invariant
            forall|c: int| 0 <= c < cols@.len() ==> (#[trigger] cols@[c])@.len() == rows,
            ncols == cols@.len(),
            0 <= r <= rows,
            data@.len() == r,
            forall|t: int|
                0 <= t < r ==> (#[trigger] data@[t])@ == cols_to_grid(
                    grid_view(cols@),
                    rows as int,
                )[t],
        decreases rows - r,
    {
        let mut row: Vec<Real> = Vec::new();
        let mut c: usize = 0;
        while c < ncols
            invariant
                forall|cc: int| 0 <= cc < cols@.len() ==> (#[trigger] cols@[cc])@.len() == rows,
                ncols == cols@.len(),
                r < rows,
                0 <= c <= ncols,
                row@.len() == c,
                forall|t: int| 0 <= t < c ==> row@[t] == grid_view(cols@)[t][r as int],
            decreases ncols - c,
        {
            proof {
                assert(cols@[c as int]@ == grid_view(cols@)[c as int]);
            }
            row.push(cols[c][r]);
            c = c + 1;
        }
        proof {
            assert(row@ =~= cols_to_grid(grid_view(cols@), rows as int)[r as int]);
        }
        data.push(row);
        r = r + 1;
    }
    proof {
        assert(grid_view(data@) =~= cols_to_grid(grid_view(cols@), rows as int));
    }
    Matrix { nrows: rows, ncols, data }
}

impl JacobianIKSolver {
    pub fn new(jacobian_move_epsilon: Real, allowable_target_distance: Real, num_max_try: i32)
        -> (r: JacobianIKSolver)
        ensures
            r.jacobian_move_epsilon == jacobian_move_epsilon,
            r.allowable_target_distance == allowable_target_distance,
            r.num_max_try == num_max_try,
    {
        JacobianIKSolver { jacobian_move_epsilon, allowable_target_distance, num_max_try }
    }

    /// One iteration: read the pose, build the finite-difference columns,
    /// invert (directly at six degrees of freedom, by right pseudo-inverse
    /// above six), apply the update, and report the distance left.
    fn solve_one_loop<K: KinematicChain>(&self, arm: &mut K, target_pose: &Isometry) -> (r:
        Result<Real, IKError>)
        requires
            angles_of(old(arm).joints_view()).len() >= 6,
        ensures
            ({
                let step = one_loop_spec(
                    old(arm).joints_view(),
                    old(arm).base_view(),
                    *target_pose,
                    self.jacobian_move_epsilon,
                );
                &&& final(arm).joints_view() == step.0
                &&& r == step.1
                &&& final(arm).base_view() == old(arm).base_view()
            }),
    {
        let ghost s = arm.joints_view();
        let ghost base = arm.base_view();
        let ghost eps_g = self.jacobian_move_epsilon;
        let orig_angles = arm.get_joint_angles();
        let dof = orig_angles.len();
        let ghost orig = angles_of(s);
        let orig_pose6 = calc_vector6_pose(&arm.calc_end_transform());
        let target_pose6 = calc_vector6_pose(target_pose);
        let mut jacobi_vec: Vec<Vec<Real>> = Vec::new();
        let mut i: usize = 0;
        while i < dof
            invariant
                s == old(arm).joints_view(),
                base == old(arm).base_view(),
                dof == angles_of(s).len(),
                dof >= 6,
                orig == angles_of(s),
                orig_angles@ == orig,
                orig_pose6@ == pose6_of(base, s),
                target_pose6@ == pose6_spec(*target_pose),
                eps_g == self.jacobian_move_epsilon,
                0 <= i <= dof,
                arm.base_view() == base,
                arm.joints_view() == if i == 0 {
                    s
                } else {
                    apply_angles_from(s, col_pert(orig, eps_g, i as int - 1))
                },
                forall|j: int| 0 <= j < i ==> angles_ok_from(s, col_pert(orig, eps_g, j)),
                jacobi_vec@.len() == i,
                forall|c: int|
                    0 <= c < i ==> (#[trigger] jacobi_vec@[c])@ == jac_cols_spec(
                        s,
                        base,
                        orig,
                        eps_g,
                        dof as int,
                    )[c],
            decreases dof - i,
        {
            let ghost prev = arm.joints_view();
            proof {
                lemma_apply_keeps_structure(s, col_pert(orig, eps_g, i as int - 1));
                assert(same_structure(prev, s));
                lemma_same_structure_dof(prev, s);
            }
            let mut small_diff_angles_i = crate::matrix::copy_row(&orig_angles);
            small_diff_angles_i.set(i, radd(small_diff_angles_i[i], self.jacobian_move_epsilon));
            proof {
                assert(small_diff_angles_i@ =~= col_pert(orig, eps_g, i as int));
            }
            let res = arm.set_joint_angles(&small_diff_angles_i);
            match res {
                Ok(()) => {
                    proof {
                        lemma_ok_same_structure(prev, s, col_pert(orig, eps_g, i as int));
                        if i > 0 {
                            lemma_apply_overwrite(
                                s,
                                col_pert(orig, eps_g, i as int - 1),
                                col_pert(orig, eps_g, i as int),
                            );
                        }
                    }
                },
                Err(e) => {
                    proof {
                        reveal(one_loop_spec);
                        lemma_ok_same_structure(prev, s, col_pert(orig, eps_g, i as int));
                        assert(!angles_ok_from(s, col_pert(orig, eps_g, i as int)));
                        assert(first_bad_col(s, orig, eps_g, i as int, dof as int) == i as int);
                        lemma_first_bad_from(s, orig, eps_g, i as int, dof as int);
                        assert(first_bad_col(s, orig, eps_g, 0, dof as int) == i as int);
                        assert(e == JointError::OutOfLimit);
                        assert(arm.joints_view() == one_loop_spec(
                            s,
                            base,
                            *target_pose,
                            eps_g,
                        ).0);
                    }
                    return Err(IKError::JointOutOfLimit(e));
                },
            }
            let small_pose6 = calc_vector6_pose(&arm.calc_end_transform());
            let col = vec_sub(&small_pose6, &orig_pose6);
            proof {
                assert(col@ =~= jac_cols_spec(s, base, orig, eps_g, dof as int)[i as int]);
            }
            jacobi_vec.push(col);
            i = i + 1;
        }
        proof {
            reveal(one_loop_spec);
            lemma_first_bad_from(s, orig, eps_g, dof as int, dof as int);
            assert(first_bad_col(s, orig, eps_g, 0, dof as int) == dof as int);
            assert(grid_view(jacobi_vec@) =~= jac_cols_spec(s, base, orig, eps_g, dof as int));
            assert forall|c: int| 0 <= c < jacobi_vec@.len() implies (#[trigger] jacobi_vec@[
                c
            ])@.len() == 6 by {
                assert(jacobi_vec@[c]@ == jac_cols_spec(s, base, orig, eps_g, dof as int)[c]);
            }
        }
        let jacobi = matrix_from_columns(&jacobi_vec, 6);
        let j_inv = if dof > 6 {
            match try_pseudo_inverse(&jacobi) {
                Some(m) => m,
                None => {
                    proof {
                        reveal(one_loop_spec);
                    }
                    return Err(IKError::InverseMatrixError);
                },
            }
        } else {
            match try_inverse(&jacobi) {
                Some(m) => m,
                None => {
                    proof {
                        reveal(one_loop_spec);
                    }
                    return Err(IKError::InverseMatrixError);
                },
            }
        };
        let diff_raw = mat_vec_mul(&j_inv, &vec_sub(&target_pose6, &orig_pose6));
        let ghost raw = mat_vec_spec(
            j_inv.view_spec(),
            vsub_seq_spec(target_pose6@, orig_pose6@),
            dof as int,
            6,
        );
        let mut angles_vec: Vec<Real> = Vec::new();
        let mut t: usize = 0;
        while t < dof
            invariant
                dof == orig_angles@.len(),
                diff_raw@.len() == dof,
                diff_raw@ == raw,
                orig_angles@ == orig,
                eps_g == self.jacobian_move_epsilon,
                0 <= t <= dof,
                angles_vec@.len() == t,
                forall|u: int|
                    0 <= u < t ==> angles_vec@[u] == radd_of(orig[u], rmul_of(raw[u], eps_g)),
            decreases dof - t,
        {
            angles_vec.push(radd(orig_angles[t], rmul(diff_raw[t], self.jacobian_move_epsilon)));
            t = t + 1;
        }
        let ghost newa = Seq::new(
            angles_of(s).len(),
            |u: int| radd_of(angles_of(s)[u], rmul_of(raw[u], eps_g)),
        );
        proof {
            assert(angles_vec@ =~= newa);
        }
        let ghost prev = arm.joints_view();
        proof {
            lemma_apply_keeps_structure(s, col_pert(orig, eps_g, dof as int - 1));
            assert(same_structure(prev, s));
            lemma_same_structure_dof(prev, s);
        }
        let res = arm.set_joint_angles(&angles_vec);
        match res {
            Ok(()) => {
                proof {
                    reveal(one_loop_spec);
                    lemma_ok_same_structure(prev, s, newa);
                    lemma_apply_overwrite(s, col_pert(orig, eps_g, dof as int - 1), newa);
                }
            },
            Err(e) => {
                proof {
                    reveal(one_loop_spec);
                    lemma_ok_same_structure(prev, s, newa);
                    assert(e == JointError::OutOfLimit);
                }
                return Err(IKError::JointOutOfLimit(e));
            },
        }
        let new_pose6 = calc_vector6_pose(&arm.calc_end_transform());
        let dist = vec_norm(&vec_sub(&target_pose6, &new_pose6));
        Ok(dist)
    }
}

impl<K: KinematicChain> InverseKinematicsSolver<K> for JacobianIKSolver {
    /// Runs up to `num_max_try` iterations; on convergence the distance
    /// left is below the allowable one.  When the budget runs out, the
    /// starting angles are restored and `NotConverged` is returned - unless
    /// the restoration itself trips a limit, in which case that error
    /// surfaces instead of `NotConverged`; the contract states both ways.
    fn solve(&self, arm: &mut K, target_pose: &Isometry) -> (r: Result<Real, IKError>)
        ensures
            ({
                let s0 = old(arm).joints_view();
                let base = old(arm).base_view();
                let dof = angles_of(s0).len();
                &&& (dof >= 6 ==> {
                    let iter = solve_iter_spec(
                        s0,
                        base,
                        *target_pose,
                        self.jacobian_move_epsilon,
                        self.allowable_target_distance,
                        self.num_max_try as int,
                    );
                    match iter.1 {
                        Some(res) => r == res && final(arm).joints_view() == iter.0,
                        None => {
                            &&& final(arm).joints_view() == apply_angles_from(
                                iter.0,
                                angles_of(s0),
                            )
                            &&& (angles_ok_from(s0, angles_of(s0)) ==> r == Err::<Real, IKError>(
                                IKError::NotConverged,
                            ))
                            &&& (!angles_ok_from(s0, angles_of(s0)) ==> r == Err::<Real, IKError>(
                                IKError::JointOutOfLimit(JointError::OutOfLimit),
                            ))
                        },
                    }
                })
                &&& (r matches Ok(d) ==> rlt_of(d, self.allowable_target_distance))
            }),
    {
        let ghost s0 = arm.joints_view();
        let ghost base = arm.base_view();
        let ghost eps_g = self.jacobian_move_epsilon;
        let ghost tol_g = self.allowable_target_distance;
        let orig_angles = arm.get_joint_angles();
        if orig_angles.len() < 6 {
            return Err(IKError::PreconditionError);
        }
        let n_try = self.num_max_try;
        let mut t: i32 = 0;
        while t < n_try
            invariant
                s0 == old(arm).joints_view(),
                base == old(arm).base_view(),
                orig_angles@ == angles_of(s0),
                orig_angles@.len() >= 6,
                eps_g == self.jacobian_move_epsilon,
                tol_g == self.allowable_target_distance,
                n_try == self.num_max_try,
                0 <= t,
                t <= n_try || t == 0,
                arm.base_view() == base,
                same_structure(arm.joints_view(), s0),
                angles_of(arm.joints_view()).len() == angles_of(s0).len(),
                solve_iter_spec(s0, base, *target_pose, eps_g, tol_g, n_try as int)
                    == solve_iter_spec(
                    arm.joints_view(),
                    base,
                    *target_pose,
                    eps_g,
                    tol_g,
                    n_try as int - t as int,
                ),
            decreases n_try - t,
        {
            let ghost cur = arm.joints_view();
            let step = self.solve_one_loop(arm, target_pose);
            proof {
                let sp = one_loop_spec(cur, base, *target_pose, eps_g);
                lemma_one_loop_structure(cur, base, *target_pose, eps_g);
                assert(same_structure(arm.joints_view(), cur));
                assert(same_structure(arm.joints_view(), s0));
                lemma_same_structure_dof(arm.joints_view(), s0);
            }
            match step {
                Ok(target_distance) => {
                    if rlt(target_distance, self.allowable_target_distance) {
                        return Ok(target_distance);
                    }
                },
                Err(e) => {
                    return Err(e);
                },
            }
            t = t + 1;
        }
        let ghost stf = arm.joints_view();
        proof {
            assert(solve_iter_spec(stf, base, *target_pose, eps_g, tol_g, 0) == (
                stf,
                None::<Result<Real, IKError>>,
            ));
            lemma_ok_same_structure(stf, s0, angles_of(s0));
        }
        let res = arm.set_joint_angles(&orig_angles);
        proof {
            lemma_apply_keeps_structure(stf, orig_angles@);
            lemma_structure_trans(arm.joints_view(), stf, s0);
        }
        match res {
            Ok(()) => Err(IKError::NotConverged),
            Err(e) => {
                proof {
                    assert(e == JointError::OutOfLimit);
                }
                Err(IKError::JointOutOfLimit(e))
            },
        }
    }
}

/// Shared shape carries across a middle chain.
proof fn lemma_structure_trans(a: Seq<LinkedJoint>, b: Seq<LinkedJoint>, c: Seq<LinkedJoint>)
    requires
        same_structure(a, b),
        same_structure(b, c),
    ensures
        same_structure(a, c),
{
}

/// One solver iteration leaves the chain's static shape alone.
proof fn lemma_one_loop_structure(s: Seq<LinkedJoint>, base: Isometry, target: Isometry, eps: Real)
    ensures
        same_structure(one_loop_spec(s, base, target, eps).0, s),
{
    reveal(one_loop_spec);
    let dof = angles_of(s).len() as int;
    let orig = angles_of(s);
    let bad = first_bad_col(s, orig, eps, 0, dof);
    if bad < dof {
        let prev = if bad == 0 {
            s
        } else {
            apply_angles_from(s, col_pert(orig, eps, bad - 1))
        };
        lemma_apply_keeps_structure(s, col_pert(orig, eps, bad - 1));
        lemma_apply_keeps_structure(prev, col_pert(orig, eps, bad));
    } else {
        let last_state = apply_angles_from(s, col_pert(orig, eps, dof - 1));
        lemma_apply_keeps_structure(s, col_pert(orig, eps, dof - 1));
        let jac = cols_to_grid(jac_cols_spec(s, base, orig, eps, dof), 6);
        let jinv = if dof > 6 {
            pseudo_inverse_spec(jac, 6, dof)
        } else {
            inverse_spec(jac, 6)
        };
        match jinv {
            Option::None => {},
            Option::Some(ji) => {
                let raw = mat_vec_spec(
                    ji,
                    vsub_seq_spec(pose6_spec(target), pose6_of(base, s)),
                    dof,
                    6,
                );
                let newa = Seq::new(dof as nat, |i: int| radd_of(orig[i], rmul_of(raw[i], eps)));
                lemma_apply_keeps_structure(s, newa);
                lemma_apply_keeps_structure(last_state, newa);
            },
        }
    }
}

} // verus!
