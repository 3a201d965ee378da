//! Numeric helpers: roll/pitch/yaw extraction and matrix inversion.
//!
//! The inverse is a Gauss-Jordan elimination with partial pivoting, mirrored
//! step for step by spec functions, so that success, failure and the
//! computed entries are all pinned down; the pseudo-inverse builds on it.

use vstd::prelude::*;

use crate::matrix::{
    axpy_row_spec, copy_row, div_row_spec, grid_view, id_spec, mat_mul_spec, mat_wf, row_axpy,
    row_div, transpose_spec, Matrix,
};
use crate::scalar::{
    rabs, rabs_of, radd, radd_of, rasin, rasin_of, ratan2, ratan2_of, req, req_of, rint, rlt,
    rlt_of, rmul, rmul_of, rof_int, rsub, rsub_of, Real,
};
use crate::transform::{UnitQuaternion, Vector3};

verus! {

/// A value pulled back into `[-1, 1]`: anything above one becomes one,
/// anything below minus one becomes minus one.
pub open spec fn clamp_unit_spec(t: Real) -> Real {
    if rlt_of(rof_int(1), t) {
        rof_int(1)
    } else if rlt_of(t, rof_int(-1)) {
        rof_int(-1)
    } else {
        t
    }
}

/// The clamped value always lies in the arcsine's domain, whatever the
/// input was; this is what keeps the pitch extraction from ever producing
/// a not-a-number near gimbal lock.
pub proof fn lemma_clamp_in_asin_domain(t: Real)
    ensures
        clamp_unit_spec(t) == rof_int(1) || clamp_unit_spec(t) == rof_int(-1) || (!rlt_of(
            rof_int(1),
            clamp_unit_spec(t),
        ) && !rlt_of(clamp_unit_spec(t), rof_int(-1))),
{
}

pub fn clamp_unit(t: Real) -> (r: Real)
    ensures
        r == clamp_unit_spec(t),
{
    let one = rint(1);
    let neg_one = rint(-1);
    if rlt(one, t) {
        one
    } else if rlt(t, neg_one) {
        neg_one
    } else {
        t
    }
}

/// Roll, pitch and yaw of a rotation, with the pitch argument clamped.
pub open spec fn euler_spec(q: UnitQuaternion) -> Vector3 {
    let one = rof_int(1);
    let two = rof_int(2);
    let ysqr = rmul_of(q.y, q.y);
    let t0 = rmul_of(two, radd_of(rmul_of(q.w, q.x), rmul_of(q.y, q.z)));
    let t1 = rsub_of(one, rmul_of(two, radd_of(rmul_of(q.x, q.x), ysqr)));
    let t2 = clamp_unit_spec(rmul_of(two, rsub_of(rmul_of(q.w, q.y), rmul_of(q.z, q.x))));
    let t3 = rmul_of(two, radd_of(rmul_of(q.w, q.z), rmul_of(q.x, q.y)));
    let t4 = rsub_of(one, rmul_of(two, radd_of(ysqr, rmul_of(q.z, q.z))));
    Vector3 { x: ratan2_of(t0, t1), y: rasin_of(t2), z: ratan2_of(t3, t4) }
}

/// Extracts roll about x, pitch about y and yaw about z from a rotation.
/// The arcsine's argument is clamped into its domain first, so the call is
/// safe for every quaternion, unit or numerically perturbed.
pub fn to_euler_angles(q: &UnitQuaternion) -> (r: Vector3)
    ensures
        r == euler_spec(*q),
{
    let one = rint(1);
    let two = rint(2);
    let ysqr = rmul(q.y, q.y);

    let t0 = rmul(two, radd(rmul(q.w, q.x), rmul(q.y, q.z)));
    let t1 = rsub(one, rmul(two, radd(rmul(q.x, q.x), ysqr)));
    let roll = ratan2(t0, t1);

    let t2 = clamp_unit(rmul(two, rsub(rmul(q.w, q.y), rmul(q.z, q.x))));
    proof {
        lemma_clamp_in_asin_domain(rmul_of(rof_int(2), rsub_of(rmul_of(q.w, q.y), rmul_of(
            q.z,
            q.x,
        ))));
    }
    let pitch = rasin(t2);

    let t3 = rmul(two, radd(rmul(q.w, q.z), rmul(q.x, q.y)));
    let t4 = rsub(one, rmul(two, radd(ysqr, rmul(q.z, q.z))));
    let yaw = ratan2(t3, t4);

    Vector3 { x: roll, y: pitch, z: yaw }
}

/// The row in `[from, n)` whose entry in column `c` has the largest
/// absolute value; the first such row on ties.
pub open spec fn argmax_abs_spec(g: Seq<Seq<Real>>, c: int, from: int, n: int) -> int
    decreases n - from,
{
    if from >= n - 1 {
        from
    } else {
        let rest = argmax_abs_spec(g, c, from + 1, n);
        if rlt_of(rabs_of(g[from][c]), rabs_of(g[rest][c])) {
            rest
        } else {
            from
        }
    }
}

/// Rows `c` and `p` exchanged.
pub open spec fn gj_swap(a: Seq<Seq<Real>>, c: int, p: int) -> Seq<Seq<Real>> {
    a.update(c, a[p]).update(p, a[c])
}

/// Row `c` divided by the pivot.
pub open spec fn gj_scale(a: Seq<Seq<Real>>, c: int, piv: Real) -> Seq<Seq<Real>> {
    a.update(c, div_row_spec(a[c], piv))
}

/// Every row but `c` cleared in column `c`, with the factors read from `f`.
pub open spec fn gj_elim(x: Seq<Seq<Real>>, f: Seq<Seq<Real>>, c: int) -> Seq<Seq<Real>> {
    Seq::new(
        x.len(),
        |r: int|
            if r == c {
                x[c]
            } else {
                axpy_row_spec(x[r], f[r][c], x[c])
            },
    )
}

/// One Gauss-Jordan run from column `c` on, carrying the matrix being
/// reduced and the inverse being built: pick the largest pivot, fail when
/// it equals zero, else swap, scale the pivot row, and eliminate the column
/// from every other row.
pub open spec fn gj_from(a: Seq<Seq<Real>>, inv: Seq<Seq<Real>>, c: int, n: int) -> Option<
    Seq<Seq<Real>>,
>
    decreases n - c,
{
    if c < 0 || c >= n {
        Some(inv)
    } else {
        let p = argmax_abs_spec(a, c, c, n);
        if req_of(a[p][c], rof_int(0)) {
            None
        } else {
            let a1 = gj_swap(a, c, p);
            let i1 = gj_swap(inv, c, p);
            let piv = a1[c][c];
            let a2 = gj_scale(a1, c, piv);
            let i2 = gj_scale(i1, c, piv);
            gj_from(gj_elim(a2, a2, c), gj_elim(i2, a2, c), c + 1, n)
        }
    }
}

/// The inverse of a square grid, or nothing when a pivot vanishes.
pub open spec fn inverse_spec(g: Seq<Seq<Real>>, n: int) -> Option<Seq<Seq<Real>>> {
    gj_from(g, id_spec(n), 0, n)
}

/// The right pseudo-inverse `Jt * (J * Jt)^-1` of a grid with `rows` rows
/// and `cols` columns, or nothing when the square factor is singular.
pub open spec fn pseudo_inverse_spec(g: Seq<Seq<Real>>, rows: int, cols: int) -> Option<
    Seq<Seq<Real>>,
> {
    let gt = transpose_spec(g, rows, cols);
    let sq = mat_mul_spec(g, gt, rows, cols);
    match inverse_spec(sq, rows) {
        Some(m) => Some(mat_mul_spec(gt, m, rows, rows)),
        None => None,
    }
}

/// Mirrors `argmax_abs_spec` by direct recursion.
fn find_pivot(a: &Vec<Vec<Real>>, c: usize, from: usize, n: usize) -> (p: usize)
    requires
        a@.len() == n,
        forall|t: int| 0 <= t < n ==> (#[trigger] a@[t])@.len() == n,
        c < n,
        from < n,
    ensures
        from <= p < n,
        p == argmax_abs_spec(grid_view(a@), c as int, from as int, n as int),
    decreases n - from,
{
    if from >= n - 1 {
        from
    } else {
        let rest = find_pivot(a, c, from + 1, n);
        if rlt(rabs(a[from][c]), rabs(a[rest][c])) {
            rest
        } else {
            from
        }
    }
}

/// The inverse of a square matrix by Gauss-Jordan elimination with partial
/// pivoting, or `None` when the best pivot of some column is exactly zero.
pub fn try_inverse(m: &Matrix) -> (r: Option<Matrix>)
    requires
        mat_wf(*m),
        m.nrows == m.ncols,
    ensures
        ({
            let spec = inverse_spec(m.view_spec(), m.nrows as int);
            match r {
                Some(inv) => {
                    &&& mat_wf(inv)
                    &&& inv.nrows == m.nrows
                    &&& inv.ncols == m.nrows
                    &&& spec == Some(inv.view_spec())
                },
                None => spec is None,
            }
        }),
{
    let n = m.nrows;
    let ghost g0 = m.view_spec();

    // working copies: the matrix being reduced and the inverse being built
    let mut a: Vec<Vec<Real>> = Vec::new();
    let mut i: usize = 0;
    while i < n
        invariant
            mat_wf(*m),
            g0 == m.view_spec(),
            m.nrows == n,
            m.ncols == n,
            0 <= i <= n,
            a@.len() == i,
            forall|t: int| 0 <= t < i ==> (#[trigger] a@[t])@ == g0[t],
        decreases n - i,
    {
        proof {
            assert(m.data@[i as int]@ == g0[i as int]);
        }
        a.push(copy_row(&m.data[i]));
        i = i + 1;
    }
    proof {
        assert(grid_view(a@) =~= g0);
    }
    let id = Matrix::identity(n);
    let mut inv: Vec<Vec<Real>> = id.data;
    proof {
        assert(grid_view(inv@) == id_spec(n as int));
        assert forall|t: int| 0 <= t < n implies (#[trigger] a@[t])@.len() == n by {
            assert(grid_view(a@)[t] == a@[t]@);
            assert(g0[t].len() == n);
        }
        assert forall|t: int| 0 <= t < n implies (#[trigger] inv@[t])@.len() == n by {
            assert(grid_view(inv@)[t] == inv@[t]@);
            assert(id_spec(n as int)[t].len() == n);
        }
    }

    let mut c: usize = 0;
    while c < n
        invariant
            mat_wf(*m),
            g0 == m.view_spec(),
            m.nrows == n,
            m.ncols == n,
            0 <= c <= n,
            a@.len() == n,
            inv@.len() == n,
            forall|t: int| 0 <= t < n ==> (#[trigger] a@[t])@.len() == n,
            forall|t: int| 0 <= t < n ==> (#[trigger] inv@[t])@.len() == n,
            gj_from(g0, id_spec(n as int), 0, n as int) == gj_from(
                grid_view(a@),
                grid_view(inv@),
                c as int,
                n as int,
            ),
        decreases n - c,
    {
        let ghost ga = grid_view(a@);
        let ghost gi = grid_view(inv@);
        let p = find_pivot(&a, c, c, n);
        proof {
            assert(a@[p as int]@ == ga[p as int]);
        }
        if req(a[p][c], rint(0)) {
            proof {
                assert(gj_from(ga, gi, c as int, n as int) is None);
            }
            return None;
        }
        // swap rows c and p in both
        let rc = copy_row(&a[c]);
        let rp = copy_row(&a[p]);
        a.set(c, rp);
        a.set(p, rc);
        let sc = copy_row(&inv[c]);
        let sp = copy_row(&inv[p]);
        inv.set(c, sp);
        inv.set(p, sc);
        let ghost ga1 = gj_swap(ga, c as int, p as int);
        let ghost gi1 = gj_swap(gi, c as int, p as int);
        proof {
            assert(grid_view(a@) =~= ga1);
            assert(grid_view(inv@) =~= gi1);
        }
        // scale the pivot row
        let piv = a[c][c];
        proof {
            assert(a@[c as int]@ == ga1[c as int]);
            assert(piv == ga1[c as int][c as int]);
            assert(piv == ga[p as int][c as int]);
        }
        let ra = row_div(&a[c], piv);
        a.set(c, ra);
        let ri = row_div(&inv[c], piv);
        inv.set(c, ri);
        let ghost ga2 = gj_scale(ga1, c as int, piv);
        let ghost gi2 = gj_scale(gi1, c as int, piv);
        proof {
            assert(grid_view(a@) =~= ga2);
            assert(grid_view(inv@) =~= gi2);
        }
        // eliminate the column from every other row
        let pra = copy_row(&a[c]);
        let pri = copy_row(&inv[c]);
        proof {
            assert(pra@ == ga2[c as int]);
            assert(pri@ == gi2[c as int]);
        }
        let mut r: usize = 0;
        while r < n
            invariant
                0 <= r <= n,
                c < n,
                a@.len() == n,
                inv@.len() == n,
                pra@ == ga2[c as int],
                pri@ == gi2[c as int],
                ga2.len() == n,
                gi2.len() == n,
                forall|t: int| 0 <= t < n ==> (#[trigger] ga2[t]).len() == n,
                forall|t: int| 0 <= t < n ==> (#[trigger] gi2[t]).len() == n,
                forall|t: int|
                    0 <= t < n ==> (#[trigger] a@[t])@ == if t == c as int {
                        ga2[c as int]
                    } else if t < r {
                        axpy_row_spec(ga2[t], ga2[t][c as int], ga2[c as int])
                    } else {
                        ga2[t]
                    },
                forall|t: int|
                    0 <= t < n ==> (#[trigger] inv@[t])@ == if t == c as int {
                        gi2[c as int]
                    } else if t < r {
                        axpy_row_spec(gi2[t], ga2[t][c as int], gi2[c as int])
                    } else {
                        gi2[t]
                    },
            decreases n - r,
        {
            if r != c {
                let f = a[r][c];
                proof {
                    assert(a@[r as int]@ == ga2[r as int]);
                    assert(f == ga2[r as int][c as int]);
                }
                let na = row_axpy(&a[r], f, &pra);
                a.set(r, na);
                let ni = row_axpy(&inv[r], f, &pri);
                inv.set(r, ni);
            }
            r = r + 1;
        }
        let ghost ga3 = gj_elim(ga2, ga2, c as int);
        let ghost gi3 = gj_elim(gi2, ga2, c as int);
        proof {
            assert(grid_view(a@) =~= ga3);
            assert(grid_view(inv@) =~= gi3);
            assert(gj_from(ga, gi, c as int, n as int) == gj_from(
                ga3,
                gi3,
                c as int + 1,
                n as int,
            ));
        }
        c = c + 1;
    }
    proof {
        assert(gj_from(grid_view(a@), grid_view(inv@), n as int, n as int) == Some(
            grid_view(inv@),
        ));
    }
    Some(Matrix { nrows: n, ncols: n, data: inv })
}

/// The right pseudo-inverse `Jt * (J * Jt)^-1`, used when a system has more
/// columns than rows; `None` when `J * Jt` is singular.
pub fn try_pseudo_inverse(m: &Matrix) -> (r: Option<Matrix>)
    requires
        mat_wf(*m),
    ensures
        ({
            let spec = pseudo_inverse_spec(m.view_spec(), m.nrows as int, m.ncols as int);
            match r {
                Some(pinv) => {
                    &&& mat_wf(pinv)
                    &&& pinv.nrows == m.ncols
                    &&& pinv.ncols == m.nrows
                    &&& spec == Some(pinv.view_spec())
                },
                None => spec is None,
            }
        }),
{
    let mt = m.transpose();
    let sq = m.mul(&mt);
    match try_inverse(&sq) {
        Some(inv) => Some(mt.mul(&inv)),
        None => None,
    }
}

} // verus!
