//! Dense matrices of scalars, sized at run time.
//!
//! A matrix is a row-major grid of [`Real`]s; its spec side is a
//! `Seq<Seq<Real>>`, and every operation is pinned elementwise to the named
//! scalar operations.

use vstd::prelude::*;

use crate::scalar::{radd, radd_of, rdiv, rdiv_of, req_of, rint, rmul, rmul_of, rof_int, rsub,
    rsub_of, Real};

verus! {

/// A row-major matrix.
pub struct Matrix {
    pub nrows: usize,
    pub ncols: usize,
    pub data: Vec<Vec<Real>>,
}

/// The spec view of the grid: a sequence of rows.
pub open spec fn grid_view(data: Seq<Vec<Real>>) -> Seq<Seq<Real>> {
    data.map_values(|row: Vec<Real>| row@)
}

/// A well-formed grid: every row has the same length.
pub open spec fn grid_wf(g: Seq<Seq<Real>>, rows: int, cols: int) -> bool {
    &&& g.len() == rows
    &&& forall|i: int| 0 <= i < rows ==> #[trigger] g[i].len() == cols
}

pub open spec fn mat_wf(m: Matrix) -> bool {
    grid_wf(grid_view(m.data@), m.nrows as int, m.ncols as int)
}

impl Matrix {
    pub open spec fn view_spec(&self) -> Seq<Seq<Real>> {
        grid_view(self.data@)
    }
}

/// The running dot product of row `i` of `a` with column `j` of `b`, over
/// the first `k` terms, summed left to right from zero.
pub open spec fn dot_spec(a: Seq<Seq<Real>>, b: Seq<Seq<Real>>, i: int, j: int, k: int) -> Real
    decreases k,
{
    if k <= 0 {
        rof_int(0)
    } else {
        radd_of(dot_spec(a, b, i, j, k - 1), rmul_of(a[i][k - 1], b[k - 1][j]))
    }
}

pub open spec fn transpose_spec(g: Seq<Seq<Real>>, rows: int, cols: int) -> Seq<Seq<Real>> {
    Seq::new(cols as nat, |j: int| Seq::new(rows as nat, |i: int| g[i][j]))
}

pub open spec fn mat_mul_spec(a: Seq<Seq<Real>>, b: Seq<Seq<Real>>, cols_b: int, inner: int)
    -> Seq<Seq<Real>> {
    Seq::new(a.len(), |i: int| Seq::new(cols_b as nat, |j: int| dot_spec(a, b, i, j, inner)))
}

/// The identity grid of size `n`.
pub open spec fn id_spec(n: int) -> Seq<Seq<Real>> {
    Seq::new(n as nat, |i: int| Seq::new(n as nat, |j: int| if i == j {
        rof_int(1)
    } else {
        rof_int(0)
    }))
}

/// A row minus a multiple of another row, elementwise.
pub open spec fn axpy_row_spec(row: Seq<Real>, factor: Real, p: Seq<Real>) -> Seq<Real> {
    Seq::new(row.len(), |j: int| rsub_of(row[j], rmul_of(factor, p[j])))
}

/// A row divided by a pivot, elementwise.
pub open spec fn div_row_spec(row: Seq<Real>, piv: Real) -> Seq<Real> {
    Seq::new(row.len(), |j: int| rdiv_of(row[j], piv))
}

/// A fresh copy of a row.
pub fn copy_row(row: &Vec<Real>) -> (r: Vec<Real>)
    ensures
        r@ == row@,
{
    let mut out: Vec<Real> = Vec::new();
    let n = row.len();
    let mut j: usize = 0;
    while j < n
        invariant
            n == row@.len(),
            0 <= j <= n,
            out@ == row@.take(j as int),
        decreases n - j,
    {
        out.push(row[j]);
        proof {
            assert(row@.take(j as int + 1) =~= row@.take(j as int).push(row@[j as int]));
        }
        j = j + 1;
    }
    proof {
        assert(row@.take(n as int) =~= row@);
    }
    out
}

pub fn row_axpy(row: &Vec<Real>, factor: Real, p: &Vec<Real>) -> (r: Vec<Real>)
    requires
        p@.len() == row@.len(),
    ensures
        r@ == axpy_row_spec(row@, factor, p@),
{
    let mut out: Vec<Real> = Vec::new();
    let n = row.len();
    let mut j: usize = 0;
    while j < n
        invariant
            n == row@.len(),
            p@.len() == n,
            0 <= j <= n,
            out@.len() == j,
            forall|t: int| 0 <= t < j ==> out@[t] == rsub_of(row@[t], rmul_of(factor, p@[t])),
        decreases n - j,
    {
        out.push(rsub(row[j], rmul(factor, p[j])));
        j = j + 1;
    }
    proof {
        assert(out@ =~= axpy_row_spec(row@, factor, p@));
    }
    out
}

pub fn row_div(row: &Vec<Real>, piv: Real) -> (r: Vec<Real>)
    requires
        !req_of(piv, rof_int(0)),
    ensures
        r@ == div_row_spec(row@, piv),
{
    let mut out: Vec<Real> = Vec::new();
    let n = row.len();
    let mut j: usize = 0;
    while j < n
        invariant
            n == row@.len(),
            !req_of(piv, rof_int(0)),
            0 <= j <= n,
            out@.len() == j,
            forall|t: int| 0 <= t < j ==> out@[t] == rdiv_of(row@[t], piv),
        decreases n - j,
    {
        out.push(rdiv(row[j], piv));
        j = j + 1;
    }
    proof {
        assert(out@ =~= div_row_spec(row@, piv));
    }
    out
}

impl Matrix {
    /// The identity matrix of size `n`.
    pub fn identity(n: usize) -> (r: Matrix)
        ensures
            mat_wf(r),
            r.nrows == n,
            r.ncols == n,
            r.view_spec() == id_spec(n as int),
    {
        let mut data: Vec<Vec<Real>> = Vec::new();
        let mut i: usize = 0;
        while i < n
            invariant
                0 <= i <= n,
                data@.len() == i,
                forall|t: int| 0 <= t < i ==> (#[trigger] data@[t])@ == id_spec(n as int)[t],
            decreases n - i,
        {
            let mut row: Vec<Real> = Vec::new();
            let mut j: usize = 0;
            while j < n
                invariant
                    0 <= j <= n,
                    i < n,
                    row@.len() == j,
                    forall|t: int|
                        0 <= t < j ==> row@[t] == if i == t {
                            rof_int(1)
                        } else {
                            rof_int(0)
                        },
                decreases n - j,
            {
                if j == i {
                    row.push(rint(1));
                } else {
                    row.push(rint(0));
                }
                j = j + 1;
            }
            proof {
                assert(row@ =~= id_spec(n as int)[i as int]);
            }
            data.push(row);
            i = i + 1;
        }
        proof {
            assert(grid_view(data@) =~= id_spec(n as int));
        }
        Matrix { nrows: n, ncols: n, data }
    }

    pub fn transpose(&self) -> (r: Matrix)
        requires
            mat_wf(*self),
        ensures
            mat_wf(r),
            r.nrows == self.ncols,
            r.ncols == self.nrows,
            r.view_spec() == transpose_spec(self.view_spec(), self.nrows as int, self.ncols as int),
    {
        let ghost g = self.view_spec();
        let mut data: Vec<Vec<Real>> = Vec::new();
        let rows = self.nrows;
        let cols = self.ncols;
        let mut j: usize = 0;
        while j < cols
            invariant
                mat_wf(*self),
                g == self.view_spec(),
                rows == self.nrows,
                cols == self.ncols,
                0 <= j <= cols,
                data@.len() == j,
                forall|t: int|
                    0 <= t < j ==> (#[trigger] data@[t])@ == transpose_spec(
                        g,
                        rows as int,
                        cols as int,
                    )[t],
            decreases cols - j,
        {
            let mut row: Vec<Real> = Vec::new();
            let mut i: usize = 0;
            while i < rows
                invariant
                    mat_wf(*self),
                    g == self.view_spec(),
                    rows == self.nrows,
                    cols == self.ncols,
                    j < cols,
                    0 <= i <= rows,
                    row@.len() == i,
                    forall|t: int| 0 <= t < i ==> row@[t] == g[t][j as int],
                decreases rows - i,
            {
                proof {
                    assert(self.data@[i as int]@ == g[i as int]);
                }
                row.push(self.data[i][j]);
                i = i + 1;
            }
            proof {
                assert(row@ =~= transpose_spec(g, rows as int, cols as int)[j as int]);
            }
            data.push(row);
            j = j + 1;
        }
        proof {
            assert(grid_view(data@) =~= transpose_spec(g, rows as int, cols as int));
        }
        Matrix { nrows: cols, ncols: rows, data }
    }

    pub fn mul(&self, b: &Matrix) -> (r: Matrix)
        requires
            mat_wf(*self),
            mat_wf(*b),
            self.ncols == b.nrows,
        ensures
            mat_wf(r),
            r.nrows == self.nrows,
            r.ncols == b.ncols,
            r.view_spec() == mat_mul_spec(
                self.view_spec(),
                b.view_spec(),
                b.ncols as int,
                self.ncols as int,
            ),
    {
        let ghost ga = self.view_spec();
        let ghost gb = b.view_spec();
        let mut data: Vec<Vec<Real>> = Vec::new();
        let rows = self.nrows;
        let cols = b.ncols;
        let inner = self.ncols;
        let mut i: usize = 0;
        while i < rows
            invariant
                mat_wf(*self),
                mat_wf(*b),
                ga == self.view_spec(),
                gb == b.view_spec(),
                rows == self.nrows,
                cols == b.ncols,
                inner == self.ncols,
                inner == b.nrows,
                0 <= i <= rows,
                data@.len() == i,
                forall|t: int|
                    0 <= t < i ==> (#[trigger] data@[t])@ == mat_mul_spec(
                        ga,
                        gb,
                        cols as int,
                        inner as int,
                    )[t],
            decreases rows - i,
        {
            let mut row: Vec<Real> = Vec::new();
            let mut j: usize = 0;
            while j < cols
                invariant
                    mat_wf(*self),
                    mat_wf(*b),
                    ga == self.view_spec(),
                    gb == b.view_spec(),
                    rows == self.nrows,
                    cols == b.ncols,
                    inner == self.ncols,
                    inner == b.nrows,
                    i < rows,
                    0 <= j <= cols,
                    row@.len() == j,
                    forall|t: int| 0 <= t < j ==> row@[t] == dot_spec(ga, gb, i as int, t, inner as int),
                decreases cols - j,
            {
                let mut acc = rint(0);
                let mut k: usize = 0;
                while k < inner
                    invariant
                        mat_wf(*self),
                        mat_wf(*b),
                        ga == self.view_spec(),
                        gb == b.view_spec(),
                        rows == self.nrows,
                        cols == b.ncols,
                        inner == self.ncols,
                        inner == b.nrows,
                        i < rows,
                        j < cols,
                        0 <= k <= inner,
                        acc == dot_spec(ga, gb, i as int, j as int, k as int),
                    decreases inner - k,
                {
                    proof {
                        assert(self.data@[i as int]@ == ga[i as int]);
                        assert(b.data@[k as int]@ == gb[k as int]);
                    }
                    acc = radd(acc, rmul(self.data[i][k], b.data[k][j]));
                    k = k + 1;
                }
                row.push(acc);
                j = j + 1;
            }
            proof {
                assert(row@ =~= mat_mul_spec(ga, gb, cols as int, inner as int)[i as int]);
            }
            data.push(row);
            i = i + 1;
        }
        proof {
            assert(grid_view(data@) =~= mat_mul_spec(ga, gb, cols as int, inner as int));
        }
        Matrix { nrows: rows, ncols: cols, data }
    }
}

/// The running dot product of row `i` of `g` with a plain vector.
pub open spec fn dot_vec_spec(g: Seq<Seq<Real>>, v: Seq<Real>, i: int, k: int) -> Real
    decreases k,
{
    if k <= 0 {
        rof_int(0)
    } else {
        radd_of(dot_vec_spec(g, v, i, k - 1), rmul_of(g[i][k - 1], v[k - 1]))
    }
}

pub open spec fn mat_vec_spec(g: Seq<Seq<Real>>, v: Seq<Real>, rows: int, inner: int) -> Seq<
    Real,
> {
    Seq::new(rows as nat, |i: int| dot_vec_spec(g, v, i, inner))
}

/// The matrix applied to a vector.
pub fn mat_vec_mul(m: &Matrix, v: &Vec<Real>) -> (r: Vec<Real>)
    requires
        mat_wf(*m),
        v@.len() == m.ncols,
    ensures
        r@ == mat_vec_spec(m.view_spec(), v@, m.nrows as int, m.ncols as int),
{
    let ghost g = m.view_spec();
    let mut out: Vec<Real> = Vec::new();
    let rows = m.nrows;
    let inner = m.ncols;
    let mut i: usize = 0;
    while i < rows
        invariant
            mat_wf(*m),
            g == m.view_spec(),
            rows == m.nrows,
            inner == m.ncols,
            v@.len() == inner,
            0 <= i <= rows,
            out@.len() == i,
            forall|t: int| 0 <= t < i ==> out@[t] == dot_vec_spec(g, v@, t, inner as int),
        decreases rows - i,
    {
        let mut acc = rint(0);
        let mut k: usize = 0;
        while k < inner
            invariant
                mat_wf(*m),
                g == m.view_spec(),
                rows == m.nrows,
                inner == m.ncols,
                v@.len() == inner,
                i < rows,
                0 <= k <= inner,
                acc == dot_vec_spec(g, v@, i as int, k as int),
            decreases inner - k,
        {
            proof {
                assert(m.data@[i as int]@ == g[i as int]);
            }
            acc = radd(acc, rmul(m.data[i][k], v[k]));
            k = k + 1;
        }
        out.push(acc);
        i = i + 1;
    }
    proof {
        assert(out@ =~= mat_vec_spec(g, v@, rows as int, inner as int));
    }
    out
}

} // verus!
