//! Two-dimensional periodic grid, stored row-major in a flat buffer.

use vstd::prelude::*;

use crate::N1D2;
use crate::StencilError;
use crate::torus::wrap_dec;
use crate::torus::wrap_inc;

verus! {

/// The sample of a row-major buffer `s` with row length `m` at row `i`,
/// column `j`.
pub open spec fn at2<A>(s: Seq<A>, m: int, i: int, j: int) -> A
    recommends
        0 <= j < m,
        0 <= i,
        (i + 1) * m <= s.len(),
{
    s[i * m + j]
}

/// The neighborhood a one-neighbor stencil reads at row `i`, column `j` of
/// a periodic two-dimensional grid of `n` rows and `m` columns with
/// row-major samples `s`: left/right wrap along the rows, top/bottom along
/// the columns.
pub open spec fn n1d2_at<A>(s: Seq<A>, n: int, m: int, i: int, j: int) -> N1D2<A>
    recommends
        2 <= n,
        2 <= m,
        s.len() == n * m,
        0 <= i < n,
        0 <= j < m,
{
    N1D2 {
        t: at2(s, m, i, wrap_inc(j, m)),
        b: at2(s, m, i, wrap_dec(j, m)),
        l: at2(s, m, wrap_dec(i, n), j),
        r: at2(s, m, wrap_inc(i, n), j),
        c: at2(s, m, i, j),
    }
}

/// Periodicity of the two-dimensional gather: lookups wrap independently
/// at both ends of each axis. The left neighbor on the first row is on the
/// last row and symmetrically; the bottom neighbor in the first column is
/// in the last column and symmetrically.
pub proof fn lemma_torus2_wraps<A>(s: Seq<A>, n: int, m: int, i: int, j: int)
    requires
        2 <= n,
        2 <= m,
        s.len() == n * m,
        0 <= i < n,
        0 <= j < m,
    ensures
        n1d2_at(s, n, m, 0, j).l == at2(s, m, n - 1, j),
        n1d2_at(s, n, m, n - 1, j).r == at2(s, m, 0, j),
        n1d2_at(s, n, m, i, 0).b == at2(s, m, i, m - 1),
        n1d2_at(s, n, m, i, m - 1).t == at2(s, m, i, 0),
{
}

/// A row-major position lies inside the buffer of an `n` by `m` grid.
pub proof fn lemma_row_major_bound(n: int, m: int, i: int, j: int)
    requires
        0 <= i < n,
        0 <= j < m,
    ensures
        0 <= i * m + j,
        i * m + j < n * m,
{
    assert(0 <= i * m + j && i * m + j < n * m) by (nonlinear_arith)
        requires
            0 <= i < n,
            0 <= j < m,
    ;
}

/// Row-major order: a position on an earlier row, or earlier on the same
/// row, has the smaller flat index.
pub proof fn lemma_row_major_order(m: int, a: int, b: int, i: int, j: int)
    requires
        0 <= a,
        0 <= b < m,
        0 <= j < m,
        a < i || (a == i && b < j),
    ensures
        a * m + b < i * m + j,
{
    assert(a * m + b < i * m + j) by (nonlinear_arith)
        requires
            0 <= a,
            0 <= b < m,
            0 <= j < m,
            a < i || (a == i && b < j),
    ;
}

/// Two-dimensional periodic grid of `rows` by `cols` samples.
#[derive(Clone)]
pub struct Torus2<A> {
    data: Vec<A>,
    rows: usize,
    cols: usize,
}

impl<A> View for Torus2<A> {
    type V = Seq<A>;

    closed spec fn view(&self) -> Seq<A> {
        self.data@
    }
}

impl<A> Torus2<A> {
    /// Number of rows, as seen by contracts.
    pub closed spec fn spec_rows(&self) -> usize {
        self.rows
    }

    /// Number of columns, as seen by contracts.
    pub closed spec fn spec_cols(&self) -> usize {
        self.cols
    }

    /// The buffer holds exactly one sample per logical grid point.
    pub open spec fn wf(&self) -> bool {
        self@.len() == self.spec_rows() * self.spec_cols()
    }
}

impl<A: Copy> Torus2<A> {
    /// Allocate a periodic grid of `n` rows and `m` columns, every sample
    /// holding `zero`.
    pub fn zeros(n: usize, m: usize, zero: A) -> (t: Self)
        requires
            n * m <= usize::MAX,
        ensures
            t.wf(),
            t.spec_rows() == n,
            t.spec_cols() == m,
            forall|i: int| 0 <= i < n * m ==> t@[i] == zero,
    {
        let total = n * m;
        let mut data: Vec<A> = Vec::new();
        let mut k: usize = 0;
        while k < total
            invariant
                k <= total,
                data@.len() == k,
                forall|i: int| 0 <= i < k ==> data@[i] == zero,
            decreases total - k,
        {
            data.push(zero);
            k = k + 1;
        }
        Torus2 { data, rows: n, cols: m }
    }

    /// Logical shape of the grid: rows, then columns.
    pub fn shape(&self) -> (s: (usize, usize))
        ensures
            s.0 == self.spec_rows(),
            s.1 == self.spec_cols(),
    {
        (self.rows, self.cols)
    }

    /// A copy of the samples in row-major order. A periodic grid has no
    /// halo, so this is the whole buffer.
    pub fn as_view(&self) -> (v: Vec<A>)
        ensures
            v@ == self@,
    {
        let mut v: Vec<A> = Vec::new();
        let total = self.data.len();
        let mut k: usize = 0;
        while k < total
            invariant
                k <= total,
                total == self@.len(),
                v@.len() == k,
                forall|i: int| 0 <= i < k ==> v@[i] == self@[i],
            decreases total - k,
        {
            v.push(self.data[k]);
            k = k + 1;
        }
        proof {
            assert(v@ =~= self@);
        }
        v
    }

    /// Fill the grid by a function of the sample indices: the sample at row
    /// `i`, column `j` receives `f(i, j)`. The physical coordinates are
    /// `i` and `j` times the spacing of each axis, which the caller folds
    /// into `f`.
    pub fn coordinate_fill<F: Fn(usize, usize) -> A>(&mut self, f: F)
        requires
            old(self).wf(),
            forall|i: usize, j: usize|
                i < old(self).spec_rows() && j < old(self).spec_cols() ==> call_requires(
                    f,
                    (i, j),
                ),
        ensures
            final(self).wf(),
            final(self).spec_rows() == old(self).spec_rows(),
            final(self).spec_cols() == old(self).spec_cols(),
            forall|i: int, j: int|
                0 <= i < final(self).spec_rows() && 0 <= j < final(self).spec_cols()
                    ==> call_ensures(
                    f,
                    (i as usize, j as usize),
                    #[trigger] at2(final(self)@, final(self).spec_cols() as int, i, j),
                ),
    {
        let n = self.rows;
        let m = self.cols;
        let total = self.data.len();
        let mut i: usize = 0;
        while i < n
            invariant
                i <= n,
                n == self.spec_rows(),
                m == self.spec_cols(),
                self.wf(),
                self@.len() == n * m,
                self@.len() == total,
                forall|a: usize, b: usize| a < n && b < m ==> call_requires(f, (a, b)),
                forall|a: int, b: int|
                    0 <= a < i && 0 <= b < m ==> call_ensures(
                        f,
                        (a as usize, b as usize),
                        #[trigger] at2(self@, m as int, a, b),
                    ),
            decreases n - i,
        {
            let mut j: usize = 0;
            while j < m
                invariant
                    i < n,
                    j <= m,
                    n == self.spec_rows(),
                    m == self.spec_cols(),
                    self.wf(),
                    self@.len() == n * m,
                    self@.len() == total,
                    forall|a: usize, b: usize| a < n && b < m ==> call_requires(f, (a, b)),
                    forall|a: int, b: int|
                        0 <= a < i && 0 <= b < m ==> call_ensures(
                            f,
                            (a as usize, b as usize),
                            #[trigger] at2(self@, m as int, a, b),
                        ),
                    forall|b: int|
                        0 <= b < j ==> call_ensures(
                            f,
                            (i, b as usize),
                            #[trigger] at2(self@, m as int, i as int, b),
                        ),
                decreases m - j,
            {
                proof {
                    lemma_row_major_bound(n as int, m as int, i as int, j as int);
                }
                let v = f(i, j);
                let ghost prev = self.data@;
                self.data.set(i * m + j, v);
                proof {
                    assert forall|a: int, b: int| 0 <= a < i && 0 <= b < m implies call_ensures(
                        f,
                        (a as usize, b as usize),
                        #[trigger] at2(self@, m as int, a, b),
                    ) by {
                        lemma_row_major_order(m as int, a, b, i as int, j as int);
                        lemma_row_major_bound(n as int, m as int, a, b);
                        assert(at2(self@, m as int, a, b) == at2(prev, m as int, a, b));
                    }
                    assert forall|b: int| 0 <= b <= j implies call_ensures(
                        f,
                        (i, b as usize),
                        #[trigger] at2(self@, m as int, i as int, b),
                    ) by {
                        if b < j {
                            lemma_row_major_order(m as int, i as int, b, i as int, j as int);
                            lemma_row_major_bound(n as int, m as int, i as int, b);
                            assert(at2(self@, m as int, i as int, b) == at2(
                                prev,
                                m as int,
                                i as int,
                                b,
                            ));
                        } else {
                            assert(at2(self@, m as int, i as int, b) == v);
                        }
                    }
                }
                j = j + 1;
            }
            i = i + 1;
        }
    }

    /// Transform the grid in place by a function of the sample indices and
    /// the current value: the sample at row `i`, column `j` becomes
    /// `f(i, j, old value)`.
    pub fn coordinate_map<F: Fn(usize, usize, A) -> A>(&mut self, f: F)
        requires
            old(self).wf(),
            forall|i: usize, j: usize|
                i < old(self).spec_rows() && j < old(self).spec_cols() ==> call_requires(
                    f,
                    (i, j, at2(old(self)@, old(self).spec_cols() as int, i as int, j as int)),
                ),
        ensures
            final(self).wf(),
            final(self).spec_rows() == old(self).spec_rows(),
            final(self).spec_cols() == old(self).spec_cols(),
            forall|i: int, j: int|
                0 <= i < final(self).spec_rows() && 0 <= j < final(self).spec_cols()
                    ==> call_ensures(
                    f,
                    (
                        i as usize,
                        j as usize,
                        at2(old(self)@, final(self).spec_cols() as int, i, j),
                    ),
                    #[trigger] at2(final(self)@, final(self).spec_cols() as int, i, j),
                ),
    {
        let n = self.rows;
        let m = self.cols;
        let total = self.data.len();
        let mut i: usize = 0;
        while i < n
            invariant
                i <= n,
                n == self.spec_rows(),
                m == self.spec_cols(),
                self.wf(),
                self@.len() == n * m,
                self@.len() == total,
                forall|a: usize, b: usize|
                    a < n && b < m ==> call_requires(
                        f,
                        (a, b, at2(old(self)@, m as int, a as int, b as int)),
                    ),
                forall|a: int, b: int|
                    0 <= a < n && 0 <= b < m && i <= a ==> at2(self@, m as int, a, b) == #[trigger] at2(
                        old(self)@,
                        m as int,
                        a,
                        b,
                    ),
                forall|a: int, b: int|
                    0 <= a < i && 0 <= b < m ==> call_ensures(
                        f,
                        (a as usize, b as usize, at2(old(self)@, m as int, a, b)),
                        #[trigger] at2(self@, m as int, a, b),
                    ),
            decreases n - i,
        {
            let mut j: usize = 0;
            while j < m
                invariant
                    i < n,
                    j <= m,
                    n == self.spec_rows(),
                    m == self.spec_cols(),
                    self.wf(),
                    self@.len() == n * m,
                    self@.len() == total,
                    forall|a: usize, b: usize|
                        a < n && b < m ==> call_requires(
                            f,
                            (a, b, at2(old(self)@, m as int, a as int, b as int)),
                        ),
                    forall|a: int, b: int|
                        0 <= a < n && 0 <= b < m && (i < a || (i == a && j <= b)) ==> at2(
                            self@,
                            m as int,
                            a,
                            b,
                        ) == #[trigger] at2(old(self)@, m as int, a, b),
                    forall|a: int, b: int|
                        0 <= a < i && 0 <= b < m ==> call_ensures(
                            f,
                            (a as usize, b as usize, at2(old(self)@, m as int, a, b)),
                            #[trigger] at2(self@, m as int, a, b),
                        ),
                    forall|b: int|
                        0 <= b < j ==> call_ensures(
                            f,
                            (i, b as usize, at2(old(self)@, m as int, i as int, b)),
                            #[trigger] at2(self@, m as int, i as int, b),
                        ),
                decreases m - j,
            {
                proof {
                    lemma_row_major_bound(n as int, m as int, i as int, j as int);
                }
                let cur = self.data[i * m + j];
                proof {
                    assert(cur == at2(self@, m as int, i as int, j as int));
                    assert(at2(self@, m as int, i as int, j as int) == at2(
                        old(self)@,
                        m as int,
                        i as int,
                        j as int,
                    ));
                }
                let v = f(i, j, cur);
                let ghost prev = self.data@;
                self.data.set(i * m + j, v);
                proof {
                    assert forall|a: int, b: int|
                        0 <= a < n && 0 <= b < m && (i < a || (i == a && j + 1 <= b)) implies at2(
                        self@,
                        m as int,
                        a,
                        b,
                    ) == #[trigger] at2(old(self)@, m as int, a, b) by {
                        lemma_row_major_order(m as int, i as int, j as int, a, b);
                        lemma_row_major_bound(n as int, m as int, a, b);
                        assert(at2(self@, m as int, a, b) == at2(prev, m as int, a, b));
                    }
                    assert forall|a: int, b: int| 0 <= a < i && 0 <= b < m implies call_ensures(
                        f,
                        (a as usize, b as usize, at2(old(self)@, m as int, a, b)),
                        #[trigger] at2(self@, m as int, a, b),
                    ) by {
                        lemma_row_major_order(m as int, a, b, i as int, j as int);
                        lemma_row_major_bound(n as int, m as int, a, b);
                        assert(at2(self@, m as int, a, b) == at2(prev, m as int, a, b));
                    }
                    assert forall|b: int| 0 <= b <= j implies call_ensures(
                        f,
                        (i, b as usize, at2(old(self)@, m as int, i as int, b)),
                        #[trigger] at2(self@, m as int, i as int, b),
                    ) by {
                        if b < j {
                            lemma_row_major_order(m as int, i as int, b, i as int, j as int);
                            lemma_row_major_bound(n as int, m as int, i as int, b);
                            assert(at2(self@, m as int, i as int, b) == at2(
                                prev,
                                m as int,
                                i as int,
                                b,
                            ));
                        } else {
                            assert(at2(self@, m as int, i as int, b) == v);
                            assert(at2(prev, m as int, i as int, j as int) == at2(
                                old(self)@,
                                m as int,
                                i as int,
                                j as int,
                            ));
                        }
                    }
                }
                j = j + 1;
            }
            i = i + 1;
        }
    }

    /// Evaluate a one-neighbor stencil: for every row `i` and column `j`,
    /// gather the wrapped neighborhood [`n1d2_at`] and write `f` of it into
    /// `out` at the same position. `out`'s prior contents are irrelevant;
    /// they are fully overwritten on success and untouched on rejection.
    ///
    /// Rejected with [`StencilError::TooSmall`] when either axis has fewer
    /// than two samples, since a wrapped lookup would then alias the center
    /// cell, and with [`StencilError::ShapeMismatch`] when `out`'s logical
    /// shape differs from the source's.
    pub fn stencil_map<F: Fn(N1D2<A>) -> A>(&self, out: &mut Torus2<A>, f: F) -> (r: Result<
        (),
        StencilError,
    >)
        requires
            self.wf(),
            old(out).wf(),
            forall|i: int, j: int|
                0 <= i < self.spec_rows() && 0 <= j < self.spec_cols() ==> call_requires(
                    f,
                    (
                        n1d2_at(
                            self@,
                            self.spec_rows() as int,
                            self.spec_cols() as int,
                            i,
                            j,
                        ),
                    ),
                ),
        ensures
            r is Ok <==> (self.spec_rows() >= 2 && self.spec_cols() >= 2 && old(out).spec_rows()
                == self.spec_rows() && old(out).spec_cols() == self.spec_cols()),
            self.spec_rows() < 2 || self.spec_cols() < 2 ==> r == Err::<(), StencilError>(
                StencilError::TooSmall,
            ),
            self.spec_rows() >= 2 && self.spec_cols() >= 2 && (old(out).spec_rows()
                != self.spec_rows() || old(out).spec_cols() != self.spec_cols()) ==> r == Err::<
                (),
                StencilError,
            >(StencilError::ShapeMismatch),
            final(out).wf(),
            final(out).spec_rows() == old(out).spec_rows(),
            final(out).spec_cols() == old(out).spec_cols(),
            r is Ok ==> forall|i: int, j: int|
                0 <= i < self.spec_rows() && 0 <= j < self.spec_cols() ==> call_ensures(
                    f,
                    (n1d2_at(self@, self.spec_rows() as int, self.spec_cols() as int, i, j),),
                    #[trigger] at2(final(out)@, self.spec_cols() as int, i, j),
                ),
            r is Err ==> final(out)@ == old(out)@,
    {
        let n = self.rows;
        let m = self.cols;
        if n < 2 || m < 2 {
            return Err(StencilError::TooSmall);
        }
        if out.rows != n || out.cols != m {
            return Err(StencilError::ShapeMismatch);
        }
        let total = self.data.len();
        let mut i: usize = 0;
        while i < n
            invariant
                i <= n,
                2 <= n,
                2 <= m,
                n == self.spec_rows(),
                m == self.spec_cols(),
                self.wf(),
                out.wf(),
                n == out.spec_rows(),
                m == out.spec_cols(),
                self@.len() == n * m,
                self@.len() == total,
                out.data@.len() == n * m,
                forall|a: int, b: int|
                    0 <= a < n && 0 <= b < m ==> call_requires(
                        f,
                        (n1d2_at(self@, n as int, m as int, a, b),),
                    ),
                forall|a: int, b: int|
                    0 <= a < i && 0 <= b < m ==> call_ensures(
                        f,
                        (n1d2_at(self@, n as int, m as int, a, b),),
                        #[trigger] at2(out.data@, m as int, a, b),
                    ),
            decreases n - i,
        {
            let mut j: usize = 0;
            while j < m
                invariant
                    i < n,
                    j <= m,
                    2 <= n,
                    2 <= m,
                    n == self.spec_rows(),
                    m == self.spec_cols(),
                    self.wf(),
                    out.wf(),
                    n == out.spec_rows(),
                    m == out.spec_cols(),
                    self@.len() == n * m,
                    self@.len() == total,
                    out.data@.len() == n * m,
                    forall|a: int, b: int|
                        0 <= a < n && 0 <= b < m ==> call_requires(
                            f,
                            (n1d2_at(self@, n as int, m as int, a, b),),
                        ),
                    forall|a: int, b: int|
                        0 <= a < i && 0 <= b < m ==> call_ensures(
                            f,
                            (n1d2_at(self@, n as int, m as int, a, b),),
                            #[trigger] at2(out.data@, m as int, a, b),
                        ),
                    forall|b: int|
                        0 <= b < j ==> call_ensures(
                            f,
                            (n1d2_at(self@, n as int, m as int, i as int, b),),
                            #[trigger] at2(out.data@, m as int, i as int, b),
                        ),
                decreases m - j,
            {
                let jt = if j == m - 1 {
                    0
                } else {
                    j + 1
                };
                let jb = if j == 0 {
                    m - 1
                } else {
                    j - 1
                };
                let il = if i == 0 {
                    n - 1
                } else {
                    i - 1
                };
                let ir = if i == n - 1 {
                    0
                } else {
                    i + 1
                };
                proof {
                    lemma_row_major_bound(n as int, m as int, i as int, j as int);
                    lemma_row_major_bound(n as int, m as int, i as int, jt as int);
                    lemma_row_major_bound(n as int, m as int, i as int, jb as int);
                    lemma_row_major_bound(n as int, m as int, il as int, j as int);
                    lemma_row_major_bound(n as int, m as int, ir as int, j as int);
                }
                let nn = N1D2 {
                    t: self.data[i * m + jt],
                    b: self.data[i * m + jb],
                    l: self.data[il * m + j],
                    r: self.data[ir * m + j],
                    c: self.data[i * m + j],
                };
                assert(nn == n1d2_at(self@, n as int, m as int, i as int, j as int));
                let v = f(nn);
                let ghost prev = out.data@;
                out.data.set(i * m + j, v);
                proof {
                    assert forall|a: int, b: int| 0 <= a < i && 0 <= b < m implies call_ensures(
                        f,
                        (n1d2_at(self@, n as int, m as int, a, b),),
                        #[trigger] at2(out.data@, m as int, a, b),
                    ) by {
                        lemma_row_major_order(m as int, a, b, i as int, j as int);
                        lemma_row_major_bound(n as int, m as int, a, b);
                        assert(at2(out.data@, m as int, a, b) == at2(prev, m as int, a, b));
                    }
                    assert forall|b: int| 0 <= b <= j implies call_ensures(
                        f,
                        (n1d2_at(self@, n as int, m as int, i as int, b),),
                        #[trigger] at2(out.data@, m as int, i as int, b),
                    ) by {
                        if b < j {
                            lemma_row_major_order(m as int, i as int, b, i as int, j as int);
                            lemma_row_major_bound(n as int, m as int, i as int, b);
                            assert(at2(out.data@, m as int, i as int, b) == at2(
                                prev,
                                m as int,
                                i as int,
                                b,
                            ));
                        } else {
                            assert(at2(out.data@, m as int, i as int, b) == v);
                        }
                    }
                }
                j = j + 1;
            }
            i = i + 1;
        }
        Ok(())
    }
}

} // verus!
