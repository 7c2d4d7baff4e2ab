//! Periodic grids: neighbor lookups wrap around, so the buffer needs no
//! halo and a stencil pass leaves the destination immediately usable.

use vstd::prelude::*;

use crate::N1D1;
use crate::N2D1;
use crate::StencilError;
use vstd::arithmetic::div_mod::lemma_mod_self_0;
use vstd::arithmetic::div_mod::lemma_small_mod;
use vstd::arithmetic::div_mod::lemma_mod_add_multiples_vanish;

verus! {

/// Index of the previous sample on a periodic axis of `n` samples.
pub open spec fn wrap_dec(i: int, n: int) -> int {
    if i == 0 {
        n - 1
    } else {
        i - 1
    }
}

/// Index of the next sample on a periodic axis of `n` samples.
pub open spec fn wrap_inc(i: int, n: int) -> int {
    if i == n - 1 {
        0
    } else {
        i + 1
    }
}

/// The neighborhood a one-neighbor stencil reads at point `i` of a
/// periodic one-dimensional grid with samples `s`.
pub open spec fn n1d1_at<A>(s: Seq<A>, i: int) -> N1D1<A>
    recommends
        2 <= s.len(),
        0 <= i < s.len(),
{
    N1D1 { l: s[wrap_dec(i, s.len() as int)], r: s[wrap_inc(i, s.len() as int)], c: s[i] }
}

/// One-dimensional periodic grid.
///
/// For simulations with the periodic boundary condition: the left neighbor
/// of the first sample is the last sample and symmetrically.
#[derive(Clone)]
pub struct Torus<A> {
    data: Vec<A>,
}

impl<A> View for Torus<A> {
    type V = Seq<A>;

    closed spec fn view(&self) -> Seq<A> {
        self.data@
    }
}

impl<A: Copy> Torus<A> {
    /// Allocate a periodic grid of `n` samples, every one holding `zero`.
    ///
    /// The zero of the element type comes from the caller, since the engine
    /// never computes with elements.
    pub fn zeros(n: usize, zero: A) -> (t: Self)
        ensures
            t@.len() == n,
            forall|i: int| 0 <= i < n ==> t@[i] == zero,
    {
        let mut data: Vec<A> = Vec::new();
        let mut k: usize = 0;
        while k < n
            invariant
                k <= n,
                data@.len() == k,
                forall|i: int| 0 <= i < k ==> data@[i] == zero,
            decreases n - k,
        {
            data.push(zero);
            k = k + 1;
        }
        Torus { data }
    }

    /// Logical size of the grid: the number of samples along its one axis.
    pub fn shape(&self) -> (n: usize)
        ensures
            n == self@.len(),
    {
        self.data.len()
    }

    /// A copy of the samples in index order. A periodic grid has no halo,
    /// so this is the whole buffer.
    pub fn as_view(&self) -> (v: Vec<A>)
        ensures
            v@ == self@,
    {
        let mut v: Vec<A> = Vec::new();
        let n = self.data.len();
        let mut k: usize = 0;
        while k < n
            invariant
                k <= n,
                n == self@.len(),
                v@.len() == k,
                forall|i: int| 0 <= i < k ==> v@[i] == self@[i],
            decreases n - k,
        {
            v.push(self.data[k]);
            k = k + 1;
        }
        proof {
            assert(v@ =~= self@);
        }
        v
    }

    /// Fill the grid by a function of the sample index: sample `i` receives
    /// `f(i)`. The physical coordinate of sample `i` is `i` times the grid
    /// spacing, which the caller folds into `f`.
    pub fn coordinate_fill<F: Fn(usize) -> A>(&mut self, f: F)
        requires
            forall|i: usize| i < old(self)@.len() ==> call_requires(f, (i,)),
        ensures
            final(self)@.len() == old(self)@.len(),
            forall|i: int|
                0 <= i < final(self)@.len() ==> call_ensures(
                    f,
                    (i as usize,),
                    #[trigger] final(self)@[i],
                ),
    {
        let n = self.data.len();
        let mut k: usize = 0;
        while k < n
            invariant
                k <= n,
                n == self@.len(),
                self@.len() == old(self)@.len(),
                forall|i: usize| i < n ==> call_requires(f, (i,)),
                forall|i: int| 0 <= i < k ==> call_ensures(f, (i as usize,), #[trigger] self@[i]),
            decreases n - k,
        {
            let v = f(k);
            self.data.set(k, v);
            k = k + 1;
        }
    }

    /// Transform the grid in place by a function of the sample index and
    /// the current value: sample `i` becomes `f(i, old value)`.
    pub fn coordinate_map<F: Fn(usize, A) -> A>(&mut self, f: F)
        requires
            forall|i: usize|
                i < old(self)@.len() ==> call_requires(f, (i, old(self)@[i as int])),
        ensures
            final(self)@.len() == old(self)@.len(),
            forall|i: int|
                0 <= i < final(self)@.len() ==> call_ensures(
                    f,
                    (i as usize, old(self)@[i]),
                    #[trigger] final(self)@[i],
                ),
    {
        let n = self.data.len();
        let mut k: usize = 0;
        while k < n
            invariant
                k <= n,
                n == self@.len(),
                self@.len() == old(self)@.len(),
                forall|i: int| k <= i < n ==> self@[i] == old(self)@[i],
                forall|i: usize| i < n ==> call_requires(f, (i, old(self)@[i as int])),
                forall|i: int|
                    0 <= i < k ==> call_ensures(f, (i as usize, old(self)@[i]), #[trigger] self@[i]),
            decreases n - k,
        {
            let v = f(k, self.data[k]);
            self.data.set(k, v);
            k = k + 1;
        }
    }

    /// Evaluate a one-neighbor stencil: for every index `i`, gather the
    /// wrapped neighborhood [`n1d1_at`] and write `f` of it into `out` at
    /// `i`. `out`'s prior contents are irrelevant; they are fully
    /// overwritten on success and untouched on rejection.
    ///
    /// Rejected with [`StencilError::TooSmall`] when the grid has fewer
    /// than two samples, since a wrapped lookup would then alias the center
    /// cell, and with [`StencilError::ShapeMismatch`] when `out`'s size
    /// differs from the source's.
    pub fn stencil_map<F: Fn(N1D1<A>) -> A>(&self, out: &mut Torus<A>, f: F) -> (r: Result<
        (),
        StencilError,
    >)
        requires
            forall|i: int| 0 <= i < self@.len() ==> call_requires(f, (n1d1_at(self@, i),)),
        ensures
            r is Ok <==> (self@.len() >= 2 && old(out)@.len() == self@.len()),
            self@.len() < 2 ==> r == Err::<(), StencilError>(StencilError::TooSmall),
            self@.len() >= 2 && old(out)@.len() != self@.len() ==> r == Err::<(), StencilError>(
                StencilError::ShapeMismatch,
            ),
            r is Ok ==> final(out)@.len() == self@.len() && forall|i: int|
                0 <= i < self@.len() ==> call_ensures(
                    f,
                    (n1d1_at(self@, i),),
                    #[trigger] final(out)@[i],
                ),
            r is Err ==> final(out)@ == old(out)@,
    {
        let n = self.data.len();
        if n < 2 {
            return Err(StencilError::TooSmall);
        }
        if out.data.len() != n {
            return Err(StencilError::ShapeMismatch);
        }
        let mut k: usize = 0;
        while k < n
            invariant
                2 <= n,
                k <= n,
                n == self@.len(),
                out.data@.len() == n,
                forall|i: int| 0 <= i < n ==> call_requires(f, (n1d1_at(self@, i),)),
                forall|i: int|
                    0 <= i < k ==> call_ensures(f, (n1d1_at(self@, i),), #[trigger] out.data@[i]),
            decreases n - k,
        {
            let l = if k == 0 {
                self.data[n - 1]
            } else {
                self.data[k - 1]
            };
            let r = if k == n - 1 {
                self.data[0]
            } else {
                self.data[k + 1]
            };
            let nn = N1D1 { l, r, c: self.data[k] };
            assert(nn == n1d1_at(self@, k as int));
            let v = f(nn);
            out.data.set(k, v);
            k = k + 1;
        }
        Ok(())
    }
}

/// The neighborhood a two-neighbor stencil reads at point `i` of a
/// periodic one-dimensional grid with samples `s`.
pub open spec fn n2d1_at<A>(s: Seq<A>, i: int) -> N2D1<A>
    recommends
        4 <= s.len(),
        0 <= i < s.len(),
{
    let n = s.len() as int;
    N2D1 {
        l: s[wrap_dec(i, n)],
        r: s[wrap_inc(i, n)],
        ll: s[wrap_dec(wrap_dec(i, n), n)],
        rr: s[wrap_inc(wrap_inc(i, n), n)],
        c: s[i],
    }
}

impl<A: Copy> Torus<A> {
    /// Evaluate a two-neighbor stencil: for every index `i`, gather the
    /// wrapped two-deep neighborhood [`n2d1_at`] and write `f` of it into
    /// `out` at `i`.
    ///
    /// Rejected with [`StencilError::TooSmall`] when the grid has fewer
    /// than four samples, since a wrapped lookup of radius two would then
    /// alias a cell with itself, and with [`StencilError::ShapeMismatch`]
    /// when `out`'s size differs from the source's.
    pub fn stencil_map_n2d1<F: Fn(N2D1<A>) -> A>(&self, out: &mut Torus<A>, f: F) -> (r: Result<
        (),
        StencilError,
    >)
        requires
            forall|i: int| 0 <= i < self@.len() ==> call_requires(f, (n2d1_at(self@, i),)),
        ensures
            r is Ok <==> (self@.len() >= 4 && old(out)@.len() == self@.len()),
            self@.len() < 4 ==> r == Err::<(), StencilError>(StencilError::TooSmall),
            self@.len() >= 4 && old(out)@.len() != self@.len() ==> r == Err::<(), StencilError>(
                StencilError::ShapeMismatch,
            ),
            r is Ok ==> final(out)@.len() == self@.len() && forall|i: int|
                0 <= i < self@.len() ==> call_ensures(
                    f,
                    (n2d1_at(self@, i),),
                    #[trigger] final(out)@[i],
                ),
            r is Err ==> final(out)@ == old(out)@,
    {
        let n = self.data.len();
        if n < 4 {
            return Err(StencilError::TooSmall);
        }
        if out.data.len() != n {
            return Err(StencilError::ShapeMismatch);
        }
        let mut k: usize = 0;
        while k < n
            invariant
                4 <= n,
                k <= n,
                n == self@.len(),
                out.data@.len() == n,
                forall|i: int| 0 <= i < n ==> call_requires(f, (n2d1_at(self@, i),)),
                forall|i: int|
                    0 <= i < k ==> call_ensures(f, (n2d1_at(self@, i),), #[trigger] out.data@[i]),
            decreases n - k,
        {
            let lx = if k == 0 {
                n - 1
            } else {
                k - 1
            };
            let llx = if lx == 0 {
                n - 1
            } else {
                lx - 1
            };
            let rx = if k == n - 1 {
                0
            } else {
                k + 1
            };
            let rrx = if rx == n - 1 {
                0
            } else {
                rx + 1
            };
            let nn = N2D1 {
                l: self.data[lx],
                r: self.data[rx],
                ll: self.data[llx],
                rr: self.data[rrx],
                c: self.data[k],
            };
            assert(nn == n2d1_at(self@, k as int));
            let v = f(nn);
            out.data.set(k, v);
            k = k + 1;
        }
        Ok(())
    }
}

/// Periodicity of the one-neighbor gather: lookups wrap at both ends of
/// the axis. The left neighbor of the first sample is the last sample and
/// the right neighbor of the last sample is the first.
pub proof fn lemma_torus_wraps<A>(s: Seq<A>)
    requires
        s.len() >= 2,
    ensures
        n1d1_at(s, 0).l == s[s.len() - 1],
        n1d1_at(s, s.len() - 1).r == s[0],
{
}

/// The wrapped neighbor indices are exactly the modular ones: stepping
/// left from `i` on a periodic axis of `n` samples lands on
/// `(i + n - 1) % n` and stepping right lands on `(i + 1) % n`.
pub proof fn lemma_wrap_is_modular(i: int, n: int)
    requires
        1 <= n,
        0 <= i < n,
    ensures
        wrap_dec(i, n) == (i + n - 1) % n,
        wrap_inc(i, n) == (i + 1) % n,
{
    if i == 0 {
        lemma_small_mod((n - 1) as nat, n as nat);
    } else {
        lemma_mod_add_multiples_vanish(i - 1, n);
        lemma_small_mod((i - 1) as nat, n as nat);
    }
    if i == n - 1 {
        lemma_mod_self_0(n);
    } else {
        lemma_small_mod((i + 1) as nat, n as nat);
    }
}

} // verus!
