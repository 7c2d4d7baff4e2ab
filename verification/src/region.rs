//! Bounded one-dimensional grids ("lines") with halo cells that hold fixed
//! boundary values.
//!
//! A `Line` allocates `n + 2 * padding` cells: the interior of `n` logical
//! samples, and `padding` halo cells on each side. Stencil reads near the
//! edge take their out-of-range neighbors from the halo, which
//! [`Line::fill_edge`] keeps equal to the configured left and right
//! boundary values.
//!
//! The physical coordinate of interior sample `i` is
//! `length / dx_steps * sample_index(i)`:
//!
//! * Closed edges: `sample_index(i) = i` and `dx_steps = n - 1`, so the
//!   first and last samples sit exactly at the domain endpoints.
//! * Open edges: `sample_index(i) = i + 1` and `dx_steps = n + 1`, so every
//!   sample is offset one step inward and none touches an endpoint.

use vstd::prelude::*;

use core::marker::PhantomData;
use crate::N1D1;
use crate::N2D1;
use crate::Stencil;
use crate::StencilError;
use crate::padding::GreaterEq;
use crate::padding::Padding;

verus! {

/// Relies on `core::marker::PhantomData::clone`: `PhantomData<T>` is a unit
/// type with a single value, so the clone is that same value. Needed so
/// that `Clone` can be derived for [`Line`], whose padding and edge tags
/// live in a `PhantomData` field.
pub assume_specification<T: core::marker::PointeeSized>[ <PhantomData<T> as Clone>::clone ](
    v: &PhantomData<T>,
) -> (r: PhantomData<T>)
    ensures
        r == *v,
;

/// How the interior samples of a bounded grid sit against the domain
/// endpoints. `spec_len` is the sample-index offset of the first interior
/// sample from the left endpoint, in units of the grid spacing.
pub trait Edge: Sized {
    /// Offset of the first interior sample from the endpoint, and the extra
    /// step counted beyond the last interior sample, as seen by contracts.
    spec fn spec_len() -> usize;

    /// Offset of the first interior sample from the endpoint.
    fn len() -> (r: usize)
        ensures
            r == Self::spec_len(),
    ;
}

/// Open edges: interior samples are offset one step inward, so no sample
/// coincides with a domain endpoint.
#[derive(Clone, Copy, Debug)]
pub struct Open {}

/// Closed edges: the first and last interior samples sit exactly at the
/// domain endpoints.
#[derive(Clone, Copy, Debug)]
pub struct Closed {}

impl Edge for Open {
    open spec fn spec_len() -> usize {
        1
    }

    fn len() -> usize {
        1
    }
}

impl Edge for Closed {
    open spec fn spec_len() -> usize {
        0
    }

    fn len() -> usize {
        0
    }
}

/// Coordinate sample index of interior sample `i` under edge kind `E`: the
/// physical coordinate of the sample is this many grid spacings from the
/// left domain endpoint.
pub open spec fn sample_index<E: Edge>(i: int) -> int {
    i + E::spec_len()
}

/// Number of grid spacings that the domain length spans for an interior of
/// `n` samples under edge kind `E`: the spacing is the domain length
/// divided by this count, and the sample indices `0` and `spec_dx_steps`
/// are the two domain endpoints.
pub open spec fn spec_dx_steps<E: Edge>(n: int) -> int {
    n + 2 * E::spec_len() - 1
}

/// The neighborhood a one-neighbor stencil reads at interior point `i` of
/// a bounded grid with padded buffer `raw` and padding `p`: plain offsets,
/// no wraparound, with out-of-range reads landing in the halo.
pub open spec fn line_n1d1_at<A>(raw: Seq<A>, p: int, i: int) -> N1D1<A>
    recommends
        1 <= p,
        0 <= i,
        p + i + 1 < raw.len(),
{
    N1D1 { l: raw[p + i - 1], r: raw[p + i + 1], c: raw[p + i] }
}

/// The neighborhood a two-neighbor stencil reads at interior point `i` of
/// a bounded grid with padded buffer `raw` and padding `p`.
pub open spec fn line_n2d1_at<A>(raw: Seq<A>, p: int, i: int) -> N2D1<A>
    recommends
        2 <= p,
        0 <= i,
        p + i + 2 < raw.len(),
{
    N2D1 {
        l: raw[p + i - 1],
        r: raw[p + i + 1],
        ll: raw[p + i - 2],
        rr: raw[p + i + 2],
        c: raw[p + i],
    }
}

/// Bounded one-dimensional grid with typed padding `P` and edge kind `E`.
///
/// The view of a `Line` is its interior alone; the halo is reachable only
/// through the stencil neighborhoods and is pinned by [`Line::halo_filled`].
#[derive(Clone)]
pub struct Line<A, P: Padding, E: Edge> {
    data: Vec<A>,
    left: A,
    right: A,
    length: A,
    boundary: PhantomData<(P, E)>,
}

impl<A, P: Padding, E: Edge> View for Line<A, P, E> {
    type V = Seq<A>;

    closed spec fn view(&self) -> Seq<A> {
        self.data@.subrange(
            P::spec_len() as int,
            self.data@.len() - P::spec_len(),
        )
    }
}

impl<A, P: Padding, E: Edge> Line<A, P, E> {
    /// The whole padded buffer, halo included, as seen by contracts.
    pub closed spec fn raw(&self) -> Seq<A> {
        self.data@
    }

    /// The configured left boundary value.
    pub closed spec fn spec_left(&self) -> A {
        self.left
    }

    /// The configured right boundary value.
    pub closed spec fn spec_right(&self) -> A {
        self.right
    }

    /// The configured domain length, kept for the caller; the grid itself
    /// never computes with it.
    pub closed spec fn spec_length(&self) -> A {
        self.length
    }

    /// The buffer holds the interior plus `P` halo cells on each side.
    pub open spec fn wf(&self) -> bool {
        self.raw().len() >= 2 * P::spec_len()
    }

    /// Every halo cell holds the boundary value of its side: the `P` cells
    /// before the interior hold the left value and the `P` cells after it
    /// hold the right value, exactly.
    pub open spec fn halo_filled(&self) -> bool {
        &&& forall|k: int| 0 <= k < P::spec_len() ==> self.raw()[k] == self.spec_left()
        &&& forall|k: int|
            self.raw().len() - P::spec_len() <= k < self.raw().len() ==> self.raw()[k]
                == self.spec_right()
    }
}

impl<A: Copy, P: Padding, E: Edge> Line<A, P, E> {
    /// Allocate a bounded grid of `n` interior samples with `P` halo cells
    /// on each side, remember the boundary values and the domain length,
    /// fill the interior with `left`, and fill the halo.
    pub fn new(n: usize, left: A, right: A, length: A) -> (t: Self)
        requires
            n + 2 * P::spec_len() <= usize::MAX,
        ensures
            t.wf(),
            t@.len() == n,
            t.spec_left() == left,
            t.spec_right() == right,
            t.spec_length() == length,
            forall|i: int| 0 <= i < n ==> t@[i] == left,
            t.halo_filled(),
    {
        let p = P::len();
        let total = n + 2 * p;
        let mut data: Vec<A> = Vec::new();
        let mut k: usize = 0;
        while k < total
            invariant
                k <= total,
                data@.len() == k,
                forall|i: int| 0 <= i < k ==> data@[i] == left,
            decreases total - k,
        {
            data.push(left);
            k = k + 1;
        }
        let mut t = Line { data, left, right, length, boundary: PhantomData };
        t.fill_edge();
        t
    }

    /// Re-establish the boundary rule: write the left boundary value into
    /// the `P` halo cells before the interior and the right boundary value
    /// into the `P` halo cells after it. The interior is untouched.
    pub fn fill_edge(&mut self)
        requires
            old(self).wf(),
        ensures
            final(self).wf(),
            final(self)@ == old(self)@,
            final(self).halo_filled(),
            final(self).spec_left() == old(self).spec_left(),
            final(self).spec_right() == old(self).spec_right(),
            final(self).spec_length() == old(self).spec_length(),
    {
        let p = P::len();
        let total = self.data.len();
        let mut k: usize = 0;
        while k < p
            invariant
                k <= p,
                p == P::spec_len(),
                self.data@.len() == total,
                2 * p <= total,
                self.left == old(self).spec_left(),
                self.right == old(self).spec_right(),
                self.length == old(self).spec_length(),
                forall|i: int| 0 <= i < k ==> self.data@[i] == self.left,
                forall|i: int| k <= i < total ==> self.data@[i] == old(self).raw()[i],
            decreases p - k,
        {
            let v = self.left;
            self.data.set(k, v);
            k = k + 1;
        }
        let mut k2: usize = 0;
        while k2 < p
            invariant
                k2 <= p,
                p == P::spec_len(),
                self.data@.len() == total,
                2 * p <= total,
                self.left == old(self).spec_left(),
                self.right == old(self).spec_right(),
                self.length == old(self).spec_length(),
                forall|i: int| 0 <= i < p ==> self.data@[i] == self.left,
                forall|i: int| total - k2 <= i < total ==> self.data@[i] == self.right,
                forall|i: int| p <= i < total - k2 ==> self.data@[i] == old(self).raw()[i],
            decreases p - k2,
        {
            let v = self.right;
            self.data.set(total - 1 - k2, v);
            k2 = k2 + 1;
        }
        proof {
            assert(self@ =~= old(self)@);
        }
    }

    /// Logical size of the grid: the number of interior samples.
    pub fn shape(&self) -> (n: usize)
        requires
            self.wf(),
        ensures
            n == self@.len(),
    {
        self.data.len() - 2 * P::len()
    }

    /// A copy of the interior samples in index order; the halo is not
    /// included.
    pub fn as_view(&self) -> (v: Vec<A>)
        requires
            self.wf(),
        ensures
            v@ == self@,
    {
        let p = P::len();
        let total = self.data.len();
        let n = total - 2 * p;
        let mut v: Vec<A> = Vec::new();
        let mut k: usize = 0;
        while k < n
            invariant
                k <= n,
                p == P::spec_len(),
                n + 2 * p == total,
                total == self.raw().len(),
                v@.len() == k,
                forall|i: int| 0 <= i < k ==> v@[i] == self.raw()[p + i],
            decreases n - k,
        {
            v.push(self.data[p + k]);
            k = k + 1;
        }
        proof {
            assert(v@ =~= self@);
        }
        v
    }

    /// The configured left boundary value.
    pub fn left(&self) -> (r: A)
        ensures
            r == self.spec_left(),
    {
        self.left
    }

    /// The configured right boundary value.
    pub fn right(&self) -> (r: A)
        ensures
            r == self.spec_right(),
    {
        self.right
    }

    /// The configured domain length.
    pub fn length(&self) -> (r: A)
        ensures
            r == self.spec_length(),
    {
        self.length
    }

    /// Number of grid spacings that the domain length spans: the caller
    /// derives the spacing by dividing the domain length by this count.
    pub fn dx_steps(&self) -> (r: usize)
        requires
            self.wf(),
            self@.len() + 2 * E::spec_len() >= 1,
            self@.len() + 2 * E::spec_len() <= usize::MAX,
        ensures
            r == spec_dx_steps::<E>(self@.len() as int),
    {
        let n = self.data.len() - 2 * P::len();
        n + 2 * E::len() - 1
    }

    /// Fill the interior by a function of the coordinate sample index:
    /// interior sample `i` receives `f(sample_index(i))`, then the halo is
    /// re-established. The physical coordinate of sample index `s` is `s`
    /// times the grid spacing, which the caller folds into `f`.
    pub fn coordinate_fill<F: Fn(usize) -> A>(&mut self, f: F)
        requires
            old(self).wf(),
            old(self)@.len() + E::spec_len() <= usize::MAX,
            forall|i: int|
                0 <= i < old(self)@.len() ==> call_requires(
                    f,
                    (sample_index::<E>(i) as usize,),
                ),
        ensures
            final(self).wf(),
            final(self)@.len() == old(self)@.len(),
            forall|i: int|
                0 <= i < final(self)@.len() ==> call_ensures(
                    f,
                    (sample_index::<E>(i) as usize,),
                    #[trigger] final(self)@[i],
                ),
            final(self).halo_filled(),
            final(self).spec_left() == old(self).spec_left(),
            final(self).spec_right() == old(self).spec_right(),
            final(self).spec_length() == old(self).spec_length(),
    {
        let p = P::len();
        let off = E::len();
        let total = self.data.len();
        let n = total - 2 * p;
        proof {
            assert(n == old(self)@.len());
        }
        let mut k: usize = 0;
        while k < n
            invariant
                k <= n,
                p == P::spec_len(),
                off == E::spec_len(),
                n + 2 * p == total,
                total == self.raw().len(),
                n == old(self)@.len(),
                n + off <= usize::MAX,
                self.left == old(self).spec_left(),
                self.right == old(self).spec_right(),
                self.length == old(self).spec_length(),
                forall|i: int|
                    0 <= i < n ==> call_requires(f, (sample_index::<E>(i) as usize,)),
                forall|i: int|
                    0 <= i < k ==> call_ensures(
                        f,
                        (sample_index::<E>(i) as usize,),
                        #[trigger] self.raw()[p + i],
                    ),
            decreases n - k,
        {
            proof {
                assert(call_requires(f, (sample_index::<E>(k as int) as usize,)));
                assert(sample_index::<E>(k as int) as usize == k + off);
            }
            let v = f(k + off);
            self.data.set(p + k, v);
            k = k + 1;
        }
        self.fill_edge();
        proof {
            assert forall|i: int| 0 <= i < n implies self@[i] == self.raw()[p + i] by {
                assert(self@.len() == n);
            }
        }
    }

    /// Transform the interior in place by a function of the coordinate
    /// sample index and the current value: interior sample `i` becomes
    /// `f(sample_index(i), old value)`, then the halo is re-established.
    pub fn coordinate_map<F: Fn(usize, A) -> A>(&mut self, f: F)
        requires
            old(self).wf(),
            old(self)@.len() + E::spec_len() <= usize::MAX,
            forall|i: int|
                0 <= i < old(self)@.len() ==> call_requires(
                    f,
                    (sample_index::<E>(i) as usize, old(self)@[i]),
                ),
        ensures
            final(self).wf(),
            final(self)@.len() == old(self)@.len(),
            forall|i: int|
                0 <= i < final(self)@.len() ==> call_ensures(
                    f,
                    (sample_index::<E>(i) as usize, old(self)@[i]),
                    #[trigger] final(self)@[i],
                ),
            final(self).halo_filled(),
            final(self).spec_left() == old(self).spec_left(),
            final(self).spec_right() == old(self).spec_right(),
            final(self).spec_length() == old(self).spec_length(),
    {
        let p = P::len();
        let off = E::len();
        let total = self.data.len();
        let n = total - 2 * p;
        proof {
            assert(n == old(self)@.len());
        }
        let mut k: usize = 0;
        while k < n
            invariant
                k <= n,
                p == P::spec_len(),
                off == E::spec_len(),
                n + 2 * p == total,
                total == self.raw().len(),
                n == old(self)@.len(),
                n + off <= usize::MAX,
                self.left == old(self).spec_left(),
                self.right == old(self).spec_right(),
                self.length == old(self).spec_length(),
                forall|i: int| k <= i < n ==> self.raw()[p + i] == old(self)@[i],
                forall|i: int|
                    0 <= i < n ==> call_requires(
                        f,
                        (sample_index::<E>(i) as usize, old(self)@[i]),
                    ),
                forall|i: int|
                    0 <= i < k ==> call_ensures(
                        f,
                        (sample_index::<E>(i) as usize, old(self)@[i]),
                        #[trigger] self.raw()[p + i],
                    ),
            decreases n - k,
        {
            let cur = self.data[p + k];
            proof {
                assert(cur == old(self)@[k as int]);
                assert(call_requires(
                    f,
                    (sample_index::<E>(k as int) as usize, old(self)@[k as int]),
                ));
                assert(sample_index::<E>(k as int) as usize == k + off);
            }
            let v = f(k + off, cur);
            self.data.set(p + k, v);
            k = k + 1;
        }
        self.fill_edge();
        proof {
            assert forall|i: int| 0 <= i < n implies self@[i] == self.raw()[p + i] by {
                assert(self@.len() == n);
            }
        }
    }

    /// Evaluate a one-neighbor stencil: for every interior index `i`,
    /// gather the halo-backed neighborhood [`line_n1d1_at`] and write `f`
    /// of it into `out`'s interior at `i`, then re-establish `out`'s halo.
    /// The trait bound demands that the grid's padding capacity covers the
    /// stencil's radius, so every neighbor read is in bounds by
    /// construction. `out`'s prior contents are irrelevant; they are fully
    /// overwritten on success and untouched on rejection.
    ///
    /// Rejected with [`StencilError::ShapeMismatch`] when `out`'s logical
    /// size differs from the source's.
    pub fn stencil_map<F: Fn(N1D1<A>) -> A>(&self, out: &mut Self, f: F) -> (r: Result<
        (),
        StencilError,
    >) where P: GreaterEq<<N1D1<A> as Stencil>::Padding>
        requires
            self.wf(),
            old(out).wf(),
            forall|i: int|
                0 <= i < self@.len() ==> call_requires(
                    f,
                    (line_n1d1_at(self.raw(), P::spec_len() as int, i),),
                ),
        ensures
            r is Ok <==> old(out)@.len() == self@.len(),
            r is Err ==> r == Err::<(), StencilError>(StencilError::ShapeMismatch)
                && final(out).raw() == old(out).raw(),
            final(out).wf(),
            final(out).spec_left() == old(out).spec_left(),
            final(out).spec_right() == old(out).spec_right(),
            final(out).spec_length() == old(out).spec_length(),
            r is Ok ==> final(out)@.len() == self@.len() && forall|i: int|
                0 <= i < self@.len() ==> call_ensures(
                    f,
                    (line_n1d1_at(self.raw(), P::spec_len() as int, i),),
                    #[trigger] final(out)@[i],
                ),
            r is Ok ==> final(out).halo_filled(),
    {
        proof {
            P::ge();
        }
        let p = P::len();
        let total = self.data.len();
        let n = total - 2 * p;
        if out.data.len() - 2 * p != n {
            return Err(StencilError::ShapeMismatch);
        }
        let mut k: usize = 0;
        while k < n
            invariant
                k <= n,
                1 <= p,
                p == P::spec_len(),
                n + 2 * p == total,
                total == self.raw().len(),
                n + 2 * p == out.raw().len(),
                out.left == old(out).spec_left(),
                out.right == old(out).spec_right(),
                out.length == old(out).spec_length(),
                forall|i: int|
                    0 <= i < n ==> call_requires(f, (line_n1d1_at(self.raw(), p as int, i),)),
                forall|i: int|
                    0 <= i < k ==> call_ensures(
                        f,
                        (line_n1d1_at(self.raw(), p as int, i),),
                        #[trigger] out.raw()[p + i],
                    ),
            decreases n - k,
        {
            let nn = N1D1 {
                l: self.data[p + k - 1],
                r: self.data[p + k + 1],
                c: self.data[p + k],
            };
            assert(nn == line_n1d1_at(self.raw(), p as int, k as int));
            let v = f(nn);
            out.data.set(p + k, v);
            k = k + 1;
        }
        out.fill_edge();
        proof {
            assert forall|i: int| 0 <= i < n implies out@[i] == out.raw()[p + i] by {
                assert(out@.len() == n);
            }
        }
        Ok(())
    }

    /// Evaluate a two-neighbor stencil: as [`Line::stencil_map`], but the
    /// gathered neighborhood is [`line_n2d1_at`], two cells deep on each
    /// side, so the trait bound demands a padding capacity of at least two.
    pub fn stencil_map_n2d1<F: Fn(N2D1<A>) -> A>(&self, out: &mut Self, f: F) -> (r: Result<
        (),
        StencilError,
    >) where P: GreaterEq<<N2D1<A> as Stencil>::Padding>
        requires
            self.wf(),
            old(out).wf(),
            forall|i: int|
                0 <= i < self@.len() ==> call_requires(
                    f,
                    (line_n2d1_at(self.raw(), P::spec_len() as int, i),),
                ),
        ensures
            r is Ok <==> old(out)@.len() == self@.len(),
            r is Err ==> r == Err::<(), StencilError>(StencilError::ShapeMismatch)
                && final(out).raw() == old(out).raw(),
            final(out).wf(),
            final(out).spec_left() == old(out).spec_left(),
            final(out).spec_right() == old(out).spec_right(),
            final(out).spec_length() == old(out).spec_length(),
            r is Ok ==> final(out)@.len() == self@.len() && forall|i: int|
                0 <= i < self@.len() ==> call_ensures(
                    f,
                    (line_n2d1_at(self.raw(), P::spec_len() as int, i),),
                    #[trigger] final(out)@[i],
                ),
            r is Ok ==> final(out).halo_filled(),
    {
        proof {
            P::ge();
        }
        let p = P::len();
        let total = self.data.len();
        let n = total - 2 * p;
        if out.data.len() - 2 * p != n {
            return Err(StencilError::ShapeMismatch);
        }
        let mut k: usize = 0;
        while k < n
            invariant
                k <= n,
                2 <= p,
                p == P::spec_len(),
                n + 2 * p == total,
                total == self.raw().len(),
                n + 2 * p == out.raw().len(),
                out.left == old(out).spec_left(),
                out.right == old(out).spec_right(),
                out.length == old(out).spec_length(),
                forall|i: int|
                    0 <= i < n ==> call_requires(f, (line_n2d1_at(self.raw(), p as int, i),)),
                forall|i: int|
                    0 <= i < k ==> call_ensures(
                        f,
                        (line_n2d1_at(self.raw(), p as int, i),),
                        #[trigger] out.raw()[p + i],
                    ),
            decreases n - k,
        {
            let nn = N2D1 {
                l: self.data[p + k - 1],
                r: self.data[p + k + 1],
                ll: self.data[p + k - 2],
                rr: self.data[p + k + 2],
                c: self.data[p + k],
            };
            assert(nn == line_n2d1_at(self.raw(), p as int, k as int));
            let v = f(nn);
            out.data.set(p + k, v);
            k = k + 1;
        }
        out.fill_edge();
        proof {
            assert forall|i: int| 0 <= i < n implies out@[i] == out.raw()[p + i] by {
                assert(out@.len() == n);
            }
        }
        Ok(())
    }
}

/// Closed-boundary sampling hits the endpoints: the first interior sample
/// of a closed grid sits at coordinate sample index zero, the left domain
/// endpoint, and the last sits at `spec_dx_steps`, the right endpoint.
pub proof fn lemma_closed_samples_hit_endpoints(n: int)
    requires
        2 <= n,
    ensures
        sample_index::<Closed>(0) == 0,
        sample_index::<Closed>(n - 1) == spec_dx_steps::<Closed>(n),
{
}

/// Open-boundary sampling avoids the endpoints: every interior sample of
/// an open grid sits strictly between sample index zero, the left domain
/// endpoint, and `spec_dx_steps`, the right endpoint.
pub proof fn lemma_open_samples_avoid_endpoints(n: int, i: int)
    requires
        0 <= i < n,
    ensures
        0 < sample_index::<Open>(i),
        sample_index::<Open>(i) < spec_dx_steps::<Open>(n),
{
}

} // verus!
