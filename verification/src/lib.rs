//! Stencil calculations over uniformly spaced grids.
//!
//! The library evaluates local finite-difference ("stencil") operators on
//! structured grids. A grid owns a contiguous buffer of scalar values; a
//! stencil pass gathers, for every interior point, a small fixed bundle of
//! neighboring values and applies a caller-supplied function to produce the
//! value at the same point of a destination grid.
//!
//! Two boundary topologies are provided:
//!
//! * [`torus::Torus`] / [`torus2::Torus2`] — periodic grids where neighbor
//!   lookups wrap around, so no extra storage is needed;
//! * [`region::Line`] — bounded grids that allocate halo cells, sized by a
//!   typed padding capacity, and keep the configured boundary values there.
//!
//! The element type is a caller-chosen `Copy` scalar that the engine never
//! computes with: it only moves values between buffers and into the
//! caller's neighborhood function, so every contract here is about which
//! value lands where. Coordinates are handed to fill and map functions as
//! integer sample indices; the caller turns a sample index into a physical
//! coordinate by scaling with its own grid spacing.

use vstd::prelude::*;

pub mod padding;
pub mod region;
pub mod torus;
pub mod torus2;

verus! {

/// Why a stencil pass was rejected without writing anything.
#[derive(Clone, Copy, Debug, PartialEq, Eq, Structural)]
pub enum StencilError {
    /// The source grid is too small for the stencil's radius: a wrapped
    /// neighbor lookup would alias a cell with itself.
    TooSmall,
    /// The destination grid's logical shape differs from the source's.
    ShapeMismatch,
}

/// A stencil shape: declares the padding capacity (radius) its neighbor
/// lookups demand of a bounded grid.
pub trait Stencil {
    /// The padding a grid must allocate before this stencil may run on it.
    type Padding: padding::Padding;
}

/// One-neighbor, one-dimensional stencil: the ephemeral bundle of values
/// handed to the caller's function at each grid point.
#[derive(Clone, Copy)]
pub struct N1D1<A> {
    /// left neighbor
    pub l: A,
    /// right neighbor
    pub r: A,
    /// center
    pub c: A,
}

impl<A> Stencil for N1D1<A> {
    type Padding = padding::P1;
}

/// Two-neighbor, one-dimensional stencil.
#[derive(Clone, Copy)]
pub struct N2D1<A> {
    /// left neighbor
    pub l: A,
    /// right neighbor
    pub r: A,
    /// left of left
    pub ll: A,
    /// right of right
    pub rr: A,
    /// center
    pub c: A,
}

impl<A> Stencil for N2D1<A> {
    type Padding = padding::P2;
}

/// One-neighbor, two-dimensional stencil.
#[derive(Clone, Copy)]
pub struct N1D2<A> {
    /// top: next sample along the second axis
    pub t: A,
    /// bottom: previous sample along the second axis
    pub b: A,
    /// left: previous sample along the first axis
    pub l: A,
    /// right: next sample along the first axis
    pub r: A,
    /// center
    pub c: A,
}

impl<A> Stencil for N1D2<A> {
    type Padding = padding::P1;
}

/// A stencil pass is a function of the source alone. Let `nbhd` be the
/// neighborhood that a pass gathers at each point (wrapped for a periodic
/// grid, halo-backed for a bounded one), `ok` the input-output relation of
/// the neighborhood function, and `g` a function that pins `ok` down, so
/// that every value `ok` admits for a neighborhood is `g` of it. Then any
/// two output sequences whose entries `ok` admits over the same gathers
/// are equal — whatever either destination buffer held before its pass.
pub proof fn lemma_stencil_determined_by_source<NB, A>(
    n: int,
    nbhd: spec_fn(int) -> NB,
    ok: spec_fn(NB, A) -> bool,
    g: spec_fn(NB) -> A,
    o1: Seq<A>,
    o2: Seq<A>,
)
    requires
        forall|nb: NB, y: A| #[trigger] ok(nb, y) ==> y == g(nb),
        o1.len() == n,
        o2.len() == n,
        forall|i: int| 0 <= i < n ==> ok(nbhd(i), #[trigger] o1[i]),
        forall|i: int| 0 <= i < n ==> ok(nbhd(i), #[trigger] o2[i]),
    ensures
        o1 == o2,
{
    assert forall|i: int| 0 <= i < n implies o1[i] == o2[i] by {
        assert(o1[i] == g(nbhd(i)));
        assert(o2[i] == g(nbhd(i)));
    }
    assert(o1 =~= o2);
}

} // verus!
