//! Typed paddings: small capacity tags that say how many halo cells a
//! bounded grid allocates on each side of its logical domain.

use vstd::prelude::*;

verus! {

/// Trait for typed paddings.
///
/// A padding type stands for a fixed halo capacity; `spec_len` is that
/// capacity as a mathematical value and `len` returns it at run time.
pub trait Padding: Sized {
    /// Halo capacity of this padding, as seen by contracts.
    spec fn spec_len() -> usize;

    /// Halo capacity of this padding.
    fn len() -> (r: usize)
        ensures
            r == Self::spec_len(),
    ;
}

/// Padding of one cell on each side.
#[derive(Clone, Copy, Debug)]
pub struct P1 {}

/// Padding of two cells on each side.
#[derive(Clone, Copy, Debug)]
pub struct P2 {}

/// Padding of three cells on each side.
#[derive(Clone, Copy, Debug)]
pub struct P3 {}

impl Padding for P1 {
    open spec fn spec_len() -> usize {
        1
    }

    fn len() -> usize {
        1
    }
}

impl Padding for P2 {
    open spec fn spec_len() -> usize {
        2
    }

    fn len() -> usize {
        2
    }
}

impl Padding for P3 {
    open spec fn spec_len() -> usize {
        3
    }

    fn len() -> usize {
        3
    }
}

/// Compare padding sizes: `Self` is at most `P`.
///
/// An implementation carries a proof of the inequality, so a trait bound
/// `Pa: LessEq<Pb>` is a verified capacity comparison, not a bare marker.
pub trait LessEq<P: Padding>: Padding {
    /// The capacity of `Self` is no more than the capacity of `P`.
    proof fn le()
        ensures
            Self::spec_len() <= P::spec_len(),
    ;
}

/// Compare padding sizes: `Self` is at least `P`.
pub trait GreaterEq<P: Padding>: Padding {
    /// The capacity of `Self` is no less than the capacity of `P`.
    proof fn ge()
        ensures
            Self::spec_len() >= P::spec_len(),
    ;
}

/// Compare padding sizes: `Self` has exactly the capacity of `P`.
pub trait EqualTo<P: Padding>: Padding {
    /// The capacity of `Self` equals the capacity of `P`.
    proof fn eq()
        ensures
            Self::spec_len() == P::spec_len(),
    ;
}

impl LessEq<P1> for P1 {
    proof fn le() {
    }
}

impl LessEq<P2> for P1 {
    proof fn le() {
    }
}

impl LessEq<P2> for P2 {
    proof fn le() {
    }
}

impl LessEq<P3> for P1 {
    proof fn le() {
    }
}

impl LessEq<P3> for P2 {
    proof fn le() {
    }
}

impl LessEq<P3> for P3 {
    proof fn le() {
    }
}

impl GreaterEq<P1> for P1 {
    proof fn ge() {
    }
}

impl GreaterEq<P1> for P2 {
    proof fn ge() {
    }
}

impl GreaterEq<P1> for P3 {
    proof fn ge() {
    }
}

impl GreaterEq<P2> for P2 {
    proof fn ge() {
    }
}

impl GreaterEq<P2> for P3 {
    proof fn ge() {
    }
}

impl GreaterEq<P3> for P3 {
    proof fn ge() {
    }
}

impl<Pa: LessEq<Pb> + GreaterEq<Pb>, Pb: Padding> EqualTo<Pb> for Pa {
    proof fn eq() {
        Pa::le();
        Pa::ge();
    }
}

/// A grid whose padding capacity satisfies `Pg: GreaterEq<Ps>` always has
/// room for a stencil that demands `Ps` halo cells: the capacity is at
/// least the demanded radius.
pub proof fn lemma_padding_capacity<Pg: GreaterEq<Ps>, Ps: Padding>()
    ensures
        Pg::spec_len() >= Ps::spec_len(),
{
    Pg::ge();
}

} // verus!
