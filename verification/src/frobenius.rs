//! The Frobenius algebras of equivariant projective space.

use vstd::prelude::*;
use crate::geometry::EquivariantProjectiveSpace;

verus! {

/// Which product the Frobenius algebra carries.
#[derive(Debug, Clone, Copy, PartialEq, Eq)]
pub enum ProductKind {
    ClassicalEquivariant,
    QuantumEquivariant,
}

/// Classical or small-quantum Frobenius algebra of equivariant `P^n`.
#[derive(Debug, Clone, PartialEq, Eq)]
pub struct FrobeniusData {
    pub target: EquivariantProjectiveSpace,
    pub product: ProductKind,
}

} // verus!
