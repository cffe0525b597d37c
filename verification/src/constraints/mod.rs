//! Backend-independent identities used to audit Gromov--Witten computations.

pub mod virasoro;
