//! Exact Gromov--Witten bookkeeping for projective targets: curve-class and
//! state-space data, symbolic Virasoro coefficient equations and their audit
//! reports, and explainable Givental formula skeletons.

pub mod arguments;
pub mod error;
pub mod constraints;
pub mod formula;
pub mod foundation;
pub mod frobenius;
pub mod geometry;
pub mod givental;
pub mod order;
pub mod resolvent;
pub mod text;
