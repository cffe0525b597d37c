//! Human-facing Givental graph formula explanations: what the basis
//! elements mean, which truncation orders are finite for fixed `(g,m)`, and
//! how the formal ingredients are read for concrete calibrations.

pub mod atoms;
pub mod basis;
pub mod expansion;
pub mod skeleton;
