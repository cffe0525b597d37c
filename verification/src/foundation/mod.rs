//! Foundational contracts shared by every target space.

pub mod algebra;
pub mod bounded_cache;
pub mod error;
pub mod gw_theory;
pub mod matrix_algebra;
pub mod moduli;
pub mod plain_series;
pub mod rational;
pub mod series;
pub mod series_matrix;
pub mod state_space;
pub mod theory;
