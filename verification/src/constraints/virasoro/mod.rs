//! Symbolic Virasoro constraints and their audit reports.

pub mod ast;
pub mod evaluator;
pub mod generator;
pub mod keyed;
pub mod notation;
pub mod qrr;
pub mod render;
pub mod report;
pub mod scan;
