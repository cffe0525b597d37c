//! Conventions and truncation data of the Givental--Teleman graph
//! reconstruction.

use vstd::prelude::*;

verus! {

/// Optional caller-imposed cap on the `z`-order of the `S`/`R` calibration.
///
/// The graph engine derives the order it needs from each request and reports
/// a truncation error when this cap is below that.  Only the `z`-order is
/// configurable.
#[derive(Debug, Clone, PartialEq, Eq)]
pub struct Truncation {
    pub z_order: usize,
}

/// Which canonical metric norm the diagonal vertex factor `Delta` denotes.
#[derive(Debug, Clone, Copy, PartialEq, Eq)]
pub enum DeltaConvention {
    MetricNorm,
    InverseMetricNorm,
}

/// Identifies the convention used to produce a calibration.
///
/// This is metadata, not mathematics: it keeps tests and error messages
/// honest when several possible `R`/`S` normalizations are present.
#[derive(Debug, Clone, PartialEq, Eq)]
pub struct CalibrationId(pub String);

/// Basis and normalization of the semisimple frame.
///
/// The graph evaluator assumes diagonal TFT vertices.  The exact powers of the
/// canonical metric depend on whether idempotents have already been normalized
/// by square roots of metric norms, so the convention is kept explicit.
#[derive(Debug, Clone, Copy, PartialEq, Eq)]
pub enum CanonicalFrameConvention {
    FlatBasis,
    UnnormalizedCanonicalIdempotents,
    RelativeNormalizedCanonicalIdempotents,
    NormalizedCanonicalIdempotents,
}

} // verus!
