//! Public error boundary for mathematical support and finite-work failures.

use vstd::prelude::*;
use crate::text::{decimal, push_str, push_string, push_usize};

verus! {

#[derive(Debug, Clone, PartialEq, Eq)]
#[non_exhaustive]
pub enum GwError {
    UnsupportedInvariant(String),
    /// A target/backend combination is understood, but a named mathematical
    /// feature is not implemented for the witnessed case.
    UnsupportedFeature { target: String, feature: String, witness: String },
    /// A checked finite-work or retained-state boundary was exceeded. Each
    /// call site stops before the guarded operation or additional retention.
    ResourceLimit { operation: String, requested: usize, limit: usize },
    NonSemisimplePoint,
    TruncationTooLow,
    NonFiniteLimit(String),
    ConventionMismatch(String),
    AlgebraFailure(String),
    ValidationFailure(String),
    ParseError(String),
}

impl GwError {
    /// The human-readable spelling of the error.
    pub open spec fn spec_message(&self) -> Seq<char> {
        match self {
            GwError::UnsupportedInvariant(msg) => "unsupported invariant: "@ + msg@,
            GwError::UnsupportedFeature { target, feature, witness } => "unsupported "@
                + feature@ + " for "@ + target@ + ": "@ + witness@,
            GwError::ResourceLimit { operation, requested, limit } => "resource limit: "@
                + operation@ + " requested "@ + decimal(*requested as nat) + ", limit "@
                + decimal(*limit as nat),
            GwError::NonSemisimplePoint => "non-semisimple Frobenius point"@,
            GwError::TruncationTooLow => "requested truncation is too low"@,
            GwError::NonFiniteLimit(msg) => "non-finite limit: "@ + msg@,
            GwError::ConventionMismatch(msg) => "convention mismatch: "@ + msg@,
            GwError::AlgebraFailure(msg) => "algebra failure: "@ + msg@,
            GwError::ValidationFailure(msg) => "validation failure: "@ + msg@,
            GwError::ParseError(msg) => "parse error: "@ + msg@,
        }
    }

    /// Renders the error message (the text a `Display` implementation would
    /// print).
    pub fn message(&self) -> (out: String)
        ensures
            out@ == self.spec_message(),
    {
        let mut out = String::new();
        match self {
            GwError::UnsupportedInvariant(msg) => {
                push_str(&mut out, "unsupported invariant: ");
                push_string(&mut out, msg);
            },
            GwError::UnsupportedFeature { target, feature, witness } => {
                push_str(&mut out, "unsupported ");
                push_string(&mut out, feature);
                push_str(&mut out, " for ");
                push_string(&mut out, target);
                push_str(&mut out, ": ");
                push_string(&mut out, witness);
            },
            GwError::ResourceLimit { operation, requested, limit } => {
                push_str(&mut out, "resource limit: ");
                push_string(&mut out, operation);
                push_str(&mut out, " requested ");
                push_usize(&mut out, *requested);
                push_str(&mut out, ", limit ");
                push_usize(&mut out, *limit);
            },
            GwError::NonSemisimplePoint => {
                push_str(&mut out, "non-semisimple Frobenius point");
            },
            GwError::TruncationTooLow => {
                push_str(&mut out, "requested truncation is too low");
            },
            GwError::NonFiniteLimit(msg) => {
                push_str(&mut out, "non-finite limit: ");
                push_string(&mut out, msg);
            },
            GwError::ConventionMismatch(msg) => {
                push_str(&mut out, "convention mismatch: ");
                push_string(&mut out, msg);
            },
            GwError::AlgebraFailure(msg) => {
                push_str(&mut out, "algebra failure: ");
                push_string(&mut out, msg);
            },
            GwError::ValidationFailure(msg) => {
                push_str(&mut out, "validation failure: ");
                push_string(&mut out, msg);
            },
            GwError::ParseError(msg) => {
                push_str(&mut out, "parse error: ");
                push_string(&mut out, msg);
            },
        }
        proof {
            assert(out@ =~= self.spec_message());
        }
        out
    }
}

} // verus!
