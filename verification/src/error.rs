//! The error type of the formula and resolvent modules: unsupported
//! requests, convention mismatches, algebra and parse failures.

use vstd::prelude::*;
use crate::text::{push_str, push_string};

verus! {

#[derive(Debug, Clone, PartialEq, Eq)]
pub enum GwError {
    UnsupportedInvariant(String),
    NonSemisimplePoint,
    TruncationTooLow,
    NonFiniteLimit(String),
    ConventionMismatch(String),
    AlgebraFailure(String),
    ValidationFailure(String),
    ParseError(String),
}

impl GwError {
    /// The human-readable spelling of the error.
    pub open spec fn spec_message(&self) -> Seq<char> {
        match self {
            GwError::UnsupportedInvariant(msg) => "unsupported invariant: "@ + msg@,
            GwError::NonSemisimplePoint => "non-semisimple Frobenius point"@,
            GwError::TruncationTooLow => "requested truncation is too low"@,
            GwError::NonFiniteLimit(msg) => "non-finite limit: "@ + msg@,
            GwError::ConventionMismatch(msg) => "convention mismatch: "@ + msg@,
            GwError::AlgebraFailure(msg) => "algebra failure: "@ + msg@,
            GwError::ValidationFailure(msg) => "validation failure: "@ + msg@,
            GwError::ParseError(msg) => "parse error: "@ + msg@,
        }
    }

    /// Renders the error message (the text a `Display` implementation would
    /// print).
    pub fn message(&self) -> (out: String)
        ensures
            out@ == self.spec_message(),
    {
        let mut out = String::new();
        match self {
            GwError::UnsupportedInvariant(msg) => {
                push_str(&mut out, "unsupported invariant: ");
                push_string(&mut out, msg);
            },
            GwError::NonSemisimplePoint => {
                push_str(&mut out, "non-semisimple Frobenius point");
            },
            GwError::TruncationTooLow => {
                push_str(&mut out, "requested truncation is too low");
            },
            GwError::NonFiniteLimit(msg) => {
                push_str(&mut out, "non-finite limit: ");
                push_string(&mut out, msg);
            },
            GwError::ConventionMismatch(msg) => {
                push_str(&mut out, "convention mismatch: ");
                push_string(&mut out, msg);
            },
            GwError::AlgebraFailure(msg) => {
                push_str(&mut out, "algebra failure: ");
                push_string(&mut out, msg);
            },
            GwError::ValidationFailure(msg) => {
                push_str(&mut out, "validation failure: ");
                push_string(&mut out, msg);
            },
            GwError::ParseError(msg) => {
                push_str(&mut out, "parse error: ");
                push_string(&mut out, msg);
            },
        }
        proof {
            assert(out@ =~= self.spec_message());
        }
        out
    }
}

} // verus!
