//! Diagnostics that the compiler reports on rule conditions.

use vstd::prelude::*;

verus! {

/// A range of bytes in the source of a rule.
#[derive(Clone, Copy, Debug, PartialEq, Eq)]
pub struct Span {
    pub start: usize,
    pub end: usize,
}

/// An error occurred during the compilation process.
#[derive(Debug, PartialEq, Eq)]
pub enum CompileError {
    /// "wrong type": the expression should be one of `expected_types`, but
    /// is `actual_type`.
    WrongType {
        detailed_report: String,
        expected_types: String,
        actual_type: String,
        expression_span: Span,
    },
    /// "mismatching operator types": the two operands have different types.
    MismatchingTypes {
        detailed_report: String,
        type1: String,
        type2: String,
        type1_span: Span,
        type2_span: Span,
    },
    /// "unexpected negative integer": this number should not be negative.
    UnexpectedNegativeNumber { detailed_report: String, span: Span },
}

} // verus!
