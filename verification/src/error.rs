//! The ways in which fitting and predicting can fail.

use vstd::prelude::*;

verus! {

/// Why a model refused its input.
#[derive(Debug, Clone, Copy, PartialEq, Eq, Structural)]
pub enum NaiveBayesError {
    /// There were no rows, or no labels, to fit on.
    EmptyInput,
    /// The rows and the labels differ in number.
    LengthMismatch,
    /// The rows differ in width, among themselves or from the fitted width.
    RaggedRows,
    /// A row to predict is wider than the rows the model was fit on.
    UnseenFeatureIndex,
    /// The smoothing constant is negative.
    InvalidSmoothing,
}

} // verus!
