//! Naive Bayes classification, verified.
//!
//! Two classifiers are offered: a multinomial one with Laplace smoothing
//! for count-like features, and a Gaussian one for continuous features. A
//! model is fit once, on rows of numbers and one label for each row, and
//! then predicts a label for any row.
//!
//! The library is generic over its number type, [`scalar::Scalar`]. It owns
//! every loop, index, class table, comparison and decision; the number type
//! supplies the arithmetic and the bit patterns of its numbers. Every
//! contract holds whatever the arithmetic returns, and says which
//! expression each result is the value of.
//!
//! - [`labels`]: the classes of a label sequence, their counts and rows.
//! - [`shape`]: whether a matrix fits its labels or a fitted model.
//! - [`scalar`]: the number type, and comparison by bit pattern.
//! - [`estimate`]: priors, smoothed probabilities, means, deviations and
//!   densities.
//! - [`select`]: the arg-max with its tie-break.
//! - [`naive_bayes`]: the two classifiers and their life cycle.
//! - [`laws`]: what is proved of fitting and predicting.
//! - [`feature_extraction`]: word counts from text.
//! - [`util`]: the stage markers and one-hot encoding.

pub mod error;
pub mod estimate;
pub mod feature_extraction;
pub mod labels;
pub mod laws;
pub mod naive_bayes;
pub mod scalar;
pub mod select;
pub mod shape;
pub mod util;
