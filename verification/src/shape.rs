//! The shape of feature matrices: how many rows, how wide, and whether a
//! matrix fits its labels or a fitted model.

use crate::error::NaiveBayesError;
use vstd::prelude::*;

verus! {

/// Whether every row has exactly `width` entries.
pub open spec fn all_width<T>(rows: Seq<Vec<T>>, width: nat) -> bool {
    forall|i: int| 0 <= i < rows.len() ==> (#[trigger] rows[i]).len() == width
}

/// Whether some row has more than `width` entries.
pub open spec fn some_wider<T>(rows: Seq<Vec<T>>, width: nat) -> bool {
    exists|i: int| 0 <= i < rows.len() && (#[trigger] rows[i]).len() > width
}

/// Whether some row has fewer than `width` entries.
pub open spec fn some_narrower<T>(rows: Seq<Vec<T>>, width: nat) -> bool {
    exists|i: int| 0 <= i < rows.len() && (#[trigger] rows[i]).len() < width
}

/// The verdict on a training set of `rows` with `labels` labels: the common
/// width of the rows, or the first of these faults: nothing to fit on, rows
/// and labels differing in number, rows differing in width.
pub open spec fn training_shape<T>(rows: Seq<Vec<T>>, labels: nat) -> Result<nat, NaiveBayesError> {
    if rows.len() == 0 || labels == 0 {
        Err(NaiveBayesError::EmptyInput)
    } else if rows.len() != labels {
        Err(NaiveBayesError::LengthMismatch)
    } else if !all_width(rows, rows[0].len() as nat) {
        Err(NaiveBayesError::RaggedRows)
    } else {
        Ok(rows[0].len() as nat)
    }
}

/// The verdict on rows handed to a model fit on `width` features: a row that
/// is too wide names a feature the model has never seen; failing that, a row
/// that is too narrow makes the matrix ragged.
pub open spec fn prediction_shape<T>(rows: Seq<Vec<T>>, width: nat) -> Result<(), NaiveBayesError> {
    if some_wider(rows, width) {
        Err(NaiveBayesError::UnseenFeatureIndex)
    } else if some_narrower(rows, width) {
        Err(NaiveBayesError::RaggedRows)
    } else {
        Ok(())
    }
}

/// Whether every row has exactly `width` entries.
pub fn rows_have_width<T>(rows: &Vec<Vec<T>>, width: usize) -> (uniform: bool)
    ensures
        uniform == all_width(rows@, width as nat),
{
    let mut i: usize = 0;
    while i < rows.len()
        invariant
            i <= rows.len(),
            forall|j: int| 0 <= j < i ==> (#[trigger] rows@[j]).len() == width,
        decreases rows.len() - i,
    {
        if rows[i].len() != width {
            return false;
        }
        i += 1;
    }
    true
}

/// Whether some row has more than `width` entries.
pub fn any_wider<T>(rows: &Vec<Vec<T>>, width: usize) -> (wider: bool)
    ensures
        wider == some_wider(rows@, width as nat),
{
    let mut i: usize = 0;
    while i < rows.len()
        invariant
            i <= rows.len(),
            forall|j: int| 0 <= j < i ==> (#[trigger] rows@[j]).len() <= width,
        decreases rows.len() - i,
    {
        if rows[i].len() > width {
            return true;
        }
        i += 1;
    }
    false
}

/// Checks a training set of `rows` with `labels` labels, and gives the
/// common width of its rows.
pub fn check_training<T>(rows: &Vec<Vec<T>>, labels: usize) -> (verdict: Result<
    usize,
    NaiveBayesError,
>)
    ensures
        match verdict {
            Ok(width) => training_shape(rows@, labels as nat) == Ok::<nat, NaiveBayesError>(
                width as nat,
            ),
            Err(fault) => training_shape(rows@, labels as nat) == Err::<nat, NaiveBayesError>(
                fault,
            ),
        },
{
    if rows.len() == 0 || labels == 0 {
        return Err(NaiveBayesError::EmptyInput);
    }
    if rows.len() != labels {
        return Err(NaiveBayesError::LengthMismatch);
    }
    let width: usize = rows[0].len();
    if !rows_have_width(rows, width) {
        return Err(NaiveBayesError::RaggedRows);
    }
    Ok(width)
}

/// Checks rows handed to a model fit on `width` features.
pub fn check_prediction<T>(rows: &Vec<Vec<T>>, width: usize) -> (verdict: Result<
    (),
    NaiveBayesError,
>)
    ensures
        verdict == prediction_shape(rows@, width as nat),
{
    let mut narrower: bool = false;
    let mut i: usize = 0;
    while i < rows.len()
        invariant
            i <= rows.len(),
            forall|j: int| 0 <= j < i ==> (#[trigger] rows@[j]).len() <= width,
            narrower == some_narrower(rows@.take(i as int), width as nat),
        decreases rows.len() - i,
    {
        if rows[i].len() > width {
            return Err(NaiveBayesError::UnseenFeatureIndex);
        }
        let ghost before = rows@.take(i as int);
        let ghost after = rows@.take(i + 1);
        proof {
            if some_narrower(before, width as nat) {
                let j = choose|j: int|
                    0 <= j < before.len() && (#[trigger] before[j]).len() < width;
                assert(after[j].len() < width);
            }
            if some_narrower(after, width as nat) && rows@[i as int].len() >= width {
                let j = choose|j: int| 0 <= j < after.len() && (#[trigger] after[j]).len() < width;
                assert(before[j].len() < width);
            }
        }
        if rows[i].len() < width {
            assert(after[i as int].len() < width);
            narrower = true;
        }
        i += 1;
    }
    assert(rows@.take(rows.len() as int) =~= rows@);
    if narrower {
        Err(NaiveBayesError::RaggedRows)
    } else {
        Ok(())
    }
}

} // verus!
