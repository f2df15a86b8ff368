//! Markers for the two stages of a model's life, and one-hot encoding.

use vstd::prelude::*;

verus! {

/// Marks a model that has not been fit.
pub struct Unfit;

/// Marks a model that has been fit.
pub struct Fit;

/// A stage of a model's life, known at compile time.
pub trait Stage {
    /// Whether a model at this stage holds fitted parameters.
    spec fn fitted() -> bool;
}

impl Stage for Unfit {
    open spec fn fitted() -> bool {
        false
    }
}

impl Stage for Fit {
    open spec fn fitted() -> bool {
        true
    }
}

/// Why a list of integers has no one-hot encoding.
#[derive(Debug, Clone, Copy, PartialEq, Eq, Structural)]
pub enum EncodingError {
    /// The list is empty.
    EmptyInput,
    /// The greatest integer of the list is the greatest that the machine
    /// holds, so that the columns cannot be counted.
    TooManyColumns,
}

/// Whether `greatest` is the greatest of `values`.
pub open spec fn is_greatest(values: Seq<usize>, greatest: usize) -> bool {
    &&& values.contains(greatest)
    &&& forall|i: int| 0 <= i < values.len() ==> values[i] <= greatest
}

/// The one-hot encoding of `values` in `columns` columns: one row for each
/// value, with a one in the column of the value and zeros elsewhere.
pub open spec fn one_hot(values: Seq<usize>, columns: nat) -> Seq<Seq<u8>> {
    Seq::new(
        values.len(),
        |i: int| Seq::new(columns, |j: int| if j == values[i] { 1u8 } else { 0u8 }),
    )
}

/// The rows of `matrix`, each as a sequence.
pub open spec fn rows_of(matrix: Seq<Vec<u8>>) -> Seq<Seq<u8>> {
    matrix.map_values(|row: Vec<u8>| row@)
}

/// The greatest of `values`, if there is any value.
pub fn greatest_of(values: &Vec<usize>) -> (greatest: Option<usize>)
    ensures
        match greatest {
            Some(g) => is_greatest(values@, g),
            None => values.len() == 0,
        },
{
    if values.len() == 0 {
        return None;
    }
    let mut greatest: usize = values[0];
    let mut i: usize = 1;
    assert(values@.take(1)[0] == greatest);
    while i < values.len()
        invariant
            1 <= i <= values.len(),
            is_greatest(values@.take(i as int), greatest),
        decreases values.len() - i,
    {
        let ghost seen = values@.take(i as int);
        let ghost next = values@.take(i + 1);
        proof {
            let at = choose|at: int| 0 <= at < seen.len() && seen[at] == greatest;
            assert(next[at] == greatest);
        }
        if values[i] > greatest {
            greatest = values[i];
            assert(next[i as int] == greatest);
        }
        assert forall|k: int| 0 <= k < next.len() implies next[k] <= greatest by {
            if k < i {
                assert(seen[k] == next[k]);
            }
        }
        i += 1;
    }
    assert(values@.take(values.len() as int) =~= values@);
    Some(greatest)
}

/// The one-hot encoding of `input_array`, with one column for each integer
/// from zero to the greatest of the list.
pub fn one_hot_encoding_vec(input_array: &Vec<usize>) -> (encoding: Result<
    Vec<Vec<u8>>,
    EncodingError,
>)
    ensures
        match encoding {
            Ok(matrix) => exists|greatest: usize|
                #![trigger is_greatest(input_array@, greatest)]
                is_greatest(input_array@, greatest) && greatest < usize::MAX && rows_of(matrix@)
                    == one_hot(input_array@, (greatest + 1) as nat),
            Err(EncodingError::EmptyInput) => input_array.len() == 0,
            Err(EncodingError::TooManyColumns) => is_greatest(input_array@, usize::MAX),
        },
{
    let greatest: usize = match greatest_of(input_array) {
        Some(greatest) => greatest,
        None => {
            return Err(EncodingError::EmptyInput);
        },
    };
    if greatest == usize::MAX {
        return Err(EncodingError::TooManyColumns);
    }
    let columns: usize = greatest + 1;
    let mut matrix: Vec<Vec<u8>> = Vec::new();
    let mut i: usize = 0;
    while i < input_array.len()
        invariant
            i <= input_array.len(),
            columns == greatest + 1,
            is_greatest(input_array@, greatest),
            rows_of(matrix@) == one_hot(input_array@.take(i as int), columns as nat),
        decreases input_array.len() - i,
    {
        let value: usize = input_array[i];
        assert(value <= greatest);
        let mut row: Vec<u8> = Vec::new();
        let mut j: usize = 0;
        while j < columns
            invariant
                j <= columns,
                row.len() == j,
                forall|c: int| 0 <= c < j ==> row@[c] == if c == value { 1u8 } else { 0u8 },
            decreases columns - j,
        {
            row.push(if j == value { 1 } else { 0 });
            j += 1;
        }
        let ghost before = matrix@;
        matrix.push(row);
        proof {
            let wanted = one_hot(input_array@.take(i + 1), columns as nat);
            assert(rows_of(before).len() == before.len());
            assert(one_hot(input_array@.take(i as int), columns as nat).len() == i);
            assert(rows_of(matrix@).len() == wanted.len());
            assert forall|r: int| 0 <= r < wanted.len() implies rows_of(matrix@)[r]
                =~= wanted[r] by {
                if r < i {
                    assert(rows_of(matrix@)[r] == rows_of(before)[r]);
                    assert(rows_of(before)[r] == one_hot(
                        input_array@.take(i as int),
                        columns as nat,
                    )[r]);
                }
            }
            assert(rows_of(matrix@) =~= wanted);
        }
        i += 1;
    }
    assert(input_array@.take(input_array.len() as int) =~= input_array@);
    Ok(matrix)
}

} // verus!
