use ducky_learn::error::NaiveBayesError;
use ducky_learn::select::first_max;
use ducky_learn::shape::{check_prediction, check_training, rows_have_width};

#[test]
fn check_training_gives_the_common_width() {
    assert_eq!(check_training(&vec![vec![1, 2, 3], vec![4, 5, 6]], 2), Ok(3));
    assert_eq!(check_training(&vec![vec![7]], 1), Ok(1));
    assert_eq!(check_training(&vec![Vec::<u8>::new(), Vec::new()], 2), Ok(0));
}

#[test]
fn check_training_refuses_empty_input() {
    assert_eq!(check_training(&Vec::<Vec<u8>>::new(), 0), Err(NaiveBayesError::EmptyInput));
    assert_eq!(check_training(&Vec::<Vec<u8>>::new(), 3), Err(NaiveBayesError::EmptyInput));
    assert_eq!(check_training(&vec![vec![1, 2]], 0), Err(NaiveBayesError::EmptyInput));
}

#[test]
fn check_training_refuses_a_length_mismatch() {
    assert_eq!(check_training(&vec![vec![1, 2]], 2), Err(NaiveBayesError::LengthMismatch));
    assert_eq!(
        check_training(&vec![vec![1], vec![2, 3], vec![4]], 2),
        Err(NaiveBayesError::LengthMismatch)
    );
}

#[test]
fn check_training_refuses_ragged_rows() {
    assert_eq!(
        check_training(&vec![vec![1, 2], vec![3], vec![4, 5]], 3),
        Err(NaiveBayesError::RaggedRows)
    );
    assert_eq!(
        check_training(&vec![vec![1], vec![2, 3]], 2),
        Err(NaiveBayesError::RaggedRows)
    );
}

#[test]
fn check_prediction_names_the_fault() {
    assert_eq!(check_prediction(&vec![vec![1, 2], vec![3, 4]], 2), Ok(()));
    assert_eq!(check_prediction(&Vec::<Vec<u8>>::new(), 2), Ok(()));
    assert_eq!(
        check_prediction(&vec![vec![1, 2], vec![3, 4, 5]], 2),
        Err(NaiveBayesError::UnseenFeatureIndex)
    );
    assert_eq!(
        check_prediction(&vec![vec![1], vec![3, 4]], 2),
        Err(NaiveBayesError::RaggedRows)
    );
    assert_eq!(
        check_prediction(&vec![vec![1], vec![3, 4, 5]], 2),
        Err(NaiveBayesError::UnseenFeatureIndex)
    );
}

#[test]
fn rows_have_width_checks_every_row() {
    assert!(rows_have_width(&vec![vec![1, 2], vec![3, 4]], 2));
    assert!(rows_have_width(&Vec::<Vec<u8>>::new(), 5));
    assert!(!rows_have_width(&vec![vec![1, 2], vec![3]], 2));
    assert!(!rows_have_width(&vec![vec![1, 2], vec![3, 4]], 3));
}

#[test]
fn first_max_takes_the_earliest_of_the_greatest() {
    assert_eq!(first_max(&vec![3, 7, 7]), Some(1));
    assert_eq!(first_max(&vec![7, 7, 7]), Some(0));
    assert_eq!(first_max(&vec![-5]), Some(0));
    assert_eq!(first_max(&vec![i64::MIN, i64::MAX, 0]), Some(1));
    assert_eq!(first_max(&vec![1, 2, 3, 2, 3]), Some(2));
    assert_eq!(first_max(&Vec::new()), None);
}
