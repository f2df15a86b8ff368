use ducky_learn::util::{greatest_of, one_hot_encoding_vec, EncodingError};

#[test]
fn one_hot_encoding_sets_the_column_of_each_value() {
    assert_eq!(
        one_hot_encoding_vec(&vec![2, 0, 1]),
        Ok(vec![vec![0, 0, 1], vec![1, 0, 0], vec![0, 1, 0]])
    );
    assert_eq!(one_hot_encoding_vec(&vec![0]), Ok(vec![vec![1]]));
    assert_eq!(
        one_hot_encoding_vec(&vec![1, 1, 3]),
        Ok(vec![vec![0, 1, 0, 0], vec![0, 1, 0, 0], vec![0, 0, 0, 1]])
    );
}

#[test]
fn one_hot_encoding_refuses_an_empty_list() {
    assert_eq!(one_hot_encoding_vec(&Vec::new()), Err(EncodingError::EmptyInput));
}

#[test]
fn one_hot_encoding_refuses_the_greatest_integer() {
    assert_eq!(one_hot_encoding_vec(&vec![0, usize::MAX]), Err(EncodingError::TooManyColumns));
}

#[test]
fn greatest_of_finds_the_greatest() {
    assert_eq!(greatest_of(&vec![2, 0, 1]), Some(2));
    assert_eq!(greatest_of(&vec![5, 5]), Some(5));
    assert_eq!(greatest_of(&vec![0, 9, 3, 9, 1]), Some(9));
    assert_eq!(greatest_of(&Vec::new()), None);
}
