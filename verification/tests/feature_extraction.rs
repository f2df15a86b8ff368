use ducky_learn::feature_extraction::{knows_all, split_words, CountVectorizer};

fn as_floats(counts: Vec<Vec<usize>>) -> Vec<Vec<f64>> {
    counts.into_iter().map(|row| row.into_iter().map(|count| count as f64).collect()).collect()
}

fn strings(items: &[&str]) -> Vec<String> {
    items.iter().map(|item| item.to_string()).collect()
}

#[test]
fn test_count_vector_fit_transform() {
    let mut count_vector = CountVectorizer::new();

    let document = vec![
        "hello this is ducky duck".to_string(),
        "chris don't wear wigs".to_string(),
        "ducks taste nice".to_string(),
        "duck duck goose".to_string(),
    ];

    let transformed_doc = vec![
        vec![1.0, 1.0, 1.0, 1.0, 1.0, 0.0, 0.0, 0.0, 0.0, 0.0, 0.0, 0.0, 0.0],
        vec![0.0, 0.0, 0.0, 0.0, 0.0, 1.0, 1.0, 1.0, 1.0, 0.0, 0.0, 0.0, 0.0],
        vec![0.0, 0.0, 0.0, 0.0, 0.0, 0.0, 0.0, 0.0, 0.0, 1.0, 1.0, 1.0, 0.0],
        vec![0.0, 0.0, 0.0, 0.0, 2.0, 0.0, 0.0, 0.0, 0.0, 0.0, 0.0, 0.0, 1.0],
    ];

    let feature_names = vec![
        "hello".to_string(),
        "this".to_string(),
        "is".to_string(),
        "ducky".to_string(),
        "duck".to_string(),
        "chris".to_string(),
        "don't".to_string(),
        "wear".to_string(),
        "wigs".to_string(),
        "ducks".to_string(),
        "taste".to_string(),
        "nice".to_string(),
        "goose".to_string(),
    ];

    assert_eq!(as_floats(count_vector.fit_transform(&document)), transformed_doc);
    assert_eq!(*count_vector.feature_names(), feature_names)
}

#[test]
fn test_empty_string() {
    let mut count_vector = CountVectorizer::new();

    let document = vec!["".to_string()];

    let transformed_doc: Vec<Vec<f64>> = vec![vec![1.0]];

    let feature_names: Vec<String> = vec!["".to_string()];

    assert_eq!(as_floats(count_vector.fit_transform(&document)), transformed_doc);
    assert_eq!(*count_vector.feature_names(), feature_names)
}

#[test]
fn new_vectorizer_knows_no_word() {
    let count_vector = CountVectorizer::new();
    assert_eq!(*count_vector.feature_names(), Vec::<String>::new());
}

#[test]
fn split_words_splits_on_single_spaces() {
    assert_eq!(split_words(&"hello this is a test".to_string()), strings(&["hello", "this", "is", "a", "test"]));
    assert_eq!(split_words(&"".to_string()), strings(&[""]));
    assert_eq!(split_words(&" ".to_string()), strings(&["", ""]));
    assert_eq!(split_words(&"a  b".to_string()), strings(&["a", "", "b"]));
    assert_eq!(split_words(&" lead".to_string()), strings(&["", "lead"]));
    assert_eq!(split_words(&"trail ".to_string()), strings(&["trail", ""]));
    assert_eq!(split_words(&"tab\tstays".to_string()), strings(&["tab\tstays"]));
    assert_eq!(split_words(&"caf\u{e9} \u{1f986} duck".to_string()), strings(&["caf\u{e9}", "\u{1f986}", "duck"]));
}

#[test]
fn split_words_agrees_with_the_standard_split() {
    for text in ["", " ", "  ", "a", "a b", "a  b ", " a b", "x y z  ", "\u{e9}\u{e9} \u{e9}"] {
        let expected: Vec<String> = text.split(" ").map(|word| word.to_string()).collect();
        assert_eq!(split_words(&text.to_string()), expected);
    }
}

#[test]
fn fit_transform_keeps_known_words_in_place() {
    let mut count_vector = CountVectorizer::new();
    let first = count_vector.fit_transform(&strings(&["hello this is a test", "this is another test"]));
    assert_eq!(*count_vector.feature_names(), strings(&["hello", "this", "is", "a", "test", "another"]));
    assert_eq!(first, vec![vec![1, 1, 1, 1, 1, 0], vec![0, 1, 1, 0, 1, 1]]);

    let second = count_vector.fit_transform(&strings(&["a new test test"]));
    assert_eq!(
        *count_vector.feature_names(),
        strings(&["hello", "this", "is", "a", "test", "another", "new"])
    );
    assert_eq!(second, vec![vec![0, 0, 0, 1, 2, 0, 1]]);
}

#[test]
fn transform_counts_over_the_learned_vocabulary() {
    let mut count_vector = CountVectorizer::new();
    count_vector.fit_transform(&strings(&["hello this is a test", "this is another test"]));
    let counts = count_vector.transform(&strings(&["this another test"]));
    assert_eq!(counts, Some(vec![vec![0, 1, 0, 0, 1, 1]]));
    assert_eq!(count_vector.transform(&Vec::new()), Some(Vec::new()));
}

#[test]
fn transform_refuses_an_unknown_word() {
    let mut count_vector = CountVectorizer::new();
    count_vector.fit_transform(&strings(&["hello this"]));
    assert_eq!(count_vector.transform(&strings(&["hello", "hello there"])), None);
    assert_eq!(count_vector.transform(&strings(&[""])), None);
    assert_eq!(*count_vector.feature_names(), strings(&["hello", "this"]));
}

#[test]
fn knows_all_looks_for_every_token() {
    let names = strings(&["a", "b"]);
    assert!(knows_all(&names, &strings(&["b", "a", "b"])));
    assert!(knows_all(&names, &Vec::new()));
    assert!(!knows_all(&names, &strings(&["a", "c"])));
}
