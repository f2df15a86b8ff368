use ducky_learn::labels::{
    class_index, count_label, distinct_labels, label_counts, rows_with_label,
};

fn strings(items: &[&str]) -> Vec<String> {
    items.iter().map(|item| item.to_string()).collect()
}

#[test]
fn distinct_labels_keeps_the_order_of_first_appearance() {
    let labels = strings(&["b", "a", "b", "c", "a", "b"]);
    assert_eq!(distinct_labels(&labels), strings(&["b", "a", "c"]));
    assert_eq!(distinct_labels(&strings(&["x"])), strings(&["x"]));
    assert_eq!(distinct_labels(&Vec::new()), Vec::<String>::new());
    assert_eq!(distinct_labels(&strings(&["", "", ""])), strings(&[""]));
}

#[test]
fn class_index_finds_the_first_place() {
    let classes = strings(&["b", "a", "c", "a"]);
    assert_eq!(class_index(&classes, &"b".to_string()), Some(0));
    assert_eq!(class_index(&classes, &"a".to_string()), Some(1));
    assert_eq!(class_index(&classes, &"c".to_string()), Some(2));
    assert_eq!(class_index(&classes, &"d".to_string()), None);
    assert_eq!(class_index(&Vec::new(), &"a".to_string()), None);
}

#[test]
fn count_label_counts_equal_labels() {
    let labels = strings(&["b", "a", "b", "c", "a", "b"]);
    assert_eq!(count_label(&labels, &"b".to_string()), 3);
    assert_eq!(count_label(&labels, &"a".to_string()), 2);
    assert_eq!(count_label(&labels, &"c".to_string()), 1);
    assert_eq!(count_label(&labels, &"d".to_string()), 0);
    assert_eq!(count_label(&Vec::new(), &"a".to_string()), 0);
}

#[test]
fn label_counts_follow_the_classes() {
    let labels = strings(&["b", "a", "b", "c", "a", "b"]);
    assert_eq!(label_counts(&strings(&["b", "a", "c"]), &labels), vec![3, 2, 1]);
    assert_eq!(label_counts(&strings(&["c", "d", "c"]), &labels), vec![1, 0, 1]);
    assert_eq!(label_counts(&Vec::new(), &labels), Vec::<usize>::new());
}

#[test]
fn class_counts_add_up_to_the_number_of_labels() {
    for labels in [
        strings(&["b", "a", "b", "c", "a", "b"]),
        strings(&["x"]),
        strings(&["p", "p", "p", "p"]),
        strings(&["1", "2", "3", "4", "5"]),
        Vec::new(),
    ] {
        let classes = distinct_labels(&labels);
        let counts = label_counts(&classes, &labels);
        assert_eq!(counts.iter().sum::<usize>(), labels.len());
        assert!(counts.iter().all(|count| *count > 0));
    }
}

#[test]
fn rows_with_label_are_ascending() {
    let labels = strings(&["b", "a", "b", "c", "a", "b"]);
    assert_eq!(rows_with_label(&labels, &"b".to_string()), vec![0, 2, 5]);
    assert_eq!(rows_with_label(&labels, &"a".to_string()), vec![1, 4]);
    assert_eq!(rows_with_label(&labels, &"c".to_string()), vec![3]);
    assert_eq!(rows_with_label(&labels, &"d".to_string()), Vec::<usize>::new());
}
