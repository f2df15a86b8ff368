//! Class labels: which labels occur, in which order, how often, and in which rows.
//!
//! Labels are compared by their characters. The classes of a label sequence
//! are its distinct labels in order of first appearance; this order is the
//! one in which a fitted model lists its classes and breaks ties.

use vstd::prelude::*;

verus! {

/// How often `a` occurs in `s`.
pub open spec fn occurrences<A>(s: Seq<A>, a: A) -> nat
    decreases s.len(),
{
    if s.len() == 0 {
        0
    } else {
        occurrences(s.drop_last(), a) + if s.last() == a { 1nat } else { 0nat }
    }
}

/// The distinct elements of `s`, in order of first appearance.
pub open spec fn first_seen<A>(s: Seq<A>) -> Seq<A>
    decreases s.len(),
{
    if s.len() == 0 {
        Seq::empty()
    } else {
        let earlier = first_seen(s.drop_last());
        if earlier.contains(s.last()) {
            earlier
        } else {
            earlier.push(s.last())
        }
    }
}

/// The positions of `a` in `s`, ascending.
pub open spec fn positions<A>(s: Seq<A>, a: A) -> Seq<int>
    decreases s.len(),
{
    if s.len() == 0 {
        Seq::empty()
    } else if s.last() == a {
        positions(s.drop_last(), a).push(s.len() - 1)
    } else {
        positions(s.drop_last(), a)
    }
}

/// The sum over `keys` of the occurrences of each key in `s`.
pub open spec fn occurrences_total<A>(s: Seq<A>, keys: Seq<A>) -> nat
    decreases keys.len(),
{
    if keys.len() == 0 {
        0
    } else {
        occurrences_total(s, keys.drop_last()) + occurrences(s, keys.last())
    }
}

/// Those of `keys` that occur in `s`, in the order of `keys`.
pub open spec fn present<A>(keys: Seq<A>, s: Seq<A>) -> Seq<A>
    decreases keys.len(),
{
    if keys.len() == 0 {
        Seq::empty()
    } else if s.contains(keys.last()) {
        present(keys.drop_last(), s).push(keys.last())
    } else {
        present(keys.drop_last(), s)
    }
}

/// Keys that all occur are all present.
pub proof fn lemma_present_all<A>(keys: Seq<A>, s: Seq<A>)
    requires
        forall|k: int| 0 <= k < keys.len() ==> s.contains(#[trigger] keys[k]),
    ensures
        present(keys, s) == keys,
    decreases keys.len(),
{
    if keys.len() > 0 {
        lemma_present_all(keys.drop_last(), s);
        assert(s.contains(keys[keys.len() - 1]));
        assert(keys.drop_last().push(keys.last()) =~= keys);
    } else {
        assert(keys =~= Seq::empty());
    }
}

/// The positions of an element are as many as its occurrences, and each is
/// a place in the sequence where the element stands.
pub proof fn lemma_positions<A>(s: Seq<A>, a: A)
    ensures
        positions(s, a).len() == occurrences(s, a),
        forall|t: int|
            0 <= t < positions(s, a).len() ==> 0 <= #[trigger] positions(s, a)[t] < s.len()
                && s[positions(s, a)[t]] == a,
    decreases s.len(),
{
    if s.len() > 0 {
        lemma_positions(s.drop_last(), a);
        let earlier = positions(s.drop_last(), a);
        assert forall|t: int| 0 <= t < positions(s, a).len() implies 0 <= #[trigger] positions(
            s,
            a,
        )[t] < s.len() && s[positions(s, a)[t]] == a by {
            if t < earlier.len() {
                assert(positions(s, a)[t] == earlier[t]);
                assert(s.drop_last()[earlier[t]] == a);
            }
        }
    }
}

/// An element occurs in a sequence exactly when it is counted at least once.
pub proof fn lemma_occurrences_contains<A>(s: Seq<A>, a: A)
    ensures
        occurrences(s, a) > 0 <==> s.contains(a),
        occurrences(s, a) <= s.len(),
    decreases s.len(),
{
    if s.len() > 0 {
        lemma_occurrences_contains(s.drop_last(), a);
        if s.contains(a) {
            let i = choose|i: int| 0 <= i < s.len() && s[i] == a;
            if i < s.len() - 1 {
                assert(s.drop_last()[i] == a);
            }
        }
        if s.drop_last().contains(a) {
            let i = choose|i: int| 0 <= i < s.drop_last().len() && s.drop_last()[i] == a;
            assert(s[i] == a);
        }
    }
}

/// The classes of a sequence hold no element twice, and hold exactly the
/// elements of the sequence.
pub proof fn lemma_first_seen<A>(s: Seq<A>)
    ensures
        first_seen(s).no_duplicates(),
        first_seen(s).len() <= s.len(),
        forall|a: A| first_seen(s).contains(a) <==> s.contains(a),
    decreases s.len(),
{
    if s.len() > 0 {
        let init = s.drop_last();
        let earlier = first_seen(init);
        lemma_first_seen(init);
        assert forall|a: A| first_seen(s).contains(a) <==> s.contains(a) by {
            if s.contains(a) {
                let i = choose|i: int| 0 <= i < s.len() && s[i] == a;
                if i < s.len() - 1 {
                    assert(init[i] == a);
                    assert(init.contains(a));
                    let k = choose|k: int| 0 <= k < earlier.len() && earlier[k] == a;
                    assert(first_seen(s)[k] == a);
                } else if !earlier.contains(a) {
                    assert(first_seen(s)[earlier.len() as int] == a);
                }
            }
            if first_seen(s).contains(a) {
                let k = choose|k: int| 0 <= k < first_seen(s).len() && first_seen(s)[k] == a;
                if k < earlier.len() {
                    assert(earlier[k] == a);
                    assert(init.contains(a));
                    let i = choose|i: int| 0 <= i < init.len() && init[i] == a;
                    assert(s[i] == a);
                } else {
                    assert(s[s.len() - 1] == a);
                }
            }
        }
    }
}

/// Appending one element to `s` adds to the total over `keys` the number of
/// times that element is a key.
proof fn lemma_occurrences_total_push<A>(s: Seq<A>, a: A, keys: Seq<A>)
    ensures
        occurrences_total(s.push(a), keys) == occurrences_total(s, keys) + occurrences(keys, a),
    decreases keys.len(),
{
    assert(s.push(a).drop_last() == s);
    if keys.len() > 0 {
        lemma_occurrences_total_push(s, a, keys.drop_last());
    }
}

/// An element of a sequence without repetition is counted once.
proof fn lemma_occurrences_no_duplicates<A>(s: Seq<A>, a: A)
    requires
        s.no_duplicates(),
        s.contains(a),
    ensures
        occurrences(s, a) == 1,
    decreases s.len(),
{
    if s.len() > 0 {
        let init = s.drop_last();
        lemma_occurrences_contains(init, a);
        if s.last() == a {
            if init.contains(a) {
                let i = choose|i: int| 0 <= i < init.len() && init[i] == a;
                assert(s[i] == s[s.len() - 1]);
            }
        } else {
            let i = choose|i: int| 0 <= i < s.len() && s[i] == a;
            assert(init[i] == a);
            lemma_occurrences_no_duplicates(init, a);
        }
    }
}

/// The classes partition the rows: the class counts add up to the number of
/// labels.
pub proof fn lemma_class_counts_sum<A>(s: Seq<A>)
    ensures
        occurrences_total(s, first_seen(s)) == s.len(),
    decreases s.len(),
{
    if s.len() > 0 {
        let init = s.drop_last();
        let a = s.last();
        let earlier = first_seen(init);
        assert(init.push(a) == s);
        lemma_class_counts_sum(init);
        lemma_first_seen(init);
        lemma_occurrences_total_push(init, a, earlier);
        if earlier.contains(a) {
            lemma_occurrences_no_duplicates(earlier, a);
        } else {
            lemma_occurrences_contains(earlier, a);
            lemma_occurrences_contains(init, a);
            assert(first_seen(s).drop_last() == earlier);
        }
    }
}

/// The index of `label` among `classes`, if it is one of them.
pub fn class_index(classes: &Vec<String>, label: &String) -> (found: Option<usize>)
    ensures
        match found {
            Some(k) => k < classes.len() && classes.deep_view()[k as int] == label@
                && !classes.deep_view().take(k as int).contains(label@),
            None => !classes.deep_view().contains(label@),
        },
{
    let mut k: usize = 0;
    while k < classes.len()
        invariant
            k <= classes.len(),
            forall|j: int| 0 <= j < k ==> classes.deep_view()[j] != label@,
        decreases classes.len() - k,
    {
        if classes[k] == *label {
            return Some(k);
        }
        k += 1;
    }
    None
}

/// The classes of `labels`: each distinct label once, in order of first
/// appearance.
pub fn distinct_labels(labels: &Vec<String>) -> (classes: Vec<String>)
    ensures
        classes.deep_view() == first_seen(labels.deep_view()),
{
    let mut classes: Vec<String> = Vec::new();
    let mut i: usize = 0;
    assert(labels.deep_view().take(0) =~= Seq::empty());
    while i < labels.len()
        invariant
            i <= labels.len(),
            classes.deep_view() == first_seen(labels.deep_view().take(i as int)),
        decreases labels.len() - i,
    {
        let ghost seen = labels.deep_view().take(i as int);
        let ghost next = labels.deep_view().take(i + 1);
        assert(next.drop_last() =~= seen);
        assert(next.last() == labels[i as int]@);
        if class_index(&classes, &labels[i]).is_none() {
            let ghost before = classes.deep_view();
            classes.push(labels[i].clone());
            assert(classes.deep_view() =~= before.push(labels[i as int]@));
        }
        i += 1;
    }
    assert(labels.deep_view().take(labels.len() as int) =~= labels.deep_view());
    classes
}

/// How many of `labels` equal `label`.
pub fn count_label(labels: &Vec<String>, label: &String) -> (count: usize)
    ensures
        count == occurrences(labels.deep_view(), label@),
{
    let mut count: usize = 0;
    let mut i: usize = 0;
    assert(labels.deep_view().take(0) =~= Seq::empty());
    while i < labels.len()
        invariant
            i <= labels.len(),
            count <= i,
            count == occurrences(labels.deep_view().take(i as int), label@),
        decreases labels.len() - i,
    {
        let ghost next = labels.deep_view().take(i + 1);
        assert(next.drop_last() =~= labels.deep_view().take(i as int));
        assert(next.last() == labels[i as int]@);
        if labels[i] == *label {
            count += 1;
        }
        i += 1;
    }
    assert(labels.deep_view().take(labels.len() as int) =~= labels.deep_view());
    count
}

/// For each of `classes`, how many of `labels` equal it.
pub fn label_counts(classes: &Vec<String>, labels: &Vec<String>) -> (counts: Vec<usize>)
    ensures
        counts.len() == classes.len(),
        forall|k: int|
            0 <= k < classes.len() ==> counts[k] == occurrences(
                labels.deep_view(),
                #[trigger] classes.deep_view()[k],
            ),
{
    let mut counts: Vec<usize> = Vec::new();
    let mut k: usize = 0;
    while k < classes.len()
        invariant
            k <= classes.len(),
            counts.len() == k,
            forall|j: int|
                0 <= j < k ==> counts[j] == occurrences(
                    labels.deep_view(),
                    #[trigger] classes.deep_view()[j],
                ),
        decreases classes.len() - k,
    {
        counts.push(count_label(labels, &classes[k]));
        k += 1;
    }
    counts
}

/// The rows that carry `label`, ascending.
pub fn rows_with_label(labels: &Vec<String>, label: &String) -> (rows: Vec<usize>)
    ensures
        rows@.map_values(|r: usize| r as int) == positions(labels.deep_view(), label@),
{
    let mut rows: Vec<usize> = Vec::new();
    let mut i: usize = 0;
    assert(labels.deep_view().take(0) =~= Seq::empty());
    assert(rows@.map_values(|r: usize| r as int) =~= Seq::empty());
    while i < labels.len()
        invariant
            i <= labels.len(),
            rows@.map_values(|r: usize| r as int) == positions(
                labels.deep_view().take(i as int),
                label@,
            ),
        decreases labels.len() - i,
    {
        let ghost next = labels.deep_view().take(i + 1);
        assert(next.drop_last() =~= labels.deep_view().take(i as int));
        assert(next.last() == labels[i as int]@);
        if labels[i] == *label {
            let ghost before = rows@;
            rows.push(i);
            assert(rows@.map_values(|r: usize| r as int) =~= before.map_values(
                |r: usize| r as int,
            ).push(i as int));
        }
        i += 1;
    }
    assert(labels.deep_view().take(labels.len() as int) =~= labels.deep_view());
    rows
}

} // verus!
