//! Turning text into rows of word counts.

use crate::labels::{class_index, label_counts, occurrences};
use crate::scalar::{is_count, Scalar};
use vstd::prelude::*;

verus! {

/// The words of `text`: the stretches between single spaces. A text without
/// a space is one word, and so is the empty text; two spaces in a row hold an
/// empty word between them.
pub open spec fn words(text: Seq<char>) -> Seq<Seq<char>>
    decreases text.len(),
{
    if text.len() == 0 {
        seq![Seq::empty()]
    } else {
        let earlier = words(text.drop_last());
        if text.last() == ' ' {
            earlier.push(Seq::empty())
        } else {
            earlier.update(earlier.len() - 1, earlier.last().push(text.last()))
        }
    }
}

/// The words of all `documents`, in order.
pub open spec fn all_words(documents: Seq<Seq<char>>) -> Seq<Seq<char>>
    decreases documents.len(),
{
    if documents.len() == 0 {
        Seq::empty()
    } else {
        all_words(documents.drop_last()) + words(documents.last())
    }
}

/// The vocabulary `names` after reading `tokens`: each token that is not yet
/// known is added at the end.
pub open spec fn learn<A>(names: Seq<A>, tokens: Seq<A>) -> Seq<A>
    decreases tokens.len(),
{
    if tokens.len() == 0 {
        names
    } else {
        let known = learn(names, tokens.drop_last());
        if known.contains(tokens.last()) {
            known
        } else {
            known.push(tokens.last())
        }
    }
}

/// Whether every one of `tokens` is among `names`.
pub open spec fn all_known<A>(names: Seq<A>, tokens: Seq<A>) -> bool {
    forall|t: int| 0 <= t < tokens.len() ==> names.contains(#[trigger] tokens[t])
}

/// Learning keeps what was known, in place, and makes every token known.
/// A vocabulary without repetition stays so.
proof fn lemma_learn<A>(names: Seq<A>, tokens: Seq<A>)
    ensures
        names.len() <= learn(names, tokens).len(),
        learn(names, tokens).take(names.len() as int) == names,
        all_known(learn(names, tokens), tokens),
        names.no_duplicates() ==> learn(names, tokens).no_duplicates(),
    decreases tokens.len(),
{
    let learned = learn(names, tokens);
    if tokens.len() == 0 {
        assert(learned.take(names.len() as int) =~= names);
    } else {
        let earlier = tokens.drop_last();
        let known = learn(names, earlier);
        lemma_learn(names, earlier);
        assert(learned.take(names.len() as int) =~= known.take(names.len() as int));
        assert forall|t: int| 0 <= t < tokens.len() implies learned.contains(
            #[trigger] tokens[t],
        ) by {
            if t < earlier.len() {
                assert(known.contains(earlier[t]));
                let p = choose|p: int| 0 <= p < known.len() && known[p] == earlier[t];
                assert(learned[p] == tokens[t]);
            } else if !known.contains(tokens.last()) {
                assert(learned[known.len() as int] == tokens[t]);
            }
        }
    }
}

/// Reading two runs of tokens one after the other is reading their
/// concatenation.
proof fn lemma_learn_concat<A>(names: Seq<A>, first: Seq<A>, second: Seq<A>)
    ensures
        learn(names, first + second) == learn(learn(names, first), second),
    decreases second.len(),
{
    if second.len() == 0 {
        assert(first + second =~= first);
    } else {
        lemma_learn_concat(names, first, second.drop_last());
        assert((first + second).drop_last() =~= first + second.drop_last());
        assert((first + second).last() == second.last());
    }
}

/// The words of `sentence`, as strings of their own.
pub fn split_words(sentence: &String) -> (tokens: Vec<String>)
    ensures
        tokens.deep_view() == words(sentence@),
{
    broadcast use vstd::string::group_string_axioms;

    let text = sentence.as_str();
    let length: usize = text.unicode_len();
    let mut tokens: Vec<String> = Vec::new();
    let mut start: usize = 0;
    let mut i: usize = 0;
    assert(text@.take(0) =~= Seq::empty());
    assert(tokens.deep_view().push(text@.subrange(0, 0)) =~= seq![Seq::<char>::empty()]);
    for c in it: text.chars()
        invariant
            it.seq() == text@,
            length == text@.len(),
            i == it.index(),
            start <= i <= text@.len(),
            words(text@.take(i as int)) == tokens.deep_view().push(
                text@.subrange(start as int, i as int),
            ),
    {
        let ghost done = tokens.deep_view();
        let ghost next = text@.take(i + 1);
        assert(next.drop_last() =~= text@.take(i as int));
        assert(next.last() == c);
        if c == ' ' {
            tokens.push(text.substring_char(start, i).to_owned());
            assert(tokens.deep_view() =~= done.push(text@.subrange(start as int, i as int)));
            start = i + 1;
            assert(text@.subrange(start as int, i + 1) =~= Seq::empty());
        } else {
            assert(text@.subrange(start as int, i + 1) =~= text@.subrange(
                start as int,
                i as int,
            ).push(c));
            assert(words(next) =~= done.push(text@.subrange(start as int, i + 1)));
        }
        i += 1;
    }
    let ghost done = tokens.deep_view();
    assert(text@.take(i as int) =~= text@);
    tokens.push(text.substring_char(start, i).to_owned());
    assert(tokens.deep_view() =~= done.push(text@.subrange(start as int, i as int)));
    tokens
}

/// Whether every one of `tokens` is among `names`.
pub fn knows_all(names: &Vec<String>, tokens: &Vec<String>) -> (known: bool)
    ensures
        known == all_known(names.deep_view(), tokens.deep_view()),
{
    let mut t: usize = 0;
    while t < tokens.len()
        invariant
            t <= tokens.len(),
            forall|j: int|
                0 <= j < t ==> names.deep_view().contains(#[trigger] tokens.deep_view()[j]),
        decreases tokens.len() - t,
    {
        if class_index(names, &tokens[t]).is_none() {
            assert(!names.deep_view().contains(tokens.deep_view()[t as int]));
            return false;
        }
        t += 1;
    }
    true
}

/// What a vectorizer holds: the words it has learned, in the order in which
/// it met them.
pub struct CountVectorizerView {
    /// The learned words; the feature of index `f` counts the word of index `f`.
    pub feature_names: Seq<Seq<char>>,
}

/// Turns documents into rows of word counts over a learned vocabulary.
pub struct CountVectorizer {
    feature_names: Vec<String>,
}

impl View for CountVectorizer {
    type V = CountVectorizerView;

    closed spec fn view(&self) -> CountVectorizerView {
        CountVectorizerView { feature_names: self.feature_names.deep_view() }
    }
}

/// Whether `counts` holds, for each of `documents` and each of `names`, how
/// often the name is a word of the document.
pub open spec fn counts_words(
    counts: Seq<Vec<usize>>,
    names: Seq<Seq<char>>,
    documents: Seq<Seq<char>>,
) -> bool {
    &&& counts.len() == documents.len()
    &&& forall|d: int|
        0 <= d < counts.len() ==> (#[trigger] counts[d]).len() == names.len()
    &&& forall|d: int, f: int|
        0 <= d < counts.len() && 0 <= f < names.len() ==> (#[trigger] counts[d][f]) as nat
            == occurrences(words(documents[d]), names[f])
}

/// Whether every word of every one of `documents` is among `names`.
pub open spec fn covers(names: Seq<Seq<char>>, documents: Seq<Seq<char>>) -> bool {
    forall|d: int| 0 <= d < documents.len() ==> all_known(names, words(#[trigger] documents[d]))
}

impl CountVectorizer {
    #[verifier::type_invariant]
    spec fn well_formed(self) -> bool {
        self.feature_names.deep_view().no_duplicates()
    }

    /// A vectorizer that knows no word.
    pub fn new() -> (vectorizer: Self)
        ensures
            vectorizer@.feature_names == Seq::<Seq<char>>::empty(),
    {
        let vectorizer = CountVectorizer { feature_names: Vec::new() };
        assert(vectorizer.feature_names.deep_view() =~= Seq::empty());
        vectorizer
    }

    /// The learned words, in the order in which they were met. No word
    /// occurs twice.
    pub fn feature_names(&self) -> (names: &Vec<String>)
        ensures
            names.deep_view() == self@.feature_names,
            self@.feature_names.no_duplicates(),
    {
        proof {
            use_type_invariant(self);
        }
        &self.feature_names
    }

    /// Adds to the vocabulary the words of `input_document` that are not
    /// yet known, in order of first appearance, and then counts the words
    /// of each document.
    pub fn fit_transform(&mut self, input_document: &Vec<String>) -> (count_vector: Vec<
        Vec<usize>,
    >)
        ensures
            final(self)@.feature_names == learn(
                old(self)@.feature_names,
                all_words(input_document.deep_view()),
            ),
            counts_words(count_vector@, final(self)@.feature_names, input_document.deep_view()),
    {
        proof {
            use_type_invariant(&*self);
        }
        let ghost documents = input_document.deep_view();
        let ghost known_before = self@.feature_names;
        let mut spare = CountVectorizer::new();
        std::mem::swap(self, &mut spare);
        let mut names = spare.feature_names;
        let mut d: usize = 0;
        assert(documents.take(0) =~= Seq::empty());
        while d < input_document.len()
            invariant
                d <= input_document.len(),
                documents == input_document.deep_view(),
                names.deep_view().no_duplicates(),
                names.deep_view() == learn(known_before, all_words(documents.take(d as int))),
            decreases input_document.len() - d,
        {
            let tokens = split_words(&input_document[d]);
            let ghost before = names.deep_view();
            let mut t: usize = 0;
            assert(tokens.deep_view().take(0) =~= Seq::empty());
            while t < tokens.len()
                invariant
                    t <= tokens.len(),
                    names.deep_view().no_duplicates(),
                    names.deep_view() == learn(before, tokens.deep_view().take(t as int)),
                decreases tokens.len() - t,
            {
                let ghost known = names.deep_view();
                let ghost next = tokens.deep_view().take(t + 1);
                assert(next.drop_last() =~= tokens.deep_view().take(t as int));
                assert(next.last() == tokens.deep_view()[t as int]);
                if class_index(&names, &tokens[t]).is_none() {
                    names.push(tokens[t].clone());
                    assert(names.deep_view() =~= known.push(tokens.deep_view()[t as int]));
                }
                t += 1;
            }
            proof {
                assert(tokens.deep_view().take(tokens.len() as int) =~= tokens.deep_view());
                assert(documents.take(d + 1).drop_last() =~= documents.take(d as int));
                assert(documents.take(d + 1).last() == documents[d as int]);
                lemma_learn_concat(
                    known_before,
                    all_words(documents.take(d as int)),
                    words(documents[d as int]),
                );
            }
            d += 1;
        }
        proof {
            assert(documents.take(input_document.len() as int) =~= documents);
            lemma_covers(known_before, documents);
        }
        self.feature_names = names;
        match self.transform(input_document) {
            Some(count_vector) => count_vector,
            None => vstd::pervasive::unreached(),
        }
    }

    /// Counts the words of each document over the learned vocabulary.
    ///
    /// `None` exactly when some word of some document is not in the
    /// vocabulary.
    pub fn transform(&self, input_document: &Vec<String>) -> (count_vector: Option<
        Vec<Vec<usize>>,
    >)
        ensures
            match count_vector {
                Some(counts) => covers(self@.feature_names, input_document.deep_view())
                    && counts_words(counts@, self@.feature_names, input_document.deep_view()),
                None => !covers(self@.feature_names, input_document.deep_view()),
            },
    {
        let ghost names = self.feature_names.deep_view();
        let ghost documents = input_document.deep_view();
        let mut count_vector: Vec<Vec<usize>> = Vec::new();
        let mut d: usize = 0;
        while d < input_document.len()
            invariant
                d <= input_document.len(),
                names == self.feature_names.deep_view(),
                documents == input_document.deep_view(),
                covers(names, documents.take(d as int)),
                counts_words(count_vector@, names, documents.take(d as int)),
            decreases input_document.len() - d,
        {
            let tokens = split_words(&input_document[d]);
            if !knows_all(&self.feature_names, &tokens) {
                assert(!all_known(names, words(documents[d as int])));
                return None;
            }
            let row = label_counts(&self.feature_names, &tokens);
            let ghost before = count_vector@;
            count_vector.push(row);
            proof {
                let seen = documents.take(d as int);
                let next = documents.take(d + 1);
                assert(next[d as int] == documents[d as int]);
                assert forall|e: int| 0 <= e < next.len() implies all_known(
                    names,
                    words(#[trigger] next[e]),
                ) by {
                    if e < d {
                        assert(next[e] == seen[e]);
                    }
                }
                assert forall|e: int, f: int|
                    0 <= e < count_vector@.len() && 0 <= f < names.len() implies (
                #[trigger] count_vector@[e][f]) as nat == occurrences(words(next[e]), names[f]) by {
                    if e < d {
                        assert(count_vector@[e] == before[e]);
                        assert(next[e] == seen[e]);
                    } else {
                        assert(names[f] == self.feature_names.deep_view()[f]);
                    }
                }
                assert forall|e: int| 0 <= e < count_vector@.len() implies (
                #[trigger] count_vector@[e]).len() == names.len() by {
                    if e < d {
                        assert(count_vector@[e] == before[e]);
                    }
                }
            }
            d += 1;
        }
        assert(documents.take(input_document.len() as int) =~= documents);
        Some(count_vector)
    }
}

/// `rows` holds the number that stands for each of `counts`, in place.
pub open spec fn is_counted<S: Scalar>(counts: Seq<Vec<usize>>, rows: Seq<Vec<S>>) -> bool {
    &&& rows.len() == counts.len()
    &&& forall|d: int| 0 <= d < counts.len() ==> (#[trigger] rows[d]).len() == counts[d].len()
    &&& forall|d: int, f: int|
        0 <= d < counts.len() && 0 <= f < counts[d].len() ==> is_count(
            counts[d][f],
            #[trigger] rows[d][f],
        )
}

/// The rows of counts as rows of numbers, such as the classifiers take.
pub fn counts_as_numbers<S: Scalar>(counts: &Vec<Vec<usize>>) -> (rows: Vec<Vec<S>>)
    ensures
        is_counted(counts@, rows@),
{
    let mut rows: Vec<Vec<S>> = Vec::new();
    let mut d: usize = 0;
    while d < counts.len()
        invariant
            d <= counts.len(),
            is_counted(counts@.take(d as int), rows@),
        decreases counts.len() - d,
    {
        let mut row: Vec<S> = Vec::new();
        let mut f: usize = 0;
        while f < counts[d].len()
            invariant
                d < counts.len(),
                f <= counts@[d as int].len(),
                row.len() == f,
                forall|g: int| 0 <= g < f ==> is_count(counts@[d as int][g], #[trigger] row@[g]),
            decreases counts@[d as int].len() - f,
        {
            row.push(S::from_count(counts[d][f]));
            f += 1;
        }
        let ghost before = rows@;
        rows.push(row);
        proof {
            let seen = counts@.take(d as int);
            let next = counts@.take(d + 1);
            assert forall|e: int| 0 <= e < next.len() implies (#[trigger] rows@[e]).len()
                == next[e].len() by {
                if e < d {
                    assert(rows@[e] == before[e]);
                    assert(next[e] == seen[e]);
                }
            }
            assert forall|e: int, g: int| 0 <= e < next.len() && 0 <= g < next[e].len() implies is_count(
                next[e][g],
                #[trigger] rows@[e][g],
            ) by {
                if e < d {
                    assert(rows@[e] == before[e]);
                    assert(next[e] == seen[e]);
                }
            }
        }
        d += 1;
    }
    assert(counts@.take(counts.len() as int) =~= counts@);
    rows
}

/// A vocabulary that has read all the words of some documents covers them.
proof fn lemma_covers(names: Seq<Seq<char>>, documents: Seq<Seq<char>>)
    ensures
        covers(learn(names, all_words(documents)), documents),
{
    let learned = learn(names, all_words(documents));
    lemma_learn(names, all_words(documents));
    assert forall|d: int| 0 <= d < documents.len() implies all_known(
        learned,
        words(#[trigger] documents[d]),
    ) by {
        lemma_all_words(documents, d);
        let offset = all_words(documents.take(d)).len() as int;
        assert forall|t: int| 0 <= t < words(documents[d]).len() implies learned.contains(
            #[trigger] words(documents[d])[t],
        ) by {
            assert(all_words(documents)[offset + t] == words(documents[d])[t]);
        }
    }
}

/// The words of document `d` stand in the words of all documents, one after
/// the other, behind the words of the documents before it.
proof fn lemma_all_words(documents: Seq<Seq<char>>, d: int)
    requires
        0 <= d < documents.len(),
    ensures
        all_words(documents.take(d)).len() + words(documents[d]).len() <= all_words(
            documents,
        ).len(),
        forall|t: int|
            0 <= t < words(documents[d]).len() ==> all_words(documents)[all_words(
                documents.take(d),
            ).len() + t] == #[trigger] words(documents[d])[t],
    decreases documents.len(),
{
    let earlier = documents.drop_last();
    if d == documents.len() - 1 {
        assert(documents.take(d) =~= earlier);
    } else {
        lemma_all_words(earlier, d);
        assert(earlier.take(d) =~= documents.take(d));
        assert(earlier[d] == documents[d]);
    }
}

} // verus!
