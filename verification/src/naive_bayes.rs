//! The two classifiers.
//!
//! A model is made unfit, becomes fit by `fit`, which uses it up, and only
//! then can `predict`. Its classes are the distinct training labels in order
//! of first appearance. A row goes to the class with the greatest score, and
//! among classes with equal scores to the earliest.

use crate::error::NaiveBayesError;
use crate::estimate::{
    calculate_class_probability, calculate_feature_probability, calculate_probability,
    entry_labels, first_width, is_class_probability, is_density, is_smoothing, is_statistics,
    small_number, smoothed_probabilities,
};
use crate::labels::{
    distinct_labels, first_seen, label_counts, lemma_first_seen, lemma_present_all, occurrences,
    positions,
};
use crate::laws::{lemma_class_rows_sum, sum_of_counts};
use crate::scalar::{
    is_ln, is_negative, is_positive, is_product, is_rank, is_small_number, is_sum, rank_of,
    tells_negative, tells_positive, Scalar,
};
use crate::select::{first_max, is_first_max};
use crate::shape::{
    all_width, any_wider, check_prediction, check_training, prediction_shape, some_wider,
    training_shape,
};
use crate::util::{Fit, Stage, Unfit};
use std::marker::PhantomData;
use vstd::prelude::*;

verus! {

/// `ranks` holds the rank of each of `scores`, in the same order.
pub open spec fn is_ranking<S: Scalar>(scores: Seq<S>, ranks: Seq<i64>) -> bool {
    &&& ranks.len() == scores.len()
    &&& forall|k: int| 0 <= k < scores.len() ==> is_rank(scores[k], #[trigger] ranks[k])
}

/// The ranks of `scores`, in the same order.
pub fn ranks_of<S: Scalar>(scores: &Vec<S>) -> (ranks: Vec<i64>)
    ensures
        is_ranking(scores@, ranks@),
{
    let mut ranks: Vec<i64> = Vec::new();
    let mut k: usize = 0;
    while k < scores.len()
        invariant
            k <= scores.len(),
            ranks.len() == k,
            forall|j: int| 0 <= j < k ==> is_rank(scores@[j], #[trigger] ranks@[j]),
        decreases scores.len() - k,
    {
        ranks.push(rank_of(scores[k]));
        k += 1;
    }
    ranks
}

/// `label` is the class that wins with `ranks`, one rank for each class:
/// the class with the greatest rank, and among equals the earliest.
pub open spec fn is_winner(classes: Seq<Seq<char>>, ranks: Seq<i64>, label: Seq<char>) -> bool {
    &&& ranks.len() == classes.len()
    &&& exists|k: int| is_first_max(ranks, k) && label == #[trigger] classes[k]
}

/// The label that wins a row, given one rank for each class. `None`
/// exactly when there is no class or the ranks do not match the classes in
/// number.
pub fn pick_label(classes: &Vec<String>, ranks: &Vec<i64>) -> (winner: Option<String>)
    ensures
        match winner {
            Some(label) => is_winner(classes.deep_view(), ranks@, label@),
            None => ranks.len() == 0 || ranks.len() != classes.len(),
        },
{
    if ranks.len() != classes.len() {
        return None;
    }
    match first_max(ranks) {
        Some(best) => {
            let label = classes[best].clone();
            assert(label@ == classes.deep_view()[best as int]);
            Some(label)
        },
        None => None,
    }
}

/// `r` is the logarithm of `value` with `floor` added to it first.
pub open spec fn is_floored_ln<S: Scalar>(value: S, floor: S, r: S) -> bool {
    exists|raised: S|
        #![trigger is_sum(value, floor, raised)]
        is_sum(value, floor, raised) && is_ln(raised, r)
}

/// The logarithm of `value` with `floor` added to it first.
fn floored_ln<S: Scalar>(value: S, floor: S) -> (r: S)
    ensures
        is_floored_ln(value, floor, r),
{
    let raised = value.plus(floor);
    assert(is_sum(value, floor, raised));
    raised.ln()
}

/// `r` is `earlier` with the term of one feature added: where the
/// feature's value was found strictly positive (`counted`), the value
/// times the floored logarithm of the feature's probability; else nothing.
pub open spec fn is_multinomial_term<S: Scalar>(
    earlier: S,
    counted: bool,
    value: S,
    probability: S,
    floor: S,
    r: S,
) -> bool {
    if counted {
        exists|weight: S, term: S|
            #![trigger is_product(value, weight, term)]
            is_floored_ln(probability, floor, weight) && is_product(value, weight, term)
                && is_sum(earlier, term, r)
    } else {
        r == earlier
    }
}

/// `r` is the multinomial score of `row` in a class, over the first `upto`
/// features: the floored logarithm of the prior, with the term of each
/// feature added, from the first.
pub open spec fn is_multinomial_score<S: Scalar>(
    prior: S,
    probabilities: Seq<S>,
    floor: S,
    row: Seq<S>,
    upto: nat,
    r: S,
) -> bool
    decreases upto,
{
    if upto == 0 {
        is_floored_ln(prior, floor, r)
    } else {
        exists|earlier: S, counted: bool|
            #![trigger is_multinomial_term(earlier, counted, row[upto - 1], probabilities[upto - 1], floor, r)]
            is_multinomial_score(prior, probabilities, floor, row, (upto - 1) as nat, earlier)
                && tells_positive(row[upto - 1], counted) && is_multinomial_term(
                earlier,
                counted,
                row[upto - 1],
                probabilities[upto - 1],
                floor,
                r,
            )
    }
}

/// `r` is the Gaussian score of `row` in a class, over the first `upto`
/// features: the floored logarithm of the prior, with the logarithm of the
/// density of each feature's value added, from the first.
pub open spec fn is_gaussian_score<S: Scalar>(
    prior: S,
    statistics: Seq<(S, S)>,
    floor: S,
    row: Seq<S>,
    upto: nat,
    r: S,
) -> bool
    decreases upto,
{
    if upto == 0 {
        is_floored_ln(prior, floor, r)
    } else {
        exists|earlier: S, density: S, term: S|
            #![trigger is_density(row[upto - 1], statistics[upto - 1].0, statistics[upto - 1].1, density), is_sum(earlier, term, r)]
            is_gaussian_score(prior, statistics, floor, row, (upto - 1) as nat, earlier)
                && is_density(row[upto - 1], statistics[upto - 1].0, statistics[upto - 1].1, density)
                && is_ln(density, term) && is_sum(earlier, term, r)
    }
}

/// Whether `classes`, `class_rows` and `rows` are the class table of
/// `labels`: the distinct labels in order of first appearance, for each the
/// number of labels equal to it, and the number of labels.
pub open spec fn class_table_of(
    classes: Seq<Seq<char>>,
    class_rows: Seq<usize>,
    rows: nat,
    labels: Seq<Seq<char>>,
) -> bool {
    &&& classes == first_seen(labels)
    &&& class_rows.len() == classes.len()
    &&& forall|k: int|
        0 <= k < classes.len() ==> class_rows[k] == occurrences(labels, #[trigger] classes[k])
    &&& rows == labels.len()
}

/// What a multinomial model holds.
pub struct StdNaiveBayesView<S> {
    /// The smoothing constant.
    pub alpha: S,
    /// Whether the smoothing constant was found negative.
    pub smoothing_refused: bool,
    /// The classes, in the order in which ties are broken.
    pub classes: Seq<Seq<char>>,
    /// For each class, the number of training rows that carry it.
    pub class_rows: Seq<usize>,
    /// The number of training rows.
    pub rows: nat,
    /// The number of features.
    pub width: nat,
    /// For each class, its prior probability.
    pub probability_of_class: Seq<S>,
    /// For each class and feature, the smoothed probability of the feature.
    pub probability_of_feat_by_class: Seq<Seq<S>>,
}

/// A Naive Bayes classifier for count-like features, with Laplace smoothing.
pub struct StdNaiveBayes<S: Scalar, State: Stage = Unfit> {
    alpha: S,
    alpha_negative: bool,
    classes: Vec<String>,
    class_rows: Vec<usize>,
    rows: usize,
    width: usize,
    probability_of_class: Vec<S>,
    probability_of_feat_by_class: Vec<Vec<S>>,
    state: PhantomData<State>,
}

impl<S: Scalar, State: Stage> View for StdNaiveBayes<S, State> {
    type V = StdNaiveBayesView<S>;

    closed spec fn view(&self) -> StdNaiveBayesView<S> {
        StdNaiveBayesView {
            alpha: self.alpha,
            smoothing_refused: self.alpha_negative,
            classes: self.classes.deep_view(),
            class_rows: self.class_rows@,
            rows: self.rows as nat,
            width: self.width as nat,
            probability_of_class: self.probability_of_class@,
            probability_of_feat_by_class: Seq::new(
                self.probability_of_feat_by_class.len() as nat,
                |k: int| self.probability_of_feat_by_class[k]@,
            ),
        }
    }
}

impl<S: Scalar> StdNaiveBayesView<S> {
    /// What holds of every model: no class occurs twice, every class has a
    /// count, a prior and one probability for each feature.
    pub open spec fn consistent(self) -> bool {
        &&& self.classes.no_duplicates()
        &&& self.class_rows.len() == self.classes.len()
        &&& self.probability_of_class.len() == self.classes.len()
        &&& self.probability_of_feat_by_class.len() == self.classes.len()
        &&& forall|k: int|
            0 <= k < self.classes.len() ==> (#[trigger] self.probability_of_feat_by_class[k]).len()
                == self.width
    }

    /// What a model holds after fitting on `rows` and their `labels`: the
    /// class table of the labels and the width of the rows; for each class
    /// its share of the rows as its prior, and the smoothed probability of
    /// each feature.
    pub open spec fn fitted_on(self, rows: Seq<Vec<S>>, labels: Seq<Seq<char>>) -> bool {
        &&& class_table_of(self.classes, self.class_rows, self.rows, labels)
        &&& self.width == first_width(rows)
        &&& is_class_probability(self.classes, labels, self.probability_of_class)
        &&& self.probability_of_feat_by_class.len() == self.classes.len()
        &&& forall|k: int|
            0 <= k < self.classes.len() ==> is_smoothing(
                rows,
                labels,
                self.classes[k],
                self.width as usize,
                self.alpha,
                #[trigger] self.probability_of_feat_by_class[k],
            )
    }

    /// `scores` holds the score of `row` in each class, all taken with the
    /// floor `floor`.
    pub open spec fn scores_with(self, floor: S, row: Seq<S>, scores: Seq<S>) -> bool {
        &&& scores.len() == self.classes.len()
        &&& forall|k: int|
            0 <= k < self.classes.len() ==> is_multinomial_score(
                self.probability_of_class[k],
                self.probability_of_feat_by_class[k],
                floor,
                row,
                row.len(),
                #[trigger] scores[k],
            )
    }

    /// `scores` holds the score of `row` in each class: the logarithm of
    /// the prior plus, for each feature of strictly positive value, that
    /// value times the logarithm of the feature's smoothed probability. One
    /// billionth is added before each logarithm is taken.
    pub open spec fn scores(self, row: Seq<S>, scores: Seq<S>) -> bool {
        exists|floor: S|
            #![trigger self.scores_with(floor, row, scores)]
            is_small_number(floor) && self.scores_with(floor, row, scores)
    }

    /// `label` is the class that the model predicts for `row`: the one that
    /// wins with the ranks of the row's scores.
    pub open spec fn predicts(self, row: Seq<S>, label: Seq<char>) -> bool {
        exists|scores: Seq<S>, ranks: Seq<i64>|
            #![trigger is_ranking(scores, ranks)]
            self.scores(row, scores) && is_ranking(scores, ranks) && is_winner(
                self.classes,
                ranks,
                label,
            )
    }
}

impl<S: Scalar, State: Stage> StdNaiveBayes<S, State> {
    #[verifier::type_invariant]
    spec fn well_formed(self) -> bool {
        &&& self@.consistent()
        &&& State::fitted() ==> self.classes.len() > 0
    }

    /// The smoothing constant.
    pub fn alpha(&self) -> (alpha: S)
        ensures
            alpha == self@.alpha,
    {
        self.alpha
    }

    /// The classes, in the order in which ties are broken. Every model is
    /// consistent, and a fit one has at least one class.
    pub fn classes(&self) -> (classes: &Vec<String>)
        ensures
            classes.deep_view() == self@.classes,
            self@.consistent(),
            State::fitted() ==> classes.len() > 0,
    {
        proof {
            use_type_invariant(self);
        }
        &self.classes
    }

    /// For each class, the number of training rows that carry it.
    pub fn class_rows(&self) -> (counts: &Vec<usize>)
        ensures
            counts@ == self@.class_rows,
    {
        &self.class_rows
    }

    /// The number of training rows.
    pub fn rows(&self) -> (rows: usize)
        ensures
            rows == self@.rows,
    {
        self.rows
    }

    /// The number of features.
    pub fn width(&self) -> (width: usize)
        ensures
            width == self@.width,
    {
        self.width
    }

    /// For each class, its prior probability.
    pub fn probability_of_class(&self) -> (priors: &Vec<S>)
        ensures
            priors@ == self@.probability_of_class,
    {
        &self.probability_of_class
    }

    /// For each class and feature, the smoothed probability of the feature.
    pub fn probability_of_feat_by_class(&self) -> (probabilities: &Vec<Vec<S>>)
        ensures
            probabilities.len() == self@.probability_of_feat_by_class.len(),
            forall|k: int|
                0 <= k < probabilities.len() ==> (#[trigger] probabilities[k])@
                    == self@.probability_of_feat_by_class[k],
    {
        &self.probability_of_feat_by_class
    }
}

impl<S: Scalar> StdNaiveBayes<S, Unfit> {
    /// A model that has not been fit, with smoothing constant `alpha`. It
    /// notes whether the number type finds `alpha` negative.
    pub fn new(alpha: S) -> (model: Self)
        ensures
            model@.alpha == alpha,
            tells_negative(alpha, model@.smoothing_refused),
            model@.classes.len() == 0,
            model@.probability_of_class.len() == 0,
            model@.probability_of_feat_by_class.len() == 0,
            model@.rows == 0,
            model@.width == 0,
    {
        StdNaiveBayes {
            alpha,
            alpha_negative: is_negative(alpha),
            classes: Vec::new(),
            class_rows: Vec::new(),
            rows: 0,
            width: 0,
            probability_of_class: Vec::new(),
            probability_of_feat_by_class: Vec::new(),
            state: PhantomData,
        }
    }

    /// Fits the model to the rows `x` and their labels `y`, and uses it up.
    ///
    /// Fails on a training set of the wrong shape, with the fault that
    /// `training_shape` names; failing that, on a smoothing constant that
    /// was found negative. Else the fitted model holds what `fitted_on`
    /// says, and the row counts of its classes add up to the number of rows.
    pub fn fit(self, x: &Vec<Vec<S>>, y: &Vec<String>) -> (fitted: Result<
        StdNaiveBayes<S, Fit>,
        NaiveBayesError,
    >)
        ensures
            match fitted {
                Ok(model) => {
                    &&& training_shape(x@, y.len() as nat) is Ok
                    &&& !self@.smoothing_refused
                    &&& model@.alpha == self@.alpha
                    &&& !model@.smoothing_refused
                    &&& model@.fitted_on(x@, y.deep_view())
                    &&& model@.consistent()
                    &&& sum_of_counts(model@.class_rows) == y.len()
                },
                Err(fault) => match training_shape(x@, y.len() as nat) {
                    Err(shape_fault) => fault == shape_fault,
                    Ok(_) => fault == NaiveBayesError::InvalidSmoothing && self@.smoothing_refused,
                },
            },
    {
        let width: usize = match check_training(x, y.len()) {
            Ok(width) => width,
            Err(fault) => {
                return Err(fault);
            },
        };
        if self.alpha_negative {
            return Err(NaiveBayesError::InvalidSmoothing);
        }
        let classes = distinct_labels(y);
        let class_rows = label_counts(&classes, y);
        proof {
            lemma_first_seen(y.deep_view());
            assert(y.deep_view().contains(y.deep_view()[0]));
        }
        let probability_of_class = calculate_class_probability(&classes, y);
        let mut probability_of_feat_by_class: Vec<Vec<S>> = Vec::new();
        let mut k: usize = 0;
        while k < classes.len()
            invariant
                k <= classes.len(),
                x.len() == y.len(),
                all_width(x@, width as nat),
                probability_of_feat_by_class.len() == k,
                forall|j: int|
                    0 <= j < k ==> is_smoothing(
                        x@,
                        y.deep_view(),
                        classes.deep_view()[j],
                        width,
                        self.alpha,
                        (#[trigger] probability_of_feat_by_class@[j])@,
                    ) && probability_of_feat_by_class@[j].len() == width,
            decreases classes.len() - k,
        {
            let probabilities = smoothed_probabilities(x, y, &classes[k], width, self.alpha);
            probability_of_feat_by_class.push(probabilities);
            k += 1;
        }
        let model = StdNaiveBayes {
            alpha: self.alpha,
            alpha_negative: false,
            classes,
            class_rows,
            rows: y.len(),
            width,
            probability_of_class,
            probability_of_feat_by_class,
            state: PhantomData,
        };
        proof {
            assert forall|k: int| 0 <= k < model@.classes.len() implies is_smoothing(
                x@,
                y.deep_view(),
                model@.classes[k],
                model@.width as usize,
                model@.alpha,
                #[trigger] model@.probability_of_feat_by_class[k],
            ) by {
                assert(model@.probability_of_feat_by_class[k]
                    == model.probability_of_feat_by_class@[k]@);
            }
            lemma_class_rows_sum(
                model@.classes,
                model@.class_rows,
                model@.rows,
                y.deep_view(),
            );
        }
        Ok(model)
    }
}

impl<S: Scalar> StdNaiveBayes<S, Fit> {
    /// The score of `row` in each class. `None` exactly when the row is
    /// wider than the rows the model was fit on.
    pub fn log_scores(&self, row: &Vec<S>) -> (scores: Option<Vec<S>>)
        ensures
            match scores {
                Some(scores) => row.len() <= self@.width && self@.scores(row@, scores@),
                None => row.len() > self@.width,
            },
    {
        proof {
            use_type_invariant(self);
        }
        if row.len() > self.width {
            return None;
        }
        let floor: S = small_number();
        let mut scores: Vec<S> = Vec::new();
        let mut k: usize = 0;
        while k < self.classes.len()
            invariant
                k <= self.classes.len(),
                scores.len() == k,
                row.len() <= self.width,
                self@.consistent(),
                forall|c: int|
                    0 <= c < k ==> is_multinomial_score(
                        self@.probability_of_class[c],
                        self@.probability_of_feat_by_class[c],
                        floor,
                        row@,
                        row.len() as nat,
                        #[trigger] scores@[c],
                    ),
            decreases self.classes.len() - k,
        {
            let prior = self.probability_of_class[k];
            let probabilities = &self.probability_of_feat_by_class[k];
            assert(probabilities@ == self@.probability_of_feat_by_class[k as int]);
            assert(self@.probability_of_feat_by_class[k as int].len() == self.width);
            let mut log_sum = floored_ln(prior, floor);
            let mut j: usize = 0;
            while j < row.len()
                invariant
                    j <= row.len(),
                    row.len() <= probabilities.len(),
                    is_multinomial_score(prior, probabilities@, floor, row@, j as nat, log_sum),
                decreases row.len() - j,
            {
                let ghost earlier = log_sum;
                let value = row[j];
                let counted = is_positive(value);
                if counted {
                    let weight = floored_ln(probabilities[j], floor);
                    let term = value.times(weight);
                    log_sum = log_sum.plus(term);
                    assert(is_product(value, weight, term));
                }
                proof {
                    let upto = (j + 1) as nat;
                    assert(is_multinomial_score(
                        prior,
                        probabilities@,
                        floor,
                        row@,
                        (upto - 1) as nat,
                        earlier,
                    ));
                    assert(tells_positive(row@[upto - 1], counted));
                    assert(is_multinomial_term(
                        earlier,
                        counted,
                        row@[upto - 1],
                        probabilities@[upto - 1],
                        floor,
                        log_sum,
                    ));
                    assert(is_multinomial_score(
                        prior,
                        probabilities@,
                        floor,
                        row@,
                        (j + 1) as nat,
                        log_sum,
                    ));
                }
                j += 1;
            }
            scores.push(log_sum);
            k += 1;
        }
        assert(self@.scores_with(floor, row@, scores@));
        Some(scores)
    }

    /// Predicts the class of each row of `x`, in order.
    ///
    /// Fails exactly when a row is wider than the rows the model was fit
    /// on. Each predicted label is the class that wins the row.
    pub fn predict(&self, x: &Vec<Vec<S>>) -> (predicted: Result<Vec<String>, NaiveBayesError>)
        ensures
            match predicted {
                Ok(labels) => {
                    &&& !some_wider(x@, self@.width)
                    &&& labels.len() == x.len()
                    &&& forall|i: int|
                        0 <= i < labels.len() ==> self@.predicts(
                            x@[i]@,
                            #[trigger] labels.deep_view()[i],
                        )
                },
                Err(fault) => fault == NaiveBayesError::UnseenFeatureIndex && some_wider(
                    x@,
                    self@.width,
                ),
            },
    {
        proof {
            use_type_invariant(self);
        }
        if any_wider(x, self.width) {
            return Err(NaiveBayesError::UnseenFeatureIndex);
        }
        let mut labels: Vec<String> = Vec::new();
        let mut i: usize = 0;
        while i < x.len()
            invariant
                i <= x.len(),
                labels.len() == i,
                !some_wider(x@, self@.width),
                self.classes.len() > 0,
                forall|r: int|
                    0 <= r < i ==> self@.predicts(x@[r]@, #[trigger] labels.deep_view()[r]),
            decreases x.len() - i,
        {
            assert(x@[i as int].len() <= self@.width);
            let ghost before = labels.deep_view();
            match self.log_scores(&x[i]) {
                Some(scores) => {
                    let ranks = ranks_of(&scores);
                    match pick_label(&self.classes, &ranks) {
                        Some(label) => {
                            assert(is_ranking(scores@, ranks@));
                            assert(self@.predicts(x@[i as int]@, label@));
                            labels.push(label);
                        },
                        None => vstd::pervasive::unreached(),
                    }
                },
                None => vstd::pervasive::unreached(),
            }
            assert(labels.deep_view() =~= before.push(labels.deep_view()[i as int]));
            i += 1;
        }
        Ok(labels)
    }
}

/// What a Gaussian model holds.
pub struct GaussianNaiveBayesView<S> {
    /// The classes, in the order in which ties are broken.
    pub classes: Seq<Seq<char>>,
    /// For each class, the number of training rows that carry it.
    pub class_rows: Seq<usize>,
    /// The number of training rows.
    pub rows: nat,
    /// The number of features.
    pub width: nat,
    /// For each class, its prior probability.
    pub probability_of_class: Seq<S>,
    /// For each class, its label and the mean and standard deviation of
    /// each feature.
    pub probability_of_feat_by_class: Seq<(Seq<char>, Seq<(S, S)>)>,
}

/// A Naive Bayes classifier for continuous features, each taken to be
/// normally distributed within a class.
pub struct GaussianNaiveBayes<S: Scalar, State: Stage = Unfit> {
    classes: Vec<String>,
    class_rows: Vec<usize>,
    rows: usize,
    width: usize,
    probability_of_class: Vec<S>,
    probability_of_feat_by_class: Vec<(String, Vec<(S, S)>)>,
    state: PhantomData<State>,
}

impl<S: Scalar, State: Stage> View for GaussianNaiveBayes<S, State> {
    type V = GaussianNaiveBayesView<S>;

    closed spec fn view(&self) -> GaussianNaiveBayesView<S> {
        GaussianNaiveBayesView {
            classes: self.classes.deep_view(),
            class_rows: self.class_rows@,
            rows: self.rows as nat,
            width: self.width as nat,
            probability_of_class: self.probability_of_class@,
            probability_of_feat_by_class: self.probability_of_feat_by_class@.map_values(
                |entry: (String, Vec<(S, S)>)| (entry.0@, entry.1@),
            ),
        }
    }
}

impl<S: Scalar> GaussianNaiveBayesView<S> {
    /// What holds of every model: no class occurs twice, and every class has
    /// a count and a prior. Where the rows have features, every class has an
    /// entry under its label, in class order, with one pair for each feature;
    /// where they have none, there is no entry.
    pub open spec fn consistent(self) -> bool {
        &&& self.classes.no_duplicates()
        &&& self.class_rows.len() == self.classes.len()
        &&& self.probability_of_class.len() == self.classes.len()
        &&& self.width == 0 ==> self.probability_of_feat_by_class.len() == 0
        &&& self.width > 0 ==> self.probability_of_feat_by_class.len() == self.classes.len()
        &&& forall|k: int|
            0 <= k < self.probability_of_feat_by_class.len() ==> (
            #[trigger] self.probability_of_feat_by_class[k]).0 == self.classes[k]
                && self.probability_of_feat_by_class[k].1.len() == self.width
    }

    /// What a model holds after fitting on `rows` and their `labels`: the
    /// class table of the labels and the width of the rows; for each class
    /// its share of the rows as its prior, and for each feature the mean and
    /// the population standard deviation over the rows of the class.
    pub open spec fn fitted_on(self, rows: Seq<Vec<S>>, labels: Seq<Seq<char>>) -> bool {
        &&& class_table_of(self.classes, self.class_rows, self.rows, labels)
        &&& self.width == first_width(rows)
        &&& is_class_probability(self.classes, labels, self.probability_of_class)
        &&& forall|k: int|
            0 <= k < self.probability_of_feat_by_class.len() ==> is_statistics(
                rows,
                positions(labels, (#[trigger] self.probability_of_feat_by_class[k]).0),
                self.width,
                self.probability_of_feat_by_class[k].1,
            )
    }

    /// The mean and standard deviation of each feature in the class of
    /// index `k`.
    pub open spec fn statistics(self, k: int) -> Seq<(S, S)> {
        if self.width > 0 {
            self.probability_of_feat_by_class[k].1
        } else {
            Seq::empty()
        }
    }

    /// `scores` holds the score of `row` in each class, all taken with the
    /// floor `floor`.
    pub open spec fn scores_with(self, floor: S, row: Seq<S>, scores: Seq<S>) -> bool {
        &&& scores.len() == self.classes.len()
        &&& forall|k: int|
            0 <= k < self.classes.len() ==> is_gaussian_score(
                self.probability_of_class[k],
                self.statistics(k),
                floor,
                row,
                row.len(),
                #[trigger] scores[k],
            )
    }

    /// `scores` holds the score of `row` in each class: the logarithm of
    /// the prior, one billionth added before it is taken, plus for each
    /// feature the logarithm of the density of the feature's value in the
    /// class.
    pub open spec fn scores(self, row: Seq<S>, scores: Seq<S>) -> bool {
        exists|floor: S|
            #![trigger self.scores_with(floor, row, scores)]
            is_small_number(floor) && self.scores_with(floor, row, scores)
    }

    /// `label` is the class that the model predicts for `row`: the one that
    /// wins with the ranks of the row's scores.
    pub open spec fn predicts(self, row: Seq<S>, label: Seq<char>) -> bool {
        exists|scores: Seq<S>, ranks: Seq<i64>|
            #![trigger is_ranking(scores, ranks)]
            self.scores(row, scores) && is_ranking(scores, ranks) && is_winner(
                self.classes,
                ranks,
                label,
            )
    }
}

impl<S: Scalar, State: Stage> GaussianNaiveBayes<S, State> {
    #[verifier::type_invariant]
    spec fn well_formed(self) -> bool {
        &&& self@.consistent()
        &&& State::fitted() ==> self.classes.len() > 0
    }

    /// The classes, in the order in which ties are broken. Every model is
    /// consistent, and a fit one has at least one class.
    pub fn classes(&self) -> (classes: &Vec<String>)
        ensures
            classes.deep_view() == self@.classes,
            self@.consistent(),
            State::fitted() ==> classes.len() > 0,
    {
        proof {
            use_type_invariant(self);
        }
        &self.classes
    }

    /// For each class, the number of training rows that carry it.
    pub fn class_rows(&self) -> (counts: &Vec<usize>)
        ensures
            counts@ == self@.class_rows,
    {
        &self.class_rows
    }

    /// The number of training rows.
    pub fn rows(&self) -> (rows: usize)
        ensures
            rows == self@.rows,
    {
        self.rows
    }

    /// The number of features.
    pub fn width(&self) -> (width: usize)
        ensures
            width == self@.width,
    {
        self.width
    }

    /// For each class, its prior probability.
    pub fn probability_of_class(&self) -> (priors: &Vec<S>)
        ensures
            priors@ == self@.probability_of_class,
    {
        &self.probability_of_class
    }

    /// For each class, its label and the mean and standard deviation of
    /// each feature.
    pub fn probability_of_feat_by_class(&self) -> (statistics: &Vec<(String, Vec<(S, S)>)>)
        ensures
            statistics.len() == self@.probability_of_feat_by_class.len(),
            forall|k: int|
                0 <= k < statistics.len() ==> (#[trigger] statistics[k]).0@
                    == self@.probability_of_feat_by_class[k].0 && statistics[k].1@
                    == self@.probability_of_feat_by_class[k].1,
    {
        &self.probability_of_feat_by_class
    }
}

impl<S: Scalar> GaussianNaiveBayes<S, Unfit> {
    /// A model that has not been fit.
    pub fn new() -> (model: Self)
        ensures
            model@.classes.len() == 0,
            model@.probability_of_class.len() == 0,
            model@.probability_of_feat_by_class.len() == 0,
            model@.rows == 0,
            model@.width == 0,
    {
        GaussianNaiveBayes {
            classes: Vec::new(),
            class_rows: Vec::new(),
            rows: 0,
            width: 0,
            probability_of_class: Vec::new(),
            probability_of_feat_by_class: Vec::new(),
            state: PhantomData,
        }
    }

    /// Fits the model to the rows `x` and their labels `y`, and uses it up.
    ///
    /// Fails exactly on a training set of the wrong shape, with the fault
    /// that `training_shape` names. Else the fitted model holds what
    /// `fitted_on` says, and the row counts of its classes add up to the
    /// number of rows.
    pub fn fit(self, x: &Vec<Vec<S>>, y: &Vec<String>) -> (fitted: Result<
        GaussianNaiveBayes<S, Fit>,
        NaiveBayesError,
    >)
        ensures
            match fitted {
                Ok(model) => {
                    &&& training_shape(x@, y.len() as nat) is Ok
                    &&& model@.fitted_on(x@, y.deep_view())
                    &&& model@.consistent()
                    &&& sum_of_counts(model@.class_rows) == y.len()
                },
                Err(fault) => training_shape(x@, y.len() as nat) == Err::<nat, NaiveBayesError>(
                    fault,
                ),
            },
    {
        let width: usize = match check_training(x, y.len()) {
            Ok(width) => width,
            Err(fault) => {
                return Err(fault);
            },
        };
        let classes = distinct_labels(y);
        let class_rows = label_counts(&classes, y);
        proof {
            lemma_first_seen(y.deep_view());
            assert(y.deep_view().contains(y.deep_view()[0]));
            lemma_present_all(classes.deep_view(), y.deep_view());
        }
        let probability_of_class = calculate_class_probability(&classes, y);
        let probability_of_feat_by_class = calculate_feature_probability(x, y, &classes);
        proof {
            let entries = probability_of_feat_by_class@;
            assert(first_width(x@) == width);
            assert(entry_labels(entries).len() == entries.len());
            assert forall|k: int| 0 <= k < entries.len() implies (#[trigger] entries[k]).0@
                == classes.deep_view()[k] by {
                assert(entry_labels(entries)[k] == entries[k].0@);
            }
            lemma_class_rows_sum(
                classes.deep_view(),
                class_rows@,
                y.len() as nat,
                y.deep_view(),
            );
        }
        Ok(
            GaussianNaiveBayes {
                classes,
                class_rows,
                rows: y.len(),
                width,
                probability_of_class,
                probability_of_feat_by_class,
                state: PhantomData,
            },
        )
    }
}

impl<S: Scalar> GaussianNaiveBayes<S, Fit> {
    /// The score of `row` in each class. `None` exactly when the row does
    /// not have the width of the rows the model was fit on.
    pub fn log_scores(&self, row: &Vec<S>) -> (scores: Option<Vec<S>>)
        ensures
            match scores {
                Some(scores) => row.len() == self@.width && self@.scores(row@, scores@),
                None => row.len() != self@.width,
            },
    {
        proof {
            use_type_invariant(self);
        }
        if row.len() != self.width {
            return None;
        }
        let floor: S = small_number();
        let mut scores: Vec<S> = Vec::new();
        let mut k: usize = 0;
        while k < self.classes.len()
            invariant
                k <= self.classes.len(),
                scores.len() == k,
                row.len() == self.width,
                self@.consistent(),
                forall|c: int|
                    0 <= c < k ==> is_gaussian_score(
                        self@.probability_of_class[c],
                        self@.statistics(c),
                        floor,
                        row@,
                        row.len() as nat,
                        #[trigger] scores@[c],
                    ),
            decreases self.classes.len() - k,
        {
            let prior = self.probability_of_class[k];
            let mut class_prob = floored_ln(prior, floor);
            if self.width > 0 {
                let statistics = &self.probability_of_feat_by_class[k].1;
                assert(statistics@ == self@.probability_of_feat_by_class[k as int].1);
                assert(self@.probability_of_feat_by_class[k as int].1.len() == self.width);
                let mut j: usize = 0;
                while j < row.len()
                    invariant
                        j <= row.len(),
                        row.len() == statistics.len(),
                        is_gaussian_score(prior, statistics@, floor, row@, j as nat, class_prob),
                    decreases row.len() - j,
                {
                    let ghost earlier = class_prob;
                    let (mean, std_dev) = statistics[j];
                    let density = calculate_probability(row[j], mean, std_dev);
                    let term = density.ln();
                    class_prob = class_prob.plus(term);
                    proof {
                        let upto = (j + 1) as nat;
                        assert(is_gaussian_score(
                            prior,
                            statistics@,
                            floor,
                            row@,
                            (upto - 1) as nat,
                            earlier,
                        ));
                        assert(is_density(
                            row@[upto - 1],
                            statistics@[upto - 1].0,
                            statistics@[upto - 1].1,
                            density,
                        ));
                        assert(is_ln(density, term));
                        assert(is_sum(earlier, term, class_prob));
                        assert(is_gaussian_score(
                            prior,
                            statistics@,
                            floor,
                            row@,
                            (j + 1) as nat,
                            class_prob,
                        ));
                    }
                    j += 1;
                }
            }
            scores.push(class_prob);
            k += 1;
        }
        assert(self@.scores_with(floor, row@, scores@));
        Some(scores)
    }

    /// Predicts the class of each row of `x`, in order.
    ///
    /// Fails exactly when the rows do not have the width the model was fit
    /// on, with the fault that `prediction_shape` names. Each predicted label
    /// is the class that wins the row.
    pub fn predict(&self, x: &Vec<Vec<S>>) -> (predicted: Result<Vec<String>, NaiveBayesError>)
        ensures
            match predicted {
                Ok(labels) => {
                    &&& prediction_shape(x@, self@.width) is Ok
                    &&& labels.len() == x.len()
                    &&& forall|i: int|
                        0 <= i < labels.len() ==> self@.predicts(
                            x@[i]@,
                            #[trigger] labels.deep_view()[i],
                        )
                },
                Err(fault) => prediction_shape(x@, self@.width) == Err::<(), NaiveBayesError>(
                    fault,
                ),
            },
    {
        proof {
            use_type_invariant(self);
        }
        match check_prediction(x, self.width) {
            Ok(()) => {},
            Err(fault) => {
                return Err(fault);
            },
        }
        let mut labels: Vec<String> = Vec::new();
        let mut i: usize = 0;
        while i < x.len()
            invariant
                i <= x.len(),
                labels.len() == i,
                prediction_shape(x@, self@.width) is Ok,
                self.classes.len() > 0,
                forall|r: int|
                    0 <= r < i ==> self@.predicts(x@[r]@, #[trigger] labels.deep_view()[r]),
            decreases x.len() - i,
        {
            assert(x@[i as int].len() == self@.width);
            let ghost before = labels.deep_view();
            match self.log_scores(&x[i]) {
                Some(scores) => {
                    let ranks = ranks_of(&scores);
                    match pick_label(&self.classes, &ranks) {
                        Some(label) => {
                            assert(is_ranking(scores@, ranks@));
                            assert(self@.predicts(x@[i as int]@, label@));
                            labels.push(label);
                        },
                        None => vstd::pervasive::unreached(),
                    }
                },
                None => vstd::pervasive::unreached(),
            }
            assert(labels.deep_view() =~= before.push(labels.deep_view()[i as int]));
            i += 1;
        }
        Ok(labels)
    }
}

} // verus!
