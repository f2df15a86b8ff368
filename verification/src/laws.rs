//! What holds of the estimators and the classifiers.
//!
//! Three things are proved here. The classes partition the rows, so that
//! the priors stand for fractions that add up to one. With a number type
//! whose operations are functions of their arguments, fitting and
//! predicting are repeatable: the same input gives the same model, and the
//! same model and row give the same class. With a number type that computes
//! exactly, smoothed probabilities lie strictly between zero and one.

use crate::estimate::{
    bell_from, column, height_from, is_bell, is_class_probability, is_class_total, is_density,
    is_divisor, is_feature_total, is_height, is_mean, is_share, is_smoothed, is_smoothing,
    is_squared_distance, is_squared_total, is_statistics, is_std_dev, is_total, is_variance,
    mean_from, smoothing_from, std_dev_from,
};
use crate::labels::{lemma_class_counts_sum, occurrences, occurrences_total, positions};
use crate::naive_bayes::{
    class_table_of, is_floored_ln, is_gaussian_score, is_multinomial_score, is_multinomial_term,
    is_ranking, is_winner, GaussianNaiveBayesView, StdNaiveBayesView,
};
use crate::scalar::{
    exact_on_integers, functional, is_count, is_difference, is_from_bits, is_ln, is_product,
    is_quotient, is_rank, is_small_number, is_sum, tells_positive, tells_zero, Scalar,
    SMALL_NUMBER,
};
use crate::select::{is_first_max, lemma_first_max_unique};
use crate::shape::all_width;
use vstd::prelude::*;

verus! {

/// The sum of `counts`.
pub open spec fn sum_of_counts(counts: Seq<usize>) -> nat
    decreases counts.len(),
{
    if counts.len() == 0 {
        0
    } else {
        sum_of_counts(counts.drop_last()) + counts.last() as nat
    }
}

/// The classes partition the rows: in a class table the counts of the
/// classes add up to the number of rows. The priors, each the share of one
/// class in the rows, therefore stand for fractions that add up to one.
pub proof fn lemma_class_rows_sum(
    classes: Seq<Seq<char>>,
    class_rows: Seq<usize>,
    rows: nat,
    labels: Seq<Seq<char>>,
)
    requires
        class_table_of(classes, class_rows, rows, labels),
    ensures
        sum_of_counts(class_rows) == rows,
{
    lemma_class_counts_sum(labels);
    lemma_counts_total(labels, classes, class_rows);
}

/// Counts that are the occurrences of the keys add up to the total of the
/// occurrences.
proof fn lemma_counts_total(labels: Seq<Seq<char>>, keys: Seq<Seq<char>>, counts: Seq<usize>)
    requires
        counts.len() == keys.len(),
        forall|k: int| 0 <= k < keys.len() ==> counts[k] == occurrences(labels, #[trigger] keys[k]),
    ensures
        sum_of_counts(counts) == occurrences_total(labels, keys),
    decreases keys.len(),
{
    if keys.len() > 0 {
        assert(counts.last() == occurrences(labels, keys[keys.len() - 1]));
        assert forall|k: int| 0 <= k < keys.drop_last().len() implies counts.drop_last()[k]
            == occurrences(labels, #[trigger] keys.drop_last()[k]) by {
            assert(counts[k] == occurrences(labels, keys[k]));
        }
        lemma_counts_total(labels, keys.drop_last(), counts.drop_last());
    }
}

/// With a functional number type there is one small number.
pub proof fn lemma_small_number_unique<S: Scalar>(r: S, s: S)
    requires
        functional::<S>(),
        is_small_number(r),
        is_small_number(s),
    ensures
        r == s,
{
    assert(is_from_bits(SMALL_NUMBER, r));
    assert(is_from_bits(SMALL_NUMBER, s));
}

/// With a functional number type a total is determined by what is added up.
pub proof fn lemma_total_unique<S: Scalar>(start: S, data: Seq<S>, r: S, s: S)
    requires
        functional::<S>(),
        is_total(start, data, r),
        is_total(start, data, s),
    ensures
        r == s,
    decreases data.len(),
{
    if data.len() > 0 {
        let earlier_r = choose|earlier: S|
            #![trigger is_sum(earlier, data.last(), r)]
            is_total(start, data.drop_last(), earlier) && is_sum(earlier, data.last(), r);
        let earlier_s = choose|earlier: S|
            #![trigger is_sum(earlier, data.last(), s)]
            is_total(start, data.drop_last(), earlier) && is_sum(earlier, data.last(), s);
        lemma_total_unique(start, data.drop_last(), earlier_r, earlier_s);
    }
}

/// With a functional number type a mean is determined by the data.
pub proof fn lemma_mean_unique<S: Scalar>(data: Seq<S>, r: S, s: S)
    requires
        functional::<S>(),
        is_mean(data, r),
        is_mean(data, s),
    ensures
        r == s,
{
    let (zero_r, total_r, number_r) = choose|zero: S, total: S, number: S|
        #![trigger mean_from(data, zero, total, number, r)]
        mean_from(data, zero, total, number, r);
    let (zero_s, total_s, number_s) = choose|zero: S, total: S, number: S|
        #![trigger mean_from(data, zero, total, number, s)]
        mean_from(data, zero, total, number, s);
    assert(zero_r == zero_s);
    lemma_total_unique(zero_r, data, total_r, total_s);
    assert(number_r == number_s);
}

/// With a functional number type a squared distance is determined by its
/// two ends.
pub proof fn lemma_squared_distance_unique<S: Scalar>(a: S, b: S, r: S, s: S)
    requires
        functional::<S>(),
        is_squared_distance(a, b, r),
        is_squared_distance(a, b, s),
    ensures
        r == s,
{
    let distance_r = choose|distance: S|
        #![trigger is_difference(a, b, distance)]
        is_difference(a, b, distance) && is_product(distance, distance, r);
    let distance_s = choose|distance: S|
        #![trigger is_difference(a, b, distance)]
        is_difference(a, b, distance) && is_product(distance, distance, s);
    assert(distance_r == distance_s);
}

/// With a functional number type a total of squared distances is
/// determined by the data and the mean.
pub proof fn lemma_squared_total_unique<S: Scalar>(start: S, data: Seq<S>, mean: S, r: S, s: S)
    requires
        functional::<S>(),
        is_squared_total(start, data, mean, r),
        is_squared_total(start, data, mean, s),
    ensures
        r == s,
    decreases data.len(),
{
    if data.len() > 0 {
        let (earlier_r, square_r) = choose|earlier: S, square: S|
            #![trigger is_sum(earlier, square, r)]
            is_squared_total(start, data.drop_last(), mean, earlier) && is_squared_distance(
                data.last(),
                mean,
                square,
            ) && is_sum(earlier, square, r);
        let (earlier_s, square_s) = choose|earlier: S, square: S|
            #![trigger is_sum(earlier, square, s)]
            is_squared_total(start, data.drop_last(), mean, earlier) && is_squared_distance(
                data.last(),
                mean,
                square,
            ) && is_sum(earlier, square, s);
        lemma_squared_total_unique(start, data.drop_last(), mean, earlier_r, earlier_s);
        lemma_squared_distance_unique(data.last(), mean, square_r, square_s);
    }
}

/// With a functional number type a standard deviation is determined by
/// the data and the mean.
pub proof fn lemma_std_dev_unique<S: Scalar>(data: Seq<S>, mean: S, r: S, s: S)
    requires
        functional::<S>(),
        is_std_dev(data, mean, r),
        is_std_dev(data, mean, s),
    ensures
        r == s,
{
    let (zero_r, total_r, number_r, variance_r) = choose|
        zero: S,
        total: S,
        number: S,
        variance: S,
    |
        #![trigger std_dev_from(data, mean, zero, total, number, variance, r)]
        std_dev_from(data, mean, zero, total, number, variance, r);
    let (zero_s, total_s, number_s, variance_s) = choose|
        zero: S,
        total: S,
        number: S,
        variance: S,
    |
        #![trigger std_dev_from(data, mean, zero, total, number, variance, s)]
        std_dev_from(data, mean, zero, total, number, variance, s);
    assert(zero_r == zero_s);
    lemma_squared_total_unique(zero_r, data, mean, total_r, total_s);
    assert(number_r == number_s);
    assert(variance_r == variance_s);
}

/// With a functional number type a density is determined by the point,
/// the mean and the standard deviation.
pub proof fn lemma_density_unique<S: Scalar>(x: S, mean: S, std_dev: S, r: S, s: S)
    requires
        functional::<S>(),
        is_density(x, mean, std_dev, r),
        is_density(x, mean, std_dev, s),
    ensures
        r == s,
{
    let (variance_r, bell_r, height_r) = choose|variance: S, bell: S, height: S|
        #![trigger is_bell(x, mean, variance, bell), is_height(variance, height)]
        is_variance(std_dev, variance) && is_bell(x, mean, variance, bell) && is_height(
            variance,
            height,
        ) && is_product(height, bell, r);
    let (variance_s, bell_s, height_s) = choose|variance: S, bell: S, height: S|
        #![trigger is_bell(x, mean, variance, bell), is_height(variance, height)]
        is_variance(std_dev, variance) && is_bell(x, mean, variance, bell) && is_height(
            variance,
            height,
        ) && is_product(height, bell, s);
    assert(variance_r == variance_s) by {
        let degenerate_r = choose|degenerate: bool|
            #![trigger tells_zero(std_dev, degenerate)]
            tells_zero(std_dev, degenerate) && if degenerate {
                is_small_number(variance_r)
            } else {
                is_product(std_dev, std_dev, variance_r)
            };
        let degenerate_s = choose|degenerate: bool|
            #![trigger tells_zero(std_dev, degenerate)]
            tells_zero(std_dev, degenerate) && if degenerate {
                is_small_number(variance_s)
            } else {
                is_product(std_dev, std_dev, variance_s)
            };
        assert(degenerate_r == degenerate_s);
        if degenerate_r {
            lemma_small_number_unique(variance_r, variance_s);
        }
    }
    let variance = variance_r;
    assert(bell_r == bell_s) by {
        let (square_r, zero_r, minus_r, two_r, spread_r, exponent_r) = choose|
            square: S,
            zero: S,
            minus_square: S,
            two: S,
            spread: S,
            exponent: S,
        |
            #![trigger bell_from(x, mean, variance, square, zero, minus_square, two, spread, exponent, bell_r)]
            bell_from(x, mean, variance, square, zero, minus_square, two, spread, exponent, bell_r);
        let (square_s, zero_s, minus_s, two_s, spread_s, exponent_s) = choose|
            square: S,
            zero: S,
            minus_square: S,
            two: S,
            spread: S,
            exponent: S,
        |
            #![trigger bell_from(x, mean, variance, square, zero, minus_square, two, spread, exponent, bell_s)]
            bell_from(x, mean, variance, square, zero, minus_square, two, spread, exponent, bell_s);
        lemma_squared_distance_unique(x, mean, square_r, square_s);
        assert(zero_r == zero_s);
        assert(minus_r == minus_s);
        assert(two_r == two_s);
        assert(spread_r == spread_s);
        assert(exponent_r == exponent_s);
    }
    assert(height_r == height_s) by {
        let (two_r, pi_r, two_pi_r, area_r, root_r, one_r) = choose|
            two: S,
            pi: S,
            two_pi: S,
            area: S,
            root: S,
            one: S,
        |
            #![trigger height_from(variance, two, pi, two_pi, area, root, one, height_r)]
            height_from(variance, two, pi, two_pi, area, root, one, height_r);
        let (two_s, pi_s, two_pi_s, area_s, root_s, one_s) = choose|
            two: S,
            pi: S,
            two_pi: S,
            area: S,
            root: S,
            one: S,
        |
            #![trigger height_from(variance, two, pi, two_pi, area, root, one, height_s)]
            height_from(variance, two, pi, two_pi, area, root, one, height_s);
        assert(two_r == two_s);
        assert(pi_r == pi_s);
        assert(two_pi_r == two_pi_s);
        assert(area_r == area_s);
        assert(root_r == root_s);
        assert(one_r == one_s);
    }
}

/// With a functional number type a share is determined by the two counts.
pub proof fn lemma_share_unique<S: Scalar>(count: usize, rows: usize, r: S, s: S)
    requires
        functional::<S>(),
        is_share(count, rows, r),
        is_share(count, rows, s),
    ensures
        r == s,
{
    let (part_r, whole_r) = choose|part: S, whole: S|
        #![trigger is_quotient(part, whole, r)]
        is_count(count, part) && is_count(rows, whole) && is_quotient(part, whole, r);
    let (part_s, whole_s) = choose|part: S, whole: S|
        #![trigger is_quotient(part, whole, s)]
        is_count(count, part) && is_count(rows, whole) && is_quotient(part, whole, s);
    assert(part_r == part_s);
    assert(whole_r == whole_s);
}

/// With a functional number type the class probabilities are determined by
/// the classes and the labels.
pub proof fn lemma_class_probability_unique<S: Scalar>(
    uniq_classes: Seq<Seq<char>>,
    all_classes: Seq<Seq<char>>,
    r: Seq<S>,
    s: Seq<S>,
)
    requires
        functional::<S>(),
        is_class_probability(uniq_classes, all_classes, r),
        is_class_probability(uniq_classes, all_classes, s),
    ensures
        r == s,
{
    assert forall|k: int| 0 <= k < r.len() implies r[k] == s[k] by {
        lemma_share_unique(
            occurrences(all_classes, uniq_classes[k]) as usize,
            all_classes.len() as usize,
            r[k],
            s[k],
        );
    }
    assert(r =~= s);
}

/// With a functional number type the total of a feature over a class is
/// determined by the rows and the labels.
pub proof fn lemma_feature_total_unique<S: Scalar>(
    rows: Seq<Vec<S>>,
    labels: Seq<Seq<char>>,
    class: Seq<char>,
    feature: int,
    upto: nat,
    r: S,
    s: S,
)
    requires
        functional::<S>(),
        is_feature_total(rows, labels, class, feature, upto, r),
        is_feature_total(rows, labels, class, feature, upto, s),
    ensures
        r == s,
    decreases upto,
{
    if upto > 0 {
        if labels[upto - 1] == class {
            let earlier_r = choose|earlier: S|
                #![trigger is_sum(earlier, rows[upto - 1][feature], r)]
                is_feature_total(rows, labels, class, feature, (upto - 1) as nat, earlier)
                    && is_sum(earlier, rows[upto - 1][feature], r);
            let earlier_s = choose|earlier: S|
                #![trigger is_sum(earlier, rows[upto - 1][feature], s)]
                is_feature_total(rows, labels, class, feature, (upto - 1) as nat, earlier)
                    && is_sum(earlier, rows[upto - 1][feature], s);
            lemma_feature_total_unique(
                rows,
                labels,
                class,
                feature,
                (upto - 1) as nat,
                earlier_r,
                earlier_s,
            );
        } else {
            lemma_feature_total_unique(rows, labels, class, feature, (upto - 1) as nat, r, s);
        }
    }
}

/// With a functional number type the total of a class is determined by the
/// rows and the labels.
pub proof fn lemma_class_total_unique<S: Scalar>(
    rows: Seq<Vec<S>>,
    labels: Seq<Seq<char>>,
    class: Seq<char>,
    upto: nat,
    r: S,
    s: S,
)
    requires
        functional::<S>(),
        is_class_total(rows, labels, class, upto, r),
        is_class_total(rows, labels, class, upto, s),
    ensures
        r == s,
    decreases upto,
{
    if upto > 0 {
        if labels[upto - 1] == class {
            let earlier_r = choose|earlier: S|
                #![trigger is_total(earlier, rows[upto - 1]@, r)]
                is_class_total(rows, labels, class, (upto - 1) as nat, earlier) && is_total(
                    earlier,
                    rows[upto - 1]@,
                    r,
                );
            let earlier_s = choose|earlier: S|
                #![trigger is_total(earlier, rows[upto - 1]@, s)]
                is_class_total(rows, labels, class, (upto - 1) as nat, earlier) && is_total(
                    earlier,
                    rows[upto - 1]@,
                    s,
                );
            lemma_class_total_unique(rows, labels, class, (upto - 1) as nat, earlier_r, earlier_s);
            lemma_total_unique(earlier_r, rows[upto - 1]@, r, s);
        } else {
            lemma_class_total_unique(rows, labels, class, (upto - 1) as nat, r, s);
        }
    }
}

/// With a functional number type the smoothed probabilities of a class are
/// determined by the rows, the labels and the smoothing constant.
pub proof fn lemma_smoothing_unique<S: Scalar>(
    rows: Seq<Vec<S>>,
    labels: Seq<Seq<char>>,
    class: Seq<char>,
    width: usize,
    alpha: S,
    r: Seq<S>,
    s: Seq<S>,
)
    requires
        functional::<S>(),
        is_smoothing(rows, labels, class, width, alpha, r),
        is_smoothing(rows, labels, class, width, alpha, s),
    ensures
        r == s,
{
    let (total_r, divisor_r, undefined_r, totals_r) = choose|
        total: S,
        divisor: S,
        undefined: bool,
        feature_totals: Seq<S>,
    |
        #![trigger smoothing_from(rows, labels, class, width, alpha, total, divisor, undefined, feature_totals, r)]
        smoothing_from(
            rows,
            labels,
            class,
            width,
            alpha,
            total,
            divisor,
            undefined,
            feature_totals,
            r,
        );
    let (total_s, divisor_s, undefined_s, totals_s) = choose|
        total: S,
        divisor: S,
        undefined: bool,
        feature_totals: Seq<S>,
    |
        #![trigger smoothing_from(rows, labels, class, width, alpha, total, divisor, undefined, feature_totals, s)]
        smoothing_from(
            rows,
            labels,
            class,
            width,
            alpha,
            total,
            divisor,
            undefined,
            feature_totals,
            s,
        );
    lemma_class_total_unique(rows, labels, class, rows.len(), total_r, total_s);
    assert(divisor_r == divisor_s) by {
        let (features_r, smoothing_r) = choose|features: S, smoothing: S|
            #![trigger is_product(alpha, features, smoothing)]
            is_count(width, features) && is_product(alpha, features, smoothing) && is_sum(
                total_r,
                smoothing,
                divisor_r,
            );
        let (features_s, smoothing_s) = choose|features: S, smoothing: S|
            #![trigger is_product(alpha, features, smoothing)]
            is_count(width, features) && is_product(alpha, features, smoothing) && is_sum(
                total_s,
                smoothing,
                divisor_s,
            );
        assert(features_r == features_s);
        assert(smoothing_r == smoothing_s);
    }
    assert(undefined_r == undefined_s);
    assert forall|j: int| 0 <= j < width implies r[j] == s[j] by {
        let feature_total = totals_r[j];
        lemma_feature_total_unique(rows, labels, class, j, rows.len(), totals_r[j], totals_s[j]);
        assert(is_smoothed(feature_total, alpha, divisor_r, undefined_r, r[j]));
        assert(is_smoothed(feature_total, alpha, divisor_r, undefined_r, s[j]));
        if !undefined_r {
            let raised_r = choose|raised: S|
                #![trigger is_sum(feature_total, alpha, raised)]
                is_sum(feature_total, alpha, raised) && is_quotient(raised, divisor_r, r[j]);
            let raised_s = choose|raised: S|
                #![trigger is_sum(feature_total, alpha, raised)]
                is_sum(feature_total, alpha, raised) && is_quotient(raised, divisor_r, s[j]);
            assert(raised_r == raised_s);
        }
    }
    assert(r =~= s);
}

/// With a functional number type the statistics of a class are determined
/// by the rows of the class.
pub proof fn lemma_statistics_unique<S: Scalar>(
    rows: Seq<Vec<S>>,
    members: Seq<int>,
    width: nat,
    r: Seq<(S, S)>,
    s: Seq<(S, S)>,
)
    requires
        functional::<S>(),
        is_statistics(rows, members, width, r),
        is_statistics(rows, members, width, s),
    ensures
        r == s,
{
    assert forall|j: int| 0 <= j < width implies r[j] == s[j] by {
        lemma_mean_unique(column(rows, members, j), r[j].0, s[j].0);
        lemma_std_dev_unique(column(rows, members, j), r[j].0, r[j].1, s[j].1);
    }
    assert(r =~= s);
}

/// With a functional number type a floored logarithm is determined by the
/// value and the floor.
pub proof fn lemma_floored_ln_unique<S: Scalar>(value: S, floor: S, r: S, s: S)
    requires
        functional::<S>(),
        is_floored_ln(value, floor, r),
        is_floored_ln(value, floor, s),
    ensures
        r == s,
{
    let raised_r = choose|raised: S|
        #![trigger is_sum(value, floor, raised)]
        is_sum(value, floor, raised) && is_ln(raised, r);
    let raised_s = choose|raised: S|
        #![trigger is_sum(value, floor, raised)]
        is_sum(value, floor, raised) && is_ln(raised, s);
    assert(raised_r == raised_s);
}

/// With a functional number type a multinomial score is determined by the
/// class's parameters and the row.
pub proof fn lemma_multinomial_score_unique<S: Scalar>(
    prior: S,
    probabilities: Seq<S>,
    floor: S,
    row: Seq<S>,
    upto: nat,
    r: S,
    s: S,
)
    requires
        functional::<S>(),
        is_multinomial_score(prior, probabilities, floor, row, upto, r),
        is_multinomial_score(prior, probabilities, floor, row, upto, s),
    ensures
        r == s,
    decreases upto,
{
    if upto == 0 {
        lemma_floored_ln_unique(prior, floor, r, s);
    } else {
        let value = row[upto - 1];
        let probability = probabilities[upto - 1];
        let (earlier_r, counted_r) = choose|earlier: S, counted: bool|
            #![trigger is_multinomial_term(earlier, counted, row[upto - 1], probabilities[upto - 1], floor, r)]
            is_multinomial_score(prior, probabilities, floor, row, (upto - 1) as nat, earlier)
                && tells_positive(row[upto - 1], counted) && is_multinomial_term(
                earlier,
                counted,
                row[upto - 1],
                probabilities[upto - 1],
                floor,
                r,
            );
        let (earlier_s, counted_s) = choose|earlier: S, counted: bool|
            #![trigger is_multinomial_term(earlier, counted, row[upto - 1], probabilities[upto - 1], floor, s)]
            is_multinomial_score(prior, probabilities, floor, row, (upto - 1) as nat, earlier)
                && tells_positive(row[upto - 1], counted) && is_multinomial_term(
                earlier,
                counted,
                row[upto - 1],
                probabilities[upto - 1],
                floor,
                s,
            );
        lemma_multinomial_score_unique(
            prior,
            probabilities,
            floor,
            row,
            (upto - 1) as nat,
            earlier_r,
            earlier_s,
        );
        assert(counted_r == counted_s);
        if counted_r {
            let (weight_r, term_r) = choose|weight: S, term: S|
                #![trigger is_product(value, weight, term)]
                is_floored_ln(probability, floor, weight) && is_product(value, weight, term)
                    && is_sum(earlier_r, term, r);
            let (weight_s, term_s) = choose|weight: S, term: S|
                #![trigger is_product(value, weight, term)]
                is_floored_ln(probability, floor, weight) && is_product(value, weight, term)
                    && is_sum(earlier_r, term, s);
            lemma_floored_ln_unique(probability, floor, weight_r, weight_s);
            assert(term_r == term_s);
        }
    }
}

/// With a functional number type a Gaussian score is determined by the
/// class's parameters and the row.
pub proof fn lemma_gaussian_score_unique<S: Scalar>(
    prior: S,
    statistics: Seq<(S, S)>,
    floor: S,
    row: Seq<S>,
    upto: nat,
    r: S,
    s: S,
)
    requires
        functional::<S>(),
        is_gaussian_score(prior, statistics, floor, row, upto, r),
        is_gaussian_score(prior, statistics, floor, row, upto, s),
    ensures
        r == s,
    decreases upto,
{
    if upto == 0 {
        lemma_floored_ln_unique(prior, floor, r, s);
    } else {
        let (earlier_r, density_r, term_r) = choose|earlier: S, density: S, term: S|
            #![trigger is_density(row[upto - 1], statistics[upto - 1].0, statistics[upto - 1].1, density), is_sum(earlier, term, r)]
            is_gaussian_score(prior, statistics, floor, row, (upto - 1) as nat, earlier)
                && is_density(row[upto - 1], statistics[upto - 1].0, statistics[upto - 1].1, density)
                && is_ln(density, term) && is_sum(earlier, term, r);
        let (earlier_s, density_s, term_s) = choose|earlier: S, density: S, term: S|
            #![trigger is_density(row[upto - 1], statistics[upto - 1].0, statistics[upto - 1].1, density), is_sum(earlier, term, s)]
            is_gaussian_score(prior, statistics, floor, row, (upto - 1) as nat, earlier)
                && is_density(row[upto - 1], statistics[upto - 1].0, statistics[upto - 1].1, density)
                && is_ln(density, term) && is_sum(earlier, term, s);
        lemma_gaussian_score_unique(
            prior,
            statistics,
            floor,
            row,
            (upto - 1) as nat,
            earlier_r,
            earlier_s,
        );
        lemma_density_unique(
            row[upto - 1],
            statistics[upto - 1].0,
            statistics[upto - 1].1,
            density_r,
            density_s,
        );
        assert(term_r == term_s);
    }
}

/// With a functional number type the ranks are determined by the scores.
pub proof fn lemma_ranking_unique<S: Scalar>(scores: Seq<S>, r: Seq<i64>, s: Seq<i64>)
    requires
        functional::<S>(),
        is_ranking(scores, r),
        is_ranking(scores, s),
    ensures
        r == s,
{
    assert forall|k: int| 0 <= k < r.len() implies r[k] == s[k] by {
        assert(is_rank(scores[k], r[k]));
        assert(is_rank(scores[k], s[k]));
    }
    assert(r =~= s);
}

/// The ranks determine the winner.
pub proof fn lemma_winner_unique(
    classes: Seq<Seq<char>>,
    ranks: Seq<i64>,
    r: Seq<char>,
    s: Seq<char>,
)
    requires
        is_winner(classes, ranks, r),
        is_winner(classes, ranks, s),
    ensures
        r == s,
{
    let best_r = choose|k: int| is_first_max(ranks, k) && r == #[trigger] classes[k];
    let best_s = choose|k: int| is_first_max(ranks, k) && s == #[trigger] classes[k];
    lemma_first_max_unique(ranks, best_r, best_s);
}

/// Predicting is repeatable: with a functional number type, a multinomial
/// model predicts one class for a row, however often it is asked.
pub proof fn lemma_multinomial_prediction_unique<S: Scalar>(
    model: StdNaiveBayesView<S>,
    row: Seq<S>,
    r: Seq<char>,
    s: Seq<char>,
)
    requires
        functional::<S>(),
        model.predicts(row, r),
        model.predicts(row, s),
    ensures
        r == s,
{
    let (scores_r, ranks_r) = choose|scores: Seq<S>, ranks: Seq<i64>|
        #![trigger is_ranking(scores, ranks)]
        model.scores(row, scores) && is_ranking(scores, ranks) && is_winner(
            model.classes,
            ranks,
            r,
        );
    let (scores_s, ranks_s) = choose|scores: Seq<S>, ranks: Seq<i64>|
        #![trigger is_ranking(scores, ranks)]
        model.scores(row, scores) && is_ranking(scores, ranks) && is_winner(
            model.classes,
            ranks,
            s,
        );
    let floor_r = choose|floor: S|
        #![trigger model.scores_with(floor, row, scores_r)]
        is_small_number(floor) && model.scores_with(floor, row, scores_r);
    let floor_s = choose|floor: S|
        #![trigger model.scores_with(floor, row, scores_s)]
        is_small_number(floor) && model.scores_with(floor, row, scores_s);
    lemma_small_number_unique(floor_r, floor_s);
    assert forall|k: int| 0 <= k < scores_r.len() implies scores_r[k] == scores_s[k] by {
        lemma_multinomial_score_unique(
            model.probability_of_class[k],
            model.probability_of_feat_by_class[k],
            floor_r,
            row,
            row.len(),
            scores_r[k],
            scores_s[k],
        );
    }
    assert(scores_r =~= scores_s);
    lemma_ranking_unique(scores_r, ranks_r, ranks_s);
    lemma_winner_unique(model.classes, ranks_r, r, s);
}

/// Predicting is repeatable: with a functional number type, a Gaussian
/// model predicts one class for a row, however often it is asked.
pub proof fn lemma_gaussian_prediction_unique<S: Scalar>(
    model: GaussianNaiveBayesView<S>,
    row: Seq<S>,
    r: Seq<char>,
    s: Seq<char>,
)
    requires
        functional::<S>(),
        model.predicts(row, r),
        model.predicts(row, s),
    ensures
        r == s,
{
    let (scores_r, ranks_r) = choose|scores: Seq<S>, ranks: Seq<i64>|
        #![trigger is_ranking(scores, ranks)]
        model.scores(row, scores) && is_ranking(scores, ranks) && is_winner(
            model.classes,
            ranks,
            r,
        );
    let (scores_s, ranks_s) = choose|scores: Seq<S>, ranks: Seq<i64>|
        #![trigger is_ranking(scores, ranks)]
        model.scores(row, scores) && is_ranking(scores, ranks) && is_winner(
            model.classes,
            ranks,
            s,
        );
    let floor_r = choose|floor: S|
        #![trigger model.scores_with(floor, row, scores_r)]
        is_small_number(floor) && model.scores_with(floor, row, scores_r);
    let floor_s = choose|floor: S|
        #![trigger model.scores_with(floor, row, scores_s)]
        is_small_number(floor) && model.scores_with(floor, row, scores_s);
    lemma_small_number_unique(floor_r, floor_s);
    assert forall|k: int| 0 <= k < scores_r.len() implies scores_r[k] == scores_s[k] by {
        lemma_gaussian_score_unique(
            model.probability_of_class[k],
            model.statistics(k),
            floor_r,
            row,
            row.len(),
            scores_r[k],
            scores_s[k],
        );
    }
    assert(scores_r =~= scores_s);
    lemma_ranking_unique(scores_r, ranks_r, ranks_s);
    lemma_winner_unique(model.classes, ranks_r, r, s);
}

/// Fitting is repeatable: with a functional number type, two multinomial
/// models fitted on the same rows and labels with the same smoothing
/// constant hold the same classes, counts, priors and probabilities.
pub proof fn lemma_multinomial_fit_unique<S: Scalar>(
    a: StdNaiveBayesView<S>,
    b: StdNaiveBayesView<S>,
    rows: Seq<Vec<S>>,
    labels: Seq<Seq<char>>,
)
    requires
        functional::<S>(),
        a.alpha == b.alpha,
        a.smoothing_refused == b.smoothing_refused,
        a.fitted_on(rows, labels),
        b.fitted_on(rows, labels),
    ensures
        a == b,
{
    assert forall|k: int| 0 <= k < a.class_rows.len() implies a.class_rows[k]
        == b.class_rows[k] by {
        assert(a.class_rows[k] == occurrences(labels, a.classes[k]));
        assert(b.class_rows[k] == occurrences(labels, b.classes[k]));
    }
    assert(a.class_rows =~= b.class_rows);
    lemma_class_probability_unique(
        a.classes,
        labels,
        a.probability_of_class,
        b.probability_of_class,
    );
    assert forall|k: int| 0 <= k < a.classes.len() implies a.probability_of_feat_by_class[k]
        == b.probability_of_feat_by_class[k] by {
        lemma_smoothing_unique(
            rows,
            labels,
            a.classes[k],
            a.width as usize,
            a.alpha,
            a.probability_of_feat_by_class[k],
            b.probability_of_feat_by_class[k],
        );
    }
    assert(a.probability_of_feat_by_class =~= b.probability_of_feat_by_class);
}

/// Fitting is repeatable: with a functional number type, two Gaussian
/// models fitted on the same rows and labels hold the same classes, counts,
/// priors, means and standard deviations.
pub proof fn lemma_gaussian_fit_unique<S: Scalar>(
    a: GaussianNaiveBayesView<S>,
    b: GaussianNaiveBayesView<S>,
    rows: Seq<Vec<S>>,
    labels: Seq<Seq<char>>,
)
    requires
        functional::<S>(),
        a.consistent(),
        b.consistent(),
        a.fitted_on(rows, labels),
        b.fitted_on(rows, labels),
    ensures
        a == b,
{
    assert forall|k: int| 0 <= k < a.class_rows.len() implies a.class_rows[k]
        == b.class_rows[k] by {
        assert(a.class_rows[k] == occurrences(labels, a.classes[k]));
        assert(b.class_rows[k] == occurrences(labels, b.classes[k]));
    }
    assert(a.class_rows =~= b.class_rows);
    lemma_class_probability_unique(
        a.classes,
        labels,
        a.probability_of_class,
        b.probability_of_class,
    );
    assert forall|k: int|
        0 <= k < a.probability_of_feat_by_class.len() implies a.probability_of_feat_by_class[k]
        == b.probability_of_feat_by_class[k] by {
        let entry_a = a.probability_of_feat_by_class[k];
        let entry_b = b.probability_of_feat_by_class[k];
        assert(entry_a.0 == a.classes[k]);
        assert(entry_b.0 == b.classes[k]);
        lemma_statistics_unique(rows, positions(labels, entry_a.0), a.width, entry_a.1, entry_b.1);
    }
    assert(a.probability_of_feat_by_class =~= b.probability_of_feat_by_class);
}

/// With exact arithmetic on values that are not negative, a total is at
/// least what it started from, and at least that plus any one of the added
/// values.
proof fn lemma_total_bounds<S: Scalar>(
    value: spec_fn(S) -> int,
    start: S,
    data: Seq<S>,
    r: S,
    place: int,
)
    requires
        exact_on_integers(value),
        forall|j: int| 0 <= j < data.len() ==> value(#[trigger] data[j]) >= 0,
        is_total(start, data, r),
        0 <= place < data.len(),
    ensures
        value(r) >= value(start) + value(data[place]),
    decreases data.len(),
{
    let earlier = choose|earlier: S|
        #![trigger is_sum(earlier, data.last(), r)]
        is_total(start, data.drop_last(), earlier) && is_sum(earlier, data.last(), r);
    assert(value(data[data.len() - 1]) >= 0);
    if place < data.len() - 1 {
        assert forall|j: int| 0 <= j < data.drop_last().len() implies value(
            #[trigger] data.drop_last()[j],
        ) >= 0 by {
            assert(data.drop_last()[j] == data[j]);
        }
        lemma_total_bounds(value, start, data.drop_last(), earlier, place);
    } else {
        lemma_total_grows(value, start, data.drop_last(), earlier);
    }
}

/// With exact arithmetic on values that are not negative, a total is at
/// least what it started from.
proof fn lemma_total_grows<S: Scalar>(value: spec_fn(S) -> int, start: S, data: Seq<S>, r: S)
    requires
        exact_on_integers(value),
        forall|j: int| 0 <= j < data.len() ==> value(#[trigger] data[j]) >= 0,
        is_total(start, data, r),
    ensures
        value(r) >= value(start),
    decreases data.len(),
{
    if data.len() > 0 {
        let earlier = choose|earlier: S|
            #![trigger is_sum(earlier, data.last(), r)]
            is_total(start, data.drop_last(), earlier) && is_sum(earlier, data.last(), r);
        assert(value(data[data.len() - 1]) >= 0);
        assert forall|j: int| 0 <= j < data.drop_last().len() implies value(
            #[trigger] data.drop_last()[j],
        ) >= 0 by {
            assert(data.drop_last()[j] == data[j]);
        }
        lemma_total_grows(value, start, data.drop_last(), earlier);
    }
}

/// With exact arithmetic on values that are not negative, the total of
/// one feature over a class is not negative and not more than the total of
/// all features over the class.
proof fn lemma_feature_total_bounds<S: Scalar>(
    value: spec_fn(S) -> int,
    rows: Seq<Vec<S>>,
    labels: Seq<Seq<char>>,
    class: Seq<char>,
    width: nat,
    feature: int,
    upto: nat,
    feature_total: S,
    total: S,
)
    requires
        exact_on_integers(value),
        all_width(rows, width),
        upto <= rows.len(),
        0 <= feature < width,
        forall|i: int, j: int|
            0 <= i < rows.len() && 0 <= j < width ==> value(#[trigger] rows[i][j]) >= 0,
        is_feature_total(rows, labels, class, feature, upto, feature_total),
        is_class_total(rows, labels, class, upto, total),
    ensures
        0 <= value(feature_total) <= value(total),
    decreases upto,
{
    if upto > 0 {
        let row = rows[upto - 1];
        assert(row.len() == width);
        if labels[upto - 1] == class {
            let feature_earlier = choose|earlier: S|
                #![trigger is_sum(earlier, rows[upto - 1][feature], feature_total)]
                is_feature_total(rows, labels, class, feature, (upto - 1) as nat, earlier)
                    && is_sum(earlier, rows[upto - 1][feature], feature_total);
            let earlier = choose|earlier: S|
                #![trigger is_total(earlier, rows[upto - 1]@, total)]
                is_class_total(rows, labels, class, (upto - 1) as nat, earlier) && is_total(
                    earlier,
                    rows[upto - 1]@,
                    total,
                );
            lemma_feature_total_bounds(
                value,
                rows,
                labels,
                class,
                width,
                feature,
                (upto - 1) as nat,
                feature_earlier,
                earlier,
            );
            assert forall|j: int| 0 <= j < row@.len() implies value(#[trigger] row@[j]) >= 0 by {
                assert(value(rows[upto - 1][j]) >= 0);
            }
            lemma_total_bounds(value, earlier, row@, total, feature);
            assert(value(rows[upto - 1][feature]) >= 0);
        } else {
            lemma_feature_total_bounds(
                value,
                rows,
                labels,
                class,
                width,
                feature,
                (upto - 1) as nat,
                feature_total,
                total,
            );
        }
    }
}

/// Smoothing gives proper fractions: with exact arithmetic, a strictly
/// positive smoothing constant, values that are not negative and at least
/// two features, what a smoothed probability divides is strictly positive
/// and strictly less than what it divides by, so that the probability lies
/// strictly between zero and one.
pub proof fn lemma_smoothed_is_proper<S: Scalar>(
    value: spec_fn(S) -> int,
    rows: Seq<Vec<S>>,
    labels: Seq<Seq<char>>,
    class: Seq<char>,
    width: usize,
    alpha: S,
    feature: int,
    feature_total: S,
    total: S,
    divisor: S,
    raised: S,
)
    requires
        exact_on_integers(value),
        value(alpha) > 0,
        width >= 2,
        0 <= feature < width,
        all_width(rows, width as nat),
        forall|i: int, j: int|
            0 <= i < rows.len() && 0 <= j < width ==> value(#[trigger] rows[i][j]) >= 0,
        is_feature_total(rows, labels, class, feature, rows.len(), feature_total),
        is_class_total(rows, labels, class, rows.len(), total),
        is_divisor(total, alpha, width, divisor),
        is_sum(feature_total, alpha, raised),
    ensures
        0 < value(raised) < value(divisor),
{
    lemma_feature_total_bounds(
        value,
        rows,
        labels,
        class,
        width as nat,
        feature,
        rows.len(),
        feature_total,
        total,
    );
    let (features, smoothing) = choose|features: S, smoothing: S|
        #![trigger is_product(alpha, features, smoothing)]
        is_count(width, features) && is_product(alpha, features, smoothing) && is_sum(
            total,
            smoothing,
            divisor,
        );
    let a = value(alpha);
    let w = width as int;
    assert(value(smoothing) == a * w);
    assert(a * w >= 2 * a) by (nonlinear_arith)
        requires
            a > 0,
            w >= 2,
    ;
}

} // verus!
