//! The formulas of the estimators, each as a relation between its arguments
//! and a result that the number type gave, and the functions that compute
//! them.

use crate::labels::{
    label_counts, lemma_occurrences_contains, lemma_positions, occurrences, positions, present,
    rows_with_label,
};
use crate::scalar::{
    is_count, is_difference, is_exp, is_pi, is_product, is_quotient, is_small_number, is_sqrt,
    is_sum, is_zero, tells_zero, Scalar, PI, SMALL_NUMBER,
};
use crate::shape::all_width;
use vstd::prelude::*;

verus! {

/// The floor added before a logarithm is taken, and the variance with
/// which a standard deviation of zero is evaluated: one billionth.
pub fn small_number<S: Scalar>() -> (floor: S)
    ensures
        is_small_number(floor),
{
    S::from_bits(SMALL_NUMBER)
}

/// `r` is `start` with the values of `data` added to it, one after the
/// other from the first.
pub open spec fn is_total<S: Scalar>(start: S, data: Seq<S>, r: S) -> bool
    decreases data.len(),
{
    if data.len() == 0 {
        r == start
    } else {
        exists|earlier: S|
            #![trigger is_sum(earlier, data.last(), r)]
            is_total(start, data.drop_last(), earlier) && is_sum(earlier, data.last(), r)
    }
}

/// `r` is the mean of `data`: its values added to zero, over their number.
pub open spec fn is_mean<S: Scalar>(data: Seq<S>, r: S) -> bool {
    exists|zero: S, total: S, number: S|
        #![trigger mean_from(data, zero, total, number, r)]
        mean_from(data, zero, total, number, r)
}

/// The steps of `is_mean`.
pub open spec fn mean_from<S: Scalar>(data: Seq<S>, zero: S, total: S, number: S, r: S) -> bool {
    &&& is_count(0usize, zero)
    &&& is_total(zero, data, total)
    &&& is_count(data.len() as usize, number)
    &&& is_quotient(total, number, r)
}

/// The mean of `data`: the sum of its values over their number.
pub fn calculate_mean<S: Scalar>(data: &Vec<S>) -> (mean: S)
    ensures
        is_mean(data@, mean),
{
    let zero = S::from_count(0);
    let mut sum = zero;
    let mut i: usize = 0;
    assert(data@.take(0) =~= Seq::empty());
    while i < data.len()
        invariant
            i <= data.len(),
            is_total(zero, data@.take(i as int), sum),
        decreases data.len() - i,
    {
        let ghost earlier = sum;
        sum = sum.plus(data[i]);
        proof {
            let next = data@.take(i + 1);
            assert(next.drop_last() =~= data@.take(i as int));
            assert(is_total(zero, next.drop_last(), earlier));
            assert(is_sum(earlier, next.last(), sum));
            assert(is_total(zero, next, sum));
        }
        i += 1;
    }
    assert(data@.take(data.len() as int) =~= data@);
    let number = S::from_count(data.len());
    let mean = sum.over(number);
    assert(mean_from(data@, zero, sum, number, mean));
    mean
}

/// `r` is the square of the distance between `a` and `b`.
pub open spec fn is_squared_distance<S: Scalar>(a: S, b: S, r: S) -> bool {
    exists|distance: S|
        #![trigger is_difference(a, b, distance)]
        is_difference(a, b, distance) && is_product(distance, distance, r)
}

/// `r` is `start` with the squared distances from `mean` of the values of
/// `data` added to it, one after the other from the first.
pub open spec fn is_squared_total<S: Scalar>(start: S, data: Seq<S>, mean: S, r: S) -> bool
    decreases data.len(),
{
    if data.len() == 0 {
        r == start
    } else {
        exists|earlier: S, square: S|
            #![trigger is_sum(earlier, square, r)]
            is_squared_total(start, data.drop_last(), mean, earlier) && is_squared_distance(
                data.last(),
                mean,
                square,
            ) && is_sum(earlier, square, r)
    }
}

/// `r` is the population standard deviation of `data` about `mean`: the
/// square root of the squared distances from `mean` added to zero, over the
/// number of values.
pub open spec fn is_std_dev<S: Scalar>(data: Seq<S>, mean: S, r: S) -> bool {
    exists|zero: S, total: S, number: S, variance: S|
        #![trigger std_dev_from(data, mean, zero, total, number, variance, r)]
        std_dev_from(data, mean, zero, total, number, variance, r)
}

/// The steps of `is_std_dev`.
pub open spec fn std_dev_from<S: Scalar>(
    data: Seq<S>,
    mean: S,
    zero: S,
    total: S,
    number: S,
    variance: S,
    r: S,
) -> bool {
    &&& is_count(0usize, zero)
    &&& is_squared_total(zero, data, mean, total)
    &&& is_count(data.len() as usize, number)
    &&& is_quotient(total, number, variance)
    &&& is_sqrt(variance, r)
}

/// The population standard deviation of `data` about `mean`: the square
/// root of the mean squared distance from `mean`, the divisor being the
/// number of values.
pub fn calculate_std_dev<S: Scalar>(data: &Vec<S>, mean: S) -> (std_dev: S)
    ensures
        is_std_dev(data@, mean, std_dev),
{
    let zero = S::from_count(0);
    let mut sum = zero;
    let mut i: usize = 0;
    assert(data@.take(0) =~= Seq::empty());
    while i < data.len()
        invariant
            i <= data.len(),
            is_squared_total(zero, data@.take(i as int), mean, sum),
        decreases data.len() - i,
    {
        let ghost earlier = sum;
        let diff = data[i].minus(mean);
        let square = diff.times(diff);
        sum = sum.plus(square);
        proof {
            let next = data@.take(i + 1);
            assert(next.drop_last() =~= data@.take(i as int));
            assert(is_difference(data@[i as int], mean, diff));
            assert(is_squared_distance(next.last(), mean, square));
            assert(is_squared_total(zero, next.drop_last(), mean, earlier));
            assert(is_sum(earlier, square, sum));
            assert(is_squared_total(zero, next, mean, sum));
        }
        i += 1;
    }
    assert(data@.take(data.len() as int) =~= data@);
    let number = S::from_count(data.len());
    let variance = sum.over(number);
    let std_dev = variance.sqrt();
    assert(std_dev_from(data@, mean, zero, sum, number, variance, std_dev));
    std_dev
}

/// `r` is the variance with which a standard deviation of `std_dev` is
/// evaluated: its square, or one billionth where the number type says that
/// it is zero.
pub open spec fn is_variance<S: Scalar>(std_dev: S, r: S) -> bool {
    exists|degenerate: bool|
        #![trigger tells_zero(std_dev, degenerate)]
        tells_zero(std_dev, degenerate) && if degenerate {
            is_small_number(r)
        } else {
            is_product(std_dev, std_dev, r)
        }
}

/// `r` is the exponential factor of the normal density at `x`: the
/// exponential of zero less the squared distance of `x` from `mean`, over
/// twice the variance.
pub open spec fn is_bell<S: Scalar>(x: S, mean: S, variance: S, r: S) -> bool {
    exists|square: S, zero: S, minus_square: S, two: S, spread: S, exponent: S|
        #![trigger bell_from(x, mean, variance, square, zero, minus_square, two, spread, exponent, r)]
        bell_from(x, mean, variance, square, zero, minus_square, two, spread, exponent, r)
}

/// The steps of `is_bell`.
pub open spec fn bell_from<S: Scalar>(
    x: S,
    mean: S,
    variance: S,
    square: S,
    zero: S,
    minus_square: S,
    two: S,
    spread: S,
    exponent: S,
    r: S,
) -> bool {
    &&& is_squared_distance(x, mean, square)
    &&& is_count(0usize, zero)
    &&& is_difference(zero, square, minus_square)
    &&& is_count(2usize, two)
    &&& is_product(two, variance, spread)
    &&& is_quotient(minus_square, spread, exponent)
    &&& is_exp(exponent, r)
}

/// `r` is the height of the normal density: one over the square root of
/// two times pi times the variance.
pub open spec fn is_height<S: Scalar>(variance: S, r: S) -> bool {
    exists|two: S, pi: S, two_pi: S, area: S, root: S, one: S|
        #![trigger height_from(variance, two, pi, two_pi, area, root, one, r)]
        height_from(variance, two, pi, two_pi, area, root, one, r)
}

/// The steps of `is_height`.
pub open spec fn height_from<S: Scalar>(
    variance: S,
    two: S,
    pi: S,
    two_pi: S,
    area: S,
    root: S,
    one: S,
    r: S,
) -> bool {
    &&& is_count(2usize, two)
    &&& is_pi(pi)
    &&& is_product(two, pi, two_pi)
    &&& is_product(two_pi, variance, area)
    &&& is_sqrt(area, root)
    &&& is_count(1usize, one)
    &&& is_quotient(one, root, r)
}

/// `r` is the density at `x` of the normal distribution with the given
/// mean and standard deviation: the height times the exponential factor,
/// both taken at the variance with which `std_dev` is evaluated.
pub open spec fn is_density<S: Scalar>(x: S, mean: S, std_dev: S, r: S) -> bool {
    exists|variance: S, bell: S, height: S|
        #![trigger is_bell(x, mean, variance, bell), is_height(variance, height)]
        is_variance(std_dev, variance) && is_bell(x, mean, variance, bell) && is_height(
            variance,
            height,
        ) && is_product(height, bell, r)
}

/// The variance with which a standard deviation of `std_dev` is evaluated.
fn variance_of<S: Scalar>(std_dev: S) -> (variance: S)
    ensures
        is_variance(std_dev, variance),
{
    let degenerate = is_zero(std_dev);
    let variance = if degenerate {
        small_number()
    } else {
        std_dev.times(std_dev)
    };
    variance
}

/// The exponential factor of the normal density at `x`.
fn bell<S: Scalar>(x: S, mean: S, variance: S) -> (factor: S)
    ensures
        is_bell(x, mean, variance, factor),
{
    let diff = x.minus(mean);
    let square = diff.times(diff);
    assert(is_difference(x, mean, diff));
    let zero = S::from_count(0);
    let minus_square = zero.minus(square);
    let two = S::from_count(2);
    let spread = two.times(variance);
    let exponent = minus_square.over(spread);
    let factor = exponent.exp();
    assert(bell_from(x, mean, variance, square, zero, minus_square, two, spread, exponent, factor));
    factor
}

/// The height of the normal density with the given variance.
fn height<S: Scalar>(variance: S) -> (top: S)
    ensures
        is_height(variance, top),
{
    let two = S::from_count(2);
    let pi = S::from_bits(PI);
    assert(is_pi(pi));
    let two_pi = two.times(pi);
    let area = two_pi.times(variance);
    let root = area.sqrt();
    let one = S::from_count(1);
    let top = one.over(root);
    assert(height_from(variance, two, pi, two_pi, area, root, one, top));
    top
}

/// The density at `x` of the normal distribution with the given mean and
/// standard deviation. A standard deviation of zero is evaluated with a
/// variance of one billionth, so that the density stays finite.
pub fn calculate_probability<S: Scalar>(x: S, mean: S, std_dev: S) -> (density: S)
    ensures
        is_density(x, mean, std_dev, density),
{
    let variance = variance_of(std_dev);
    let factor = bell(x, mean, variance);
    let top = height(variance);
    top.times(factor)
}

/// `r` is the share of `count` in `rows`: the one over the other.
pub open spec fn is_share<S: Scalar>(count: usize, rows: usize, r: S) -> bool {
    exists|part: S, whole: S|
        #![trigger is_quotient(part, whole, r)]
        is_count(count, part) && is_count(rows, whole) && is_quotient(part, whole, r)
}

/// `probabilities` holds, for each of `uniq_classes`, the share of
/// `all_classes` that equal it.
pub open spec fn is_class_probability<S: Scalar>(
    uniq_classes: Seq<Seq<char>>,
    all_classes: Seq<Seq<char>>,
    probabilities: Seq<S>,
) -> bool {
    &&& probabilities.len() == uniq_classes.len()
    &&& forall|k: int|
        0 <= k < uniq_classes.len() ==> is_share(
            occurrences(all_classes, uniq_classes[k]) as usize,
            all_classes.len() as usize,
            #[trigger] probabilities[k],
        )
}

/// For each of `uniq_classes`, the share of `all_classes` that equal it.
pub fn calculate_class_probability<S: Scalar>(
    uniq_classes: &Vec<String>,
    all_classes: &Vec<String>,
) -> (class_probability: Vec<S>)
    ensures
        is_class_probability(
            uniq_classes.deep_view(),
            all_classes.deep_view(),
            class_probability@,
        ),
{
    let counts = label_counts(uniq_classes, all_classes);
    let total = S::from_count(all_classes.len());
    let mut class_probability: Vec<S> = Vec::new();
    let mut k: usize = 0;
    while k < counts.len()
        invariant
            k <= counts.len(),
            counts.len() == uniq_classes.len(),
            class_probability.len() == k,
            is_count(all_classes.len(), total),
            forall|j: int|
                0 <= j < uniq_classes.len() ==> counts[j] == occurrences(
                    all_classes.deep_view(),
                    #[trigger] uniq_classes.deep_view()[j],
                ),
            forall|j: int|
                0 <= j < k ==> is_share(
                    occurrences(all_classes.deep_view(), uniq_classes.deep_view()[j]) as usize,
                    all_classes.len(),
                    #[trigger] class_probability[j],
                ),
        decreases counts.len() - k,
    {
        let part = S::from_count(counts[k]);
        let share = part.over(total);
        proof {
            assert(counts[k as int] == occurrences(
                all_classes.deep_view(),
                uniq_classes.deep_view()[k as int],
            ));
            assert(is_quotient(part, total, share));
        }
        class_probability.push(share);
        k += 1;
    }
    class_probability
}

/// `r` is zero with the values of feature `feature` added to it, over
/// those of the first `upto` rows that carry the label `class`, from the
/// first.
pub open spec fn is_feature_total<S: Scalar>(
    rows: Seq<Vec<S>>,
    labels: Seq<Seq<char>>,
    class: Seq<char>,
    feature: int,
    upto: nat,
    r: S,
) -> bool
    decreases upto,
{
    if upto == 0 {
        is_count(0usize, r)
    } else if labels[upto - 1] == class {
        exists|earlier: S|
            #![trigger is_sum(earlier, rows[upto - 1][feature], r)]
            is_feature_total(rows, labels, class, feature, (upto - 1) as nat, earlier) && is_sum(
                earlier,
                rows[upto - 1][feature],
                r,
            )
    } else {
        is_feature_total(rows, labels, class, feature, (upto - 1) as nat, r)
    }
}

/// `r` is zero with all the values added to it of those of the first `upto`
/// rows that carry the label `class`, row after row and within a row from
/// the first feature.
pub open spec fn is_class_total<S: Scalar>(
    rows: Seq<Vec<S>>,
    labels: Seq<Seq<char>>,
    class: Seq<char>,
    upto: nat,
    r: S,
) -> bool
    decreases upto,
{
    if upto == 0 {
        is_count(0usize, r)
    } else if labels[upto - 1] == class {
        exists|earlier: S|
            #![trigger is_total(earlier, rows[upto - 1]@, r)]
            is_class_total(rows, labels, class, (upto - 1) as nat, earlier) && is_total(
                earlier,
                rows[upto - 1]@,
                r,
            )
    } else {
        is_class_total(rows, labels, class, (upto - 1) as nat, r)
    }
}

/// `r` is the divisor of the smoothed probabilities of a class: the total
/// of its values plus `alpha` times the number of features.
pub open spec fn is_divisor<S: Scalar>(total: S, alpha: S, width: usize, r: S) -> bool {
    exists|features: S, smoothing: S|
        #![trigger is_product(alpha, features, smoothing)]
        is_count(width, features) && is_product(alpha, features, smoothing) && is_sum(
            total,
            smoothing,
            r,
        )
}

/// `r` is the smoothed probability of a feature whose values add up to
/// `feature_total`: that total plus `alpha`, over `divisor`. Where the
/// divisor was found to be zero (`undefined`), it is zero.
pub open spec fn is_smoothed<S: Scalar>(
    feature_total: S,
    alpha: S,
    divisor: S,
    undefined: bool,
    r: S,
) -> bool {
    if undefined {
        is_count(0usize, r)
    } else {
        exists|raised: S|
            #![trigger is_sum(feature_total, alpha, raised)]
            is_sum(feature_total, alpha, raised) && is_quotient(raised, divisor, r)
    }
}

/// The steps of `is_smoothing`.
pub open spec fn smoothing_from<S: Scalar>(
    rows: Seq<Vec<S>>,
    labels: Seq<Seq<char>>,
    class: Seq<char>,
    width: usize,
    alpha: S,
    total: S,
    divisor: S,
    undefined: bool,
    feature_totals: Seq<S>,
    probabilities: Seq<S>,
) -> bool {
    &&& is_class_total(rows, labels, class, rows.len(), total)
    &&& is_divisor(total, alpha, width, divisor)
    &&& tells_zero(divisor, undefined)
    &&& feature_totals.len() == width
    &&& probabilities.len() == width
    &&& forall|j: int|
        #![trigger feature_totals[j]]
        #![trigger probabilities[j]]
        0 <= j < width ==> is_feature_total(rows, labels, class, j, rows.len(), feature_totals[j])
            && is_smoothed(feature_totals[j], alpha, divisor, undefined, probabilities[j])
}

/// `probabilities` holds the smoothed probability of each of `width`
/// features in the class `class`: the feature's values added up over the
/// rows of the class, plus `alpha`, over the total of all values of the
/// class plus `alpha` times `width`.
pub open spec fn is_smoothing<S: Scalar>(
    rows: Seq<Vec<S>>,
    labels: Seq<Seq<char>>,
    class: Seq<char>,
    width: usize,
    alpha: S,
    probabilities: Seq<S>,
) -> bool {
    exists|total: S, divisor: S, undefined: bool, feature_totals: Seq<S>|
        #![trigger smoothing_from(rows, labels, class, width, alpha, total, divisor, undefined, feature_totals, probabilities)]
        smoothing_from(
            rows,
            labels,
            class,
            width,
            alpha,
            total,
            divisor,
            undefined,
            feature_totals,
            probabilities,
        )
}

/// The smoothed probability of each of `width` features in the class
/// `class`.
pub(crate) fn smoothed_probabilities<S: Scalar>(
    x: &Vec<Vec<S>>,
    y: &Vec<String>,
    class: &String,
    width: usize,
    alpha: S,
) -> (probabilities: Vec<S>)
    requires
        x.len() == y.len(),
        all_width(x@, width as nat),
    ensures
        probabilities.len() == width,
        is_smoothing(x@, y.deep_view(), class@, width, alpha, probabilities@),
{
    let ghost labels = y.deep_view();
    let mut sums: Vec<S> = Vec::new();
    let mut j: usize = 0;
    while j < width
        invariant
            j <= width,
            sums.len() == j,
            forall|f: int| 0 <= f < j ==> is_count(0usize, #[trigger] sums@[f]),
        decreases width - j,
    {
        sums.push(S::from_count(0));
        j += 1;
    }
    let mut total = S::from_count(0);
    let mut i: usize = 0;
    while i < y.len()
        invariant
            i <= y.len(),
            x.len() == y.len(),
            labels == y.deep_view(),
            all_width(x@, width as nat),
            sums.len() == width,
            forall|f: int|
                0 <= f < width ==> is_feature_total(x@, labels, class@, f, i as nat, #[trigger] sums@[f]),
            is_class_total(x@, labels, class@, i as nat, total),
        decreases y.len() - i,
    {
        assert(labels[i as int] == y@[i as int]@);
        if y[i] == *class {
            let row = &x[i];
            assert(x@[i as int].len() == width);
            let ghost sums_before = sums@;
            let ghost total_before = total;
            let mut j: usize = 0;
            assert(row@.take(0) =~= Seq::empty());
            while j < width
                invariant
                    j <= width,
                    i < y.len(),
                    x.len() == y.len(),
                    row == x@[i as int],
                    row.len() == width,
                    labels[i as int] == class@,
                    sums.len() == width,
                    sums_before.len() == width,
                    forall|f: int|
                        0 <= f < j ==> is_feature_total(
                            x@,
                            labels,
                            class@,
                            f,
                            (i + 1) as nat,
                            #[trigger] sums@[f],
                        ),
                    forall|f: int| j <= f < width ==> #[trigger] sums@[f] == sums_before[f],
                    forall|f: int|
                        0 <= f < width ==> is_feature_total(
                            x@,
                            labels,
                            class@,
                            f,
                            i as nat,
                            #[trigger] sums_before[f],
                        ),
                    is_total(total_before, row@.take(j as int), total),
                decreases width - j,
            {
                let value = row[j];
                let ghost feature_before = sums@[j as int];
                let ghost running = total;
                let raised = sums[j].plus(value);
                sums.set(j, raised);
                total = total.plus(value);
                proof {
                    assert(feature_before == sums_before[j as int]);
                    assert(is_sum(feature_before, x@[i as int][j as int], raised));
                    assert(is_feature_total(x@, labels, class@, j as int, (i + 1) as nat, raised));
                    let next = row@.take(j + 1);
                    assert(next.drop_last() =~= row@.take(j as int));
                    assert(is_sum(running, next.last(), total));
                    assert(is_total(total_before, next, total));
                }
                j += 1;
            }
            proof {
                assert(row@.take(width as int) =~= row@);
                assert(is_total(total_before, x@[i as int]@, total));
                assert(is_class_total(x@, labels, class@, (i + 1) as nat, total));
            }
        } else {
            proof {
                assert forall|f: int| 0 <= f < width implies is_feature_total(
                    x@,
                    labels,
                    class@,
                    f,
                    (i + 1) as nat,
                    #[trigger] sums@[f],
                ) by {
                    assert(is_feature_total(x@, labels, class@, f, i as nat, sums@[f]));
                }
                assert(is_class_total(x@, labels, class@, (i + 1) as nat, total));
            }
        }
        i += 1;
    }
    let features = S::from_count(width);
    let smoothing = alpha.times(features);
    let divisor = total.plus(smoothing);
    assert(is_product(alpha, features, smoothing));
    let undefined: bool = is_zero(divisor);
    let ghost feature_totals = sums@;
    let mut j: usize = 0;
    while j < width
        invariant
            j <= width,
            sums.len() == width,
            feature_totals.len() == width,
            forall|f: int|
                0 <= f < j ==> is_smoothed(
                    feature_totals[f],
                    alpha,
                    divisor,
                    undefined,
                    #[trigger] sums@[f],
                ),
            forall|f: int| j <= f < width ==> #[trigger] sums@[f] == feature_totals[f],
        decreases width - j,
    {
        let ghost feature_total = sums@[j as int];
        if undefined {
            sums.set(j, S::from_count(0));
        } else {
            let raised = sums[j].plus(alpha);
            sums.set(j, raised.over(divisor));
            assert(is_sum(feature_total, alpha, raised));
        }
        assert(is_smoothed(feature_totals[j as int], alpha, divisor, undefined, sums@[j as int]));
        j += 1;
    }
    assert(smoothing_from(
        x@,
        labels,
        class@,
        width,
        alpha,
        total,
        divisor,
        undefined,
        feature_totals,
        sums@,
    ));
    sums
}

/// The values of feature `feature` in the rows `members`, in that order.
pub open spec fn column<S>(rows: Seq<Vec<S>>, members: Seq<int>, feature: int) -> Seq<S> {
    Seq::new(members.len(), |t: int| rows[members[t]][feature])
}

/// `statistics` holds, for each of `width` features, the mean and the
/// population standard deviation of the feature over the rows `members`.
pub open spec fn is_statistics<S: Scalar>(
    rows: Seq<Vec<S>>,
    members: Seq<int>,
    width: nat,
    statistics: Seq<(S, S)>,
) -> bool {
    &&& statistics.len() == width
    &&& forall|j: int|
        0 <= j < width ==> is_mean(column(rows, members, j), (#[trigger] statistics[j]).0)
            && is_std_dev(column(rows, members, j), statistics[j].0, statistics[j].1)
}

/// For each of `width` features, the mean and the population standard
/// deviation of its values over the rows `members` of `x`.
fn class_statistics<S: Scalar>(x: &Vec<Vec<S>>, members: &Vec<usize>, width: usize) -> (statistics:
    Vec<(S, S)>)
    requires
        all_width(x@, width as nat),
        forall|t: int| 0 <= t < members.len() ==> (#[trigger] members[t]) < x.len(),
    ensures
        is_statistics(x@, members@.map_values(|r: usize| r as int), width as nat, statistics@),
{
    let ghost places = members@.map_values(|r: usize| r as int);
    let mut statistics: Vec<(S, S)> = Vec::new();
    let mut j: usize = 0;
    while j < width
        invariant
            j <= width,
            places == members@.map_values(|r: usize| r as int),
            all_width(x@, width as nat),
            forall|t: int| 0 <= t < members.len() ==> (#[trigger] members[t]) < x.len(),
            is_statistics(x@, places, j as nat, statistics@),
        decreases width - j,
    {
        let mut feature_values: Vec<S> = Vec::new();
        let mut t: usize = 0;
        while t < members.len()
            invariant
                t <= members.len(),
                j < width,
                places == members@.map_values(|r: usize| r as int),
                all_width(x@, width as nat),
                forall|t: int| 0 <= t < members.len() ==> (#[trigger] members[t]) < x.len(),
                feature_values@ == column(x@, places, j as int).take(t as int),
            decreases members.len() - t,
        {
            let row = &x[members[t]];
            assert(x@[members[t as int] as int].len() == width);
            feature_values.push(row[j]);
            assert(feature_values@ =~= column(x@, places, j as int).take(t + 1));
            t += 1;
        }
        assert(feature_values@ =~= column(x@, places, j as int));
        let mean = calculate_mean(&feature_values);
        let std_dev = calculate_std_dev(&feature_values, mean);
        let ghost before = statistics@;
        statistics.push((mean, std_dev));
        assert forall|f: int| 0 <= f < j + 1 implies is_mean(
            column(x@, places, f),
            (#[trigger] statistics@[f]).0,
        ) && is_std_dev(column(x@, places, f), statistics@[f].0, statistics@[f].1) by {
            if f < j {
                assert(statistics@[f] == before[f]);
            }
        }
        j += 1;
    }
    statistics
}

/// The width of the first row, and zero where there is no row.
pub open spec fn first_width<T>(rows: Seq<Vec<T>>) -> nat {
    if rows.len() == 0 {
        0
    } else {
        rows[0].len() as nat
    }
}

/// The labels under which `entries` stand, in order.
pub open spec fn entry_labels<T>(entries: Seq<(String, Vec<T>)>) -> Seq<Seq<char>> {
    entries.map_values(|entry: (String, Vec<T>)| entry.0@)
}

/// `entries` holds, for each of `uniq_classes` that labels a row, the
/// class and for each feature the mean and the population standard
/// deviation of the feature over the rows of the class. It is empty where
/// rows and labels differ in number, and where the rows have no features.
pub open spec fn is_feature_probability<S: Scalar>(
    rows: Seq<Vec<S>>,
    labels: Seq<Seq<char>>,
    uniq_classes: Seq<Seq<char>>,
    entries: Seq<(String, Vec<(S, S)>)>,
) -> bool {
    &&& entry_labels(entries) == if rows.len() == labels.len() && first_width(rows) > 0 {
        present(uniq_classes, labels)
    } else {
        Seq::empty()
    }
    &&& forall|t: int|
        0 <= t < entries.len() ==> is_statistics(
            rows,
            positions(labels, (#[trigger] entries[t]).0@),
            first_width(rows),
            entries[t].1@,
        )
}

/// For each of `uniq_classes` that labels a row, and for each feature, the
/// mean and the population standard deviation of the feature over the rows
/// of the class.
///
/// The result is empty where `x` and `y` differ in length, and where the
/// rows have no features. A class without rows gets no entry.
pub fn calculate_feature_probability<S: Scalar>(
    x: &Vec<Vec<S>>,
    y: &Vec<String>,
    uniq_classes: &Vec<String>,
) -> (feature_probability: Vec<(String, Vec<(S, S)>)>)
    requires
        all_width(x@, first_width(x@)),
    ensures
        is_feature_probability(
            x@,
            y.deep_view(),
            uniq_classes.deep_view(),
            feature_probability@,
        ),
{
    let mut feature_probability: Vec<(String, Vec<(S, S)>)> = Vec::new();
    assert(entry_labels(feature_probability@) =~= Seq::empty());
    if x.len() != y.len() || x.len() == 0 {
        return feature_probability;
    }
    let width: usize = x[0].len();
    if width == 0 {
        return feature_probability;
    }
    let mut k: usize = 0;
    assert(uniq_classes.deep_view().take(0) =~= Seq::empty());
    while k < uniq_classes.len()
        invariant
            k <= uniq_classes.len(),
            x.len() == y.len(),
            width == first_width(x@),
            all_width(x@, width as nat),
            entry_labels(feature_probability@) == present(
                uniq_classes.deep_view().take(k as int),
                y.deep_view(),
            ),
            forall|t: int|
                0 <= t < feature_probability.len() ==> is_statistics(
                    x@,
                    positions(y.deep_view(), (#[trigger] feature_probability@[t]).0@),
                    width as nat,
                    feature_probability@[t].1@,
                ),
        decreases uniq_classes.len() - k,
    {
        let class = &uniq_classes[k];
        let members = rows_with_label(y, class);
        proof {
            let seen = uniq_classes.deep_view().take(k as int);
            let next = uniq_classes.deep_view().take(k + 1);
            assert(next.drop_last() =~= seen);
            assert(next.last() == class@);
            lemma_positions(y.deep_view(), class@);
            lemma_occurrences_contains(y.deep_view(), class@);
            assert(members.len() == positions(y.deep_view(), class@).len());
            assert forall|t: int| 0 <= t < members.len() implies (#[trigger] members[t])
                < x.len() by {
                assert(members@.map_values(|r: usize| r as int)[t] == members[t] as int);
            }
        }
        if members.len() > 0 {
            let ghost before = feature_probability@;
            let statistics = class_statistics(x, &members, width);
            feature_probability.push((class.clone(), statistics));
            proof {
                assert(entry_labels(feature_probability@) =~= entry_labels(before).push(class@));
                assert forall|t: int| 0 <= t < feature_probability.len() implies is_statistics(
                    x@,
                    positions(y.deep_view(), (#[trigger] feature_probability@[t]).0@),
                    width as nat,
                    feature_probability@[t].1@,
                ) by {
                    if t < before.len() {
                        assert(feature_probability@[t] == before[t]);
                    }
                }
            }
        }
        k += 1;
    }
    assert(uniq_classes.deep_view().take(uniq_classes.len() as int) =~= uniq_classes.deep_view());
    feature_probability
}

} // verus!
