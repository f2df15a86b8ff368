use ducky_learn::error::NaiveBayesError;
use ducky_learn::estimate::{
    calculate_class_probability, calculate_feature_probability, calculate_mean,
    calculate_probability, calculate_std_dev, small_number,
};
use ducky_learn::feature_extraction::{counts_as_numbers, CountVectorizer};
use ducky_learn::labels::class_index;
use ducky_learn::naive_bayes::{pick_label, ranks_of, GaussianNaiveBayes, StdNaiveBayes};
use ducky_learn::scalar::Scalar;

/// Double-precision floats as the classifiers' number type.
#[derive(Clone, Copy, Debug, PartialEq)]
struct F(f64);

impl Scalar for F {
    fn from_count(n: usize) -> Self {
        F(n as f64)
    }

    fn from_bits(bits: u64) -> Self {
        F(f64::from_bits(bits))
    }

    fn plus(self, rhs: Self) -> Self {
        F(self.0 + rhs.0)
    }

    fn minus(self, rhs: Self) -> Self {
        F(self.0 - rhs.0)
    }

    fn times(self, rhs: Self) -> Self {
        F(self.0 * rhs.0)
    }

    fn over(self, rhs: Self) -> Self {
        F(self.0 / rhs.0)
    }

    fn ln(self) -> Self {
        F(self.0.ln())
    }

    fn exp(self) -> Self {
        F(self.0.exp())
    }

    fn sqrt(self) -> Self {
        F(self.0.sqrt())
    }

    fn bits(self) -> u64 {
        self.0.to_bits()
    }
}

fn matrix(rows: Vec<Vec<f64>>) -> Vec<Vec<F>> {
    rows.into_iter().map(|row| row.into_iter().map(F).collect()).collect()
}

fn column(values: Vec<f64>) -> Vec<F> {
    values.into_iter().map(F).collect()
}

fn labels(names: &[&str]) -> Vec<String> {
    names.iter().map(|name| name.to_string()).collect()
}

fn prior(classes: &Vec<String>, priors: &Vec<F>, label: &str) -> Option<f64> {
    class_index(classes, &label.to_string()).map(|k| priors[k].0)
}

fn entry<'a>(entries: &'a Vec<(String, Vec<(F, F)>)>, label: &str) -> Option<&'a Vec<(F, F)>> {
    entries.iter().find(|(name, _)| name == label).map(|(_, statistics)| statistics)
}

#[test]
fn test_calculate_class_probability() {
    let uniq_classes = labels(&["class1", "class2", "class3"]);
    let all_classes = labels(&["class1", "class2", "class2", "class3", "class3", "class3"]);
    let probabilities: Vec<F> = calculate_class_probability(&uniq_classes, &all_classes);

    assert!(probabilities[0].0 - (1.0 / 6.0) < f64::EPSILON);
    assert!(probabilities[1].0 - (2.0 / 6.0) < f64::EPSILON);
    assert!(probabilities[2].0 - (3.0 / 6.0) < f64::EPSILON);
    assert_eq!(probabilities[0].0, 1.0 / 6.0);
    assert_eq!(probabilities[1].0, 2.0 / 6.0);
    assert_eq!(probabilities[2].0, 3.0 / 6.0);
}

#[test]
fn test_calculate_class_probability_sum_to_one() {
    let uniq_classes = labels(&["class1", "class2", "class3"]);
    let all_classes = labels(&["class1", "class2", "class2", "class3", "class3", "class3"]);
    let probabilities: Vec<F> = calculate_class_probability(&uniq_classes, &all_classes);

    let sum: f64 = probabilities.iter().map(|p| p.0).sum();

    assert!(1.0 - sum < f64::EPSILON);
    assert!((1.0 - sum).abs() < 1e-9);
}

#[test]
fn test_calculate_feature_probability() {
    let uniq_classes = labels(&["class1", "class2"]);
    let y = labels(&["class1", "class2", "class1", "class2"]);
    let x = matrix(vec![vec![1.0, 2.0], vec![2.0, 2.0], vec![2.0, 3.0], vec![3.0, 3.0]]);

    let feature_probabilities = calculate_feature_probability(&x, &y, &uniq_classes);

    let class1_probabilities = entry(&feature_probabilities, "class1").unwrap();
    assert!((class1_probabilities[0].0 .0 - 1.5).abs() < f64::EPSILON);
    assert!((class1_probabilities[0].1 .0 - 0.5).abs() < f64::EPSILON);
    assert!((class1_probabilities[1].0 .0 - 2.5).abs() < f64::EPSILON);
    assert!((class1_probabilities[1].1 .0 - 0.5).abs() < f64::EPSILON);

    let class2_probabilities = entry(&feature_probabilities, "class2").unwrap();
    assert!((class2_probabilities[0].0 .0 - 2.5).abs() < f64::EPSILON);
    assert!((class2_probabilities[0].1 .0 - 0.5).abs() < f64::EPSILON);
    assert!((class2_probabilities[1].0 .0 - 2.5).abs() < f64::EPSILON);
    assert!((class2_probabilities[1].1 .0 - 0.5).abs() < f64::EPSILON);
}

#[test]
fn test_calculate_feature_probability_no_data() {
    let uniq_classes = labels(&["class1", "class2"]);
    let y: Vec<String> = vec![];
    let x: Vec<Vec<F>> = vec![];

    let feature_probabilities = calculate_feature_probability(&x, &y, &uniq_classes);

    assert!(feature_probabilities.is_empty());
}

#[test]
fn test_calculate_feature_probability_same_feature_values() {
    let uniq_classes = labels(&["class1", "class2"]);
    let y = labels(&["class1", "class1", "class2", "class2"]);
    let x = matrix(vec![vec![2.0, 2.0], vec![2.0, 2.0], vec![2.0, 2.0], vec![2.0, 2.0]]);

    let feature_probabilities = calculate_feature_probability(&x, &y, &uniq_classes);

    let class1_probabilities = entry(&feature_probabilities, "class1").unwrap();
    assert!((class1_probabilities[0].0 .0 - 2.0).abs() < f64::EPSILON);
    assert!((class1_probabilities[0].1 .0 - 0.0).abs() < f64::EPSILON);
    assert!((class1_probabilities[1].0 .0 - 2.0).abs() < f64::EPSILON);
    assert!((class1_probabilities[1].1 .0 - 0.0).abs() < f64::EPSILON);

    let class2_probabilities = entry(&feature_probabilities, "class2").unwrap();
    assert!((class2_probabilities[0].0 .0 - 2.0).abs() < f64::EPSILON);
    assert!((class2_probabilities[0].1 .0 - 0.0).abs() < f64::EPSILON);
    assert!((class2_probabilities[1].0 .0 - 2.0).abs() < f64::EPSILON);
    assert!((class2_probabilities[1].1 .0 - 0.0).abs() < f64::EPSILON);
}

#[test]
fn test_calculate_feature_probability_mismatched_lengths() {
    let uniq_classes = labels(&["class1", "class2"]);
    let y = labels(&["class1", "class2"]);
    let x: Vec<Vec<F>> = vec![];

    let feature_probabilities = calculate_feature_probability(&x, &y, &uniq_classes);

    assert!(feature_probabilities.is_empty());
}

#[test]
fn test_calculate_mean() {
    let data = column(vec![1.0, 2.0, 3.0, 4.0, 5.0]);
    assert_eq!(calculate_mean(&data).0, 3.0);
}

#[test]
fn test_calculate_std_dev() {
    let data = column(vec![1.0, 2.0, 3.0, 4.0, 5.0]);
    let mean = calculate_mean(&data);
    assert_eq!((calculate_std_dev(&data, mean).0 - 1.414213).abs() < 0.00001, true);
}

#[test]
fn test_calculate_probability() {
    let x = F(2.0);
    let mean = F(2.0);
    let std_dev = F(1.0);
    assert_eq!((calculate_probability(x, mean, std_dev).0 - 0.398942).abs() < 0.00001, true);
}

#[test]
fn test_fit_std() {
    let model = StdNaiveBayes::new(F(1.0));

    let x = matrix(vec![vec![1.0, 2.0, 3.0], vec![2.0, 3.0, 1.0], vec![3.0, 1.0, 2.0]]);
    let y = labels(&["class1", "class2", "class1"]);

    let model = model.fit(&x, &y).unwrap();

    let classes = model.classes();
    let priors = model.probability_of_class();
    assert!((prior(classes, priors, "class1").unwrap() - 2.0 / 3.0).abs() < 1e-9);
    assert!((prior(classes, priors, "class2").unwrap() - 1.0 / 3.0).abs() < 1e-9);
}

#[test]
fn test_predict_std() {
    let model = StdNaiveBayes::new(F(1.0));

    let x = matrix(vec![
        vec![1.0, 2.0, 3.0, 1.0, 2.0],
        vec![2.0, 3.0, 4.0, 2.0, 3.0],
        vec![4.0, 4.0, 5.0, 4.0, 4.0],
        vec![5.0, 5.0, 6.0, 5.0, 5.0],
        vec![1.0, 1.0, 1.0, 1.0, 1.0],
    ]);
    let y = labels(&["class1", "class1", "class2", "class2", "class1"]);

    let model = model.fit(&x, &y).unwrap();

    let x_test = matrix(vec![vec![1.5, 2.5, 3.5, 1.5, 2.5], vec![5.5, 4.5, 5.5, 4.5, 4.5]]);

    let predictions = model.predict(&x_test).unwrap();

    assert_eq!(predictions, vec!["class1", "class2"]);
}

#[test]
fn test_new_gaus() {
    let model: GaussianNaiveBayes<F> = GaussianNaiveBayes::new();

    assert_eq!(model.classes().len(), 0);
    assert_eq!(model.probability_of_class().len(), 0);
    assert_eq!(model.probability_of_feat_by_class().len(), 0);
}

#[test]
fn test_fit_gaus() {
    let model: GaussianNaiveBayes<F> = GaussianNaiveBayes::new();
    let x = matrix(vec![vec![2.0, 1.0], vec![3.0, 2.0], vec![2.5, 1.5], vec![4.0, 3.0]]);
    let y = labels(&["class1", "class1", "class2", "class2"]);
    let model = model.fit(&x, &y).unwrap();

    assert_eq!(model.classes().len(), 2);
    assert!(model.classes().contains(&"class1".to_string()));
    assert!(model.classes().contains(&"class2".to_string()));

    assert_eq!(model.probability_of_class().len(), 2);
    assert!(prior(model.classes(), model.probability_of_class(), "class1").is_some());
    assert!(prior(model.classes(), model.probability_of_class(), "class2").is_some());

    assert_eq!(model.probability_of_feat_by_class().len(), 2);
    assert!(entry(model.probability_of_feat_by_class(), "class1").is_some());
    assert!(entry(model.probability_of_feat_by_class(), "class2").is_some());
}

#[test]
fn test_predict_gaus() {
    let model: GaussianNaiveBayes<F> = GaussianNaiveBayes::new();
    let x = matrix(vec![vec![2.0, 1.0], vec![3.0, 2.0], vec![2.5, 1.5], vec![4.0, 3.0]]);
    let y = labels(&["class1", "class1", "class2", "class2"]);
    let model = model.fit(&x, &y).unwrap();

    let x_test = matrix(vec![vec![2.0, 1.0], vec![4.0, 3.0]]);

    let predictions = model.predict(&x_test).unwrap();
    assert_eq!(predictions.len(), x_test.len());
    assert_eq!(predictions[0], "class1");
    assert_eq!(predictions[1], "class2");
}

#[test]
fn small_number_is_one_billionth() {
    let floor: F = small_number();
    assert_eq!(floor.0, 1e-9);
    assert_eq!(floor.0, 1.0 / 1_000_000_000.0);
}

#[test]
fn pick_label_takes_the_earliest_of_equal_ranks() {
    let classes = labels(&["b", "a", "c"]);
    assert_eq!(pick_label(&classes, &vec![3, 7, 7]), Some("a".to_string()));
    assert_eq!(pick_label(&classes, &vec![7, 7, 7]), Some("b".to_string()));
    assert_eq!(pick_label(&classes, &vec![-1, -2, 0]), Some("c".to_string()));
    assert_eq!(pick_label(&classes, &vec![1, 2]), None);
    assert_eq!(pick_label(&vec![], &vec![]), None);
}

#[test]
fn ranks_follow_the_order_of_the_scores() {
    let scores = column(vec![
        -1.5,
        0.0,
        -0.0,
        2.0,
        f64::NEG_INFINITY,
        -1e-300,
        1e-300,
        f64::INFINITY,
    ]);
    let ranks = ranks_of(&scores);
    assert_eq!(ranks.len(), scores.len());
    for a in 0..scores.len() {
        for b in 0..scores.len() {
            assert_eq!(scores[a].0 < scores[b].0, ranks[a] < ranks[b]);
            assert_eq!(scores[a].0 == scores[b].0, ranks[a] == ranks[b]);
        }
    }
    let with_nan = ranks_of(&column(vec![f64::NAN, f64::NEG_INFINITY]));
    assert!(with_nan[0] < with_nan[1]);
}

#[test]
fn a_score_that_is_not_a_number_never_wins() {
    let classes = labels(&["broken", "sound"]);
    let ranks = ranks_of(&column(vec![f64::NAN, -1e308]));
    assert_eq!(pick_label(&classes, &ranks), Some("sound".to_string()));
    let ranks = ranks_of(&column(vec![f64::NAN, f64::NEG_INFINITY]));
    assert_eq!(pick_label(&classes, &ranks), Some("sound".to_string()));
    let ranks = ranks_of(&column(vec![f64::NAN, f64::NAN]));
    assert_eq!(pick_label(&classes, &ranks), Some("broken".to_string()));
}

#[test]
fn fit_refuses_a_negative_smoothing_constant() {
    let x = matrix(vec![vec![1.0]]);
    let y = labels(&["a"]);
    let fitted = StdNaiveBayes::new(F(-0.5)).fit(&x, &y);
    assert_eq!(fitted.err(), Some(NaiveBayesError::InvalidSmoothing));
}

#[test]
fn multinomial_scenario_predicts_the_nearer_cluster() {
    let x = matrix(vec![
        vec![1.0, 2.0, 3.0, 1.0, 2.0],
        vec![2.0, 3.0, 4.0, 2.0, 3.0],
        vec![4.0, 4.0, 5.0, 4.0, 4.0],
        vec![5.0, 5.0, 6.0, 5.0, 5.0],
        vec![1.0, 1.0, 1.0, 1.0, 1.0],
    ]);
    let y = labels(&["c1", "c1", "c2", "c2", "c1"]);
    let model = StdNaiveBayes::new(F(1.0)).fit(&x, &y).unwrap();
    assert_eq!(*model.classes(), labels(&["c1", "c2"]));
    assert_eq!(*model.probability_of_class(), vec![F(3.0 / 5.0), F(2.0 / 5.0)]);
    let x_test = matrix(vec![vec![1.5, 2.5, 3.5, 1.5, 2.5], vec![5.5, 4.5, 5.5, 4.5, 4.5]]);
    assert_eq!(model.predict(&x_test), Ok(labels(&["c1", "c2"])));
}

#[test]
fn multinomial_prediction_follows_the_scores() {
    let x = matrix(vec![
        vec![1.0, 2.0, 3.0, 1.0, 2.0],
        vec![2.0, 3.0, 4.0, 2.0, 3.0],
        vec![4.0, 4.0, 5.0, 4.0, 4.0],
        vec![5.0, 5.0, 6.0, 5.0, 5.0],
        vec![1.0, 1.0, 1.0, 1.0, 1.0],
    ]);
    let y = labels(&["c1", "c1", "c2", "c2", "c1"]);
    let model = StdNaiveBayes::new(F(1.0)).fit(&x, &y).unwrap();
    let probabilities = model.probability_of_feat_by_class();
    assert_eq!(
        probabilities[0],
        vec![F(5.0 / 33.0), F(7.0 / 33.0), F(9.0 / 33.0), F(5.0 / 33.0), F(7.0 / 33.0)]
    );
    assert_eq!(
        probabilities[1],
        vec![F(10.0 / 52.0), F(10.0 / 52.0), F(12.0 / 52.0), F(10.0 / 52.0), F(10.0 / 52.0)]
    );
    let x_test = matrix(vec![
        vec![1.5, 2.5, 3.5, 1.5, 2.5],
        vec![4.5, 4.5, 5.5, 4.5, 4.5],
        vec![5.5, 4.5, 5.5, 4.5, 4.5],
        vec![9.0, 0.0, 0.0, 9.0, 0.0],
    ]);
    let predicted = model.predict(&x_test).unwrap();
    for (row, label) in x_test.iter().zip(&predicted) {
        let scores = model.log_scores(row).unwrap();
        let winner = if scores[1].0 > scores[0].0 { "c2" } else { "c1" };
        assert_eq!(label, winner);
    }
    assert_eq!(predicted[0], "c1");
    assert_eq!(predicted[2], "c2");
    assert_eq!(predicted[3], "c2");
}

#[test]
fn gaussian_scenario_fit_gives_means_and_deviations() {
    let x = matrix(vec![vec![1.0, 2.0], vec![2.0, 2.0], vec![2.0, 3.0], vec![3.0, 3.0]]);
    let y = labels(&["c1", "c2", "c1", "c2"]);
    let model = GaussianNaiveBayes::new().fit(&x, &y).unwrap();
    assert_eq!(*model.classes(), labels(&["c1", "c2"]));
    assert_eq!(*model.class_rows(), vec![2, 2]);
    assert_eq!(model.rows(), 4);
    assert_eq!(model.width(), 2);
    assert_eq!(*model.probability_of_class(), vec![F(0.5), F(0.5)]);
    let c1 = entry(model.probability_of_feat_by_class(), "c1").unwrap();
    assert_eq!(*c1, vec![(F(1.5), F(0.5)), (F(2.5), F(0.5))]);
    let c2 = entry(model.probability_of_feat_by_class(), "c2").unwrap();
    assert_eq!(*c2, vec![(F(2.5), F(0.5)), (F(2.5), F(0.5))]);
}

#[test]
fn gaussian_scenario_predicts() {
    let x = matrix(vec![vec![1.0, 2.0], vec![2.0, 2.0], vec![2.0, 3.0], vec![3.0, 3.0]]);
    let y = labels(&["c1", "c2", "c1", "c2"]);
    let model = GaussianNaiveBayes::new().fit(&x, &y).unwrap();
    let x_test = matrix(vec![vec![2.0, 1.0], vec![4.0, 3.0]]);
    assert_eq!(model.predict(&x_test), Ok(labels(&["c1", "c2"])));
}

#[test]
fn single_row_fits_to_a_single_class() {
    let x = matrix(vec![vec![3.0, 0.5, 7.0]]);
    let y = labels(&["only"]);

    let gaussian = GaussianNaiveBayes::new().fit(&x, &y).unwrap();
    assert_eq!(*gaussian.classes(), labels(&["only"]));
    assert_eq!(*gaussian.probability_of_class(), vec![F(1.0)]);
    let statistics = entry(gaussian.probability_of_feat_by_class(), "only").unwrap();
    assert_eq!(*statistics, vec![(F(3.0), F(0.0)), (F(0.5), F(0.0)), (F(7.0), F(0.0))]);
    assert_eq!(gaussian.predict(&x), Ok(labels(&["only"])));
    assert_eq!(gaussian.predict(&matrix(vec![vec![9.0, 9.0, 9.0]])), Ok(labels(&["only"])));

    let multinomial = StdNaiveBayes::new(F(1.0)).fit(&x, &y).unwrap();
    assert_eq!(*multinomial.classes(), labels(&["only"]));
    assert_eq!(*multinomial.class_rows(), vec![1]);
    assert_eq!(*multinomial.probability_of_class(), vec![F(1.0)]);
    assert_eq!(multinomial.predict(&x), Ok(labels(&["only"])));
}

#[test]
fn priors_add_up_to_one() {
    let x = matrix(vec![
        vec![1.0, 0.0],
        vec![0.0, 1.0],
        vec![2.0, 1.0],
        vec![1.0, 1.0],
        vec![0.0, 3.0],
        vec![5.0, 1.0],
        vec![1.0, 2.0],
    ]);
    let y = labels(&["a", "b", "c", "a", "b", "a", "d"]);
    let multinomial = StdNaiveBayes::new(F(0.5)).fit(&x, &y).unwrap();
    let sum: f64 = multinomial.probability_of_class().iter().map(|p| p.0).sum();
    assert!((sum - 1.0).abs() < 1e-9);
    assert_eq!(*multinomial.class_rows(), vec![3, 2, 1, 1]);
    assert_eq!(multinomial.class_rows().iter().sum::<usize>(), multinomial.rows());
    assert_eq!(
        *multinomial.probability_of_class(),
        vec![F(3.0 / 7.0), F(2.0 / 7.0), F(1.0 / 7.0), F(1.0 / 7.0)]
    );

    let gaussian = GaussianNaiveBayes::new().fit(&x, &y).unwrap();
    let sum: f64 = gaussian.probability_of_class().iter().map(|p| p.0).sum();
    assert!((sum - 1.0).abs() < 1e-9);
    assert_eq!(gaussian.class_rows().iter().sum::<usize>(), gaussian.rows());
}

#[test]
fn smoothed_probabilities_follow_the_formula() {
    let x = matrix(vec![vec![1.0, 2.0, 3.0], vec![2.0, 3.0, 1.0], vec![3.0, 1.0, 2.0]]);
    let y = labels(&["class1", "class2", "class1"]);
    let model = StdNaiveBayes::new(F(1.0)).fit(&x, &y).unwrap();
    assert_eq!(model.alpha(), F(1.0));
    assert_eq!(model.width(), 3);
    let probabilities = model.probability_of_feat_by_class();
    assert_eq!(probabilities[0], vec![F(5.0 / 15.0), F(4.0 / 15.0), F(6.0 / 15.0)]);
    assert_eq!(probabilities[1], vec![F(3.0 / 9.0), F(4.0 / 9.0), F(2.0 / 9.0)]);
    for class in probabilities {
        for probability in class {
            assert!(probability.0 > 0.0 && probability.0 < 1.0);
        }
        let sum: f64 = class.iter().map(|p| p.0).sum();
        assert!((sum - 1.0).abs() < 1e-9);
    }
}

#[test]
fn smoothed_probabilities_lie_strictly_between_zero_and_one() {
    let x = matrix(vec![
        vec![0.0, 0.0, 4.0],
        vec![0.0, 7.0, 0.0],
        vec![1.0, 0.0, 0.0],
        vec![0.0, 0.0, 0.0],
    ]);
    let y = labels(&["a", "b", "a", "c"]);
    for alpha in [1e-6, 0.5, 1.0, 10.0] {
        let model = StdNaiveBayes::new(F(alpha)).fit(&x, &y).unwrap();
        for class in model.probability_of_feat_by_class() {
            for probability in class {
                assert!(probability.0 > 0.0 && probability.0 < 1.0);
            }
        }
    }
}

#[test]
fn unsmoothed_class_without_mass_gets_zero_probabilities() {
    let x = matrix(vec![vec![0.0, 0.0], vec![1.0, 3.0]]);
    let y = labels(&["empty", "full"]);
    let model = StdNaiveBayes::new(F(0.0)).fit(&x, &y).unwrap();
    let probabilities = model.probability_of_feat_by_class();
    assert_eq!(probabilities[0], vec![F(0.0), F(0.0)]);
    assert_eq!(probabilities[1], vec![F(0.25), F(0.75)]);
    assert_eq!(model.predict(&matrix(vec![vec![1.0, 1.0]])), Ok(labels(&["full"])));
}

#[test]
fn multinomial_scores_follow_the_formula() {
    let x = matrix(vec![vec![1.0, 2.0, 3.0], vec![2.0, 3.0, 1.0], vec![3.0, 1.0, 2.0]]);
    let y = labels(&["class1", "class2", "class1"]);
    let model = StdNaiveBayes::new(F(1.0)).fit(&x, &y).unwrap();
    let row = column(vec![2.0, 0.0, 1.5]);
    let scores = model.log_scores(&row).unwrap();
    let first = (2.0f64 / 3.0 + 1e-9).ln()
        + 2.0 * (5.0f64 / 15.0 + 1e-9).ln()
        + 1.5 * (6.0f64 / 15.0 + 1e-9).ln();
    let second = (1.0f64 / 3.0 + 1e-9).ln()
        + 2.0 * (3.0f64 / 9.0 + 1e-9).ln()
        + 1.5 * (2.0f64 / 9.0 + 1e-9).ln();
    assert_eq!(scores, vec![F(first), F(second)]);
    assert_eq!(model.log_scores(&column(vec![1.0, 1.0, 1.0, 1.0])), None);
}

#[test]
fn multinomial_scores_skip_features_that_are_not_positive() {
    let x = matrix(vec![vec![1.0, 2.0], vec![3.0, 1.0]]);
    let y = labels(&["a", "b"]);
    let model = StdNaiveBayes::new(F(1.0)).fit(&x, &y).unwrap();
    let with_zero = model.log_scores(&column(vec![0.0, 2.0])).unwrap();
    let with_negative = model.log_scores(&column(vec![-3.0, 2.0])).unwrap();
    let narrow = model.log_scores(&column(vec![])).unwrap();
    assert_eq!(with_zero, with_negative);
    assert_eq!(with_zero[0], F((0.5f64 + 1e-9).ln() + 2.0 * (3.0f64 / 5.0 + 1e-9).ln()));
    assert_eq!(narrow, vec![F((0.5f64 + 1e-9).ln()), F((0.5f64 + 1e-9).ln())]);
}

#[test]
fn gaussian_scores_follow_the_formula() {
    let x = matrix(vec![vec![1.0, 2.0], vec![2.0, 2.0], vec![2.0, 3.0], vec![3.0, 3.0]]);
    let y = labels(&["c1", "c2", "c1", "c2"]);
    let model = GaussianNaiveBayes::new().fit(&x, &y).unwrap();
    let scores = model.log_scores(&column(vec![4.0, 3.0])).unwrap();
    let density = |x: f64, mean: f64, std_dev: f64| -> f64 {
        (1.0 / (2.0 * std::f64::consts::PI * std_dev * std_dev).sqrt())
            * (-((x - mean) * (x - mean)) / (2.0 * std_dev * std_dev)).exp()
    };
    let first =
        (0.5f64 + 1e-9).ln() + density(4.0, 1.5, 0.5).ln() + density(3.0, 2.5, 0.5).ln();
    let second =
        (0.5f64 + 1e-9).ln() + density(4.0, 2.5, 0.5).ln() + density(3.0, 2.5, 0.5).ln();
    assert_eq!(scores, vec![F(first), F(second)]);
    assert_eq!(model.log_scores(&column(vec![4.0])), None);
    assert_eq!(model.log_scores(&column(vec![4.0, 3.0, 2.0])), None);
}

#[test]
fn density_of_a_zero_deviation_is_finite() {
    let at_mean = calculate_probability(F(2.0), F(2.0), F(0.0));
    let expected = 1.0 / (2.0 * std::f64::consts::PI * 1e-9).sqrt();
    assert_eq!(at_mean, F(expected));
    let away = calculate_probability(F(2.5), F(2.0), F(0.0));
    assert_eq!(away, F(0.0));
    assert!(at_mean.0.is_finite() && away.0.is_finite());
}

#[test]
fn mean_and_deviation_of_one_value() {
    let data = column(vec![4.25]);
    let mean = calculate_mean(&data);
    assert_eq!(mean, F(4.25));
    assert_eq!(calculate_std_dev(&data, mean), F(0.0));
    assert_eq!(calculate_std_dev(&column(vec![1.0, 3.0]), F(2.0)), F(1.0));
}

#[test]
fn predict_is_repeatable() {
    let x = matrix(vec![vec![2.0, 1.0], vec![3.0, 2.0], vec![2.5, 1.5], vec![4.0, 3.0]]);
    let y = labels(&["class1", "class1", "class2", "class2"]);
    let x_test = matrix(vec![vec![2.0, 1.0], vec![4.0, 3.0], vec![3.0, 2.0], vec![0.0, 9.0]]);

    let gaussian = GaussianNaiveBayes::new().fit(&x, &y).unwrap();
    let first = gaussian.predict(&x_test);
    let second = gaussian.predict(&x_test);
    assert_eq!(first, second);
    assert_eq!(first.unwrap().len(), x_test.len());

    let multinomial = StdNaiveBayes::new(F(1.0)).fit(&x, &y).unwrap();
    let first = multinomial.predict(&x_test);
    let second = multinomial.predict(&x_test);
    assert_eq!(first, second);
    for label in first.unwrap() {
        assert!(multinomial.classes().contains(&label));
    }
}

#[test]
fn fit_is_repeatable() {
    let x = matrix(vec![vec![2.0, 1.0], vec![3.0, 2.0], vec![2.5, 1.5], vec![4.0, 3.0]]);
    let y = labels(&["class2", "class1", "class2", "class1"]);

    let first = GaussianNaiveBayes::new().fit(&x, &y).unwrap();
    let second = GaussianNaiveBayes::new().fit(&x, &y).unwrap();
    assert_eq!(first.classes(), second.classes());
    assert_eq!(*first.classes(), labels(&["class2", "class1"]));
    assert_eq!(first.class_rows(), second.class_rows());
    assert_eq!(first.probability_of_class(), second.probability_of_class());
    assert_eq!(first.probability_of_feat_by_class(), second.probability_of_feat_by_class());

    let first = StdNaiveBayes::new(F(1.0)).fit(&x, &y).unwrap();
    let second = StdNaiveBayes::new(F(1.0)).fit(&x, &y).unwrap();
    assert_eq!(first.classes(), second.classes());
    assert_eq!(first.class_rows(), second.class_rows());
    assert_eq!(first.probability_of_class(), second.probability_of_class());
    assert_eq!(first.probability_of_feat_by_class(), second.probability_of_feat_by_class());
}

#[test]
fn equal_scores_go_to_the_earliest_class() {
    let x = matrix(vec![vec![1.0, 2.0], vec![1.0, 2.0]]);
    let test = matrix(vec![vec![1.0, 2.0], vec![5.0, 0.0]]);

    let y = labels(&["late", "early"]);
    let model = StdNaiveBayes::new(F(1.0)).fit(&x, &y).unwrap();
    assert_eq!(model.predict(&test), Ok(labels(&["late", "late"])));
    let model = GaussianNaiveBayes::new().fit(&x, &y).unwrap();
    assert_eq!(model.predict(&test), Ok(labels(&["late", "late"])));

    let y = labels(&["early", "late"]);
    let model = StdNaiveBayes::new(F(1.0)).fit(&x, &y).unwrap();
    assert_eq!(model.predict(&test), Ok(labels(&["early", "early"])));
    let model = GaussianNaiveBayes::new().fit(&x, &y).unwrap();
    assert_eq!(model.predict(&test), Ok(labels(&["early", "early"])));
}

#[test]
fn fit_refuses_empty_input() {
    let none: Vec<Vec<F>> = Vec::new();
    let fitted = StdNaiveBayes::new(F(1.0)).fit(&none, &Vec::new());
    assert_eq!(fitted.err(), Some(NaiveBayesError::EmptyInput));
    let fitted = StdNaiveBayes::new(F(1.0)).fit(&none, &labels(&["a"]));
    assert_eq!(fitted.err(), Some(NaiveBayesError::EmptyInput));
    let fitted = StdNaiveBayes::new(F(1.0)).fit(&matrix(vec![vec![1.0]]), &Vec::new());
    assert_eq!(fitted.err(), Some(NaiveBayesError::EmptyInput));
    let fitted = GaussianNaiveBayes::new().fit(&none, &Vec::new());
    assert_eq!(fitted.err(), Some(NaiveBayesError::EmptyInput));
    let fitted = GaussianNaiveBayes::new().fit(&matrix(vec![vec![1.0]]), &Vec::new());
    assert_eq!(fitted.err(), Some(NaiveBayesError::EmptyInput));
}

#[test]
fn fit_refuses_a_length_mismatch() {
    let x = matrix(vec![vec![1.0], vec![2.0]]);
    let y = labels(&["a"]);
    let fitted = StdNaiveBayes::new(F(1.0)).fit(&x, &y);
    assert_eq!(fitted.err(), Some(NaiveBayesError::LengthMismatch));
    let fitted = GaussianNaiveBayes::new().fit(&x, &y);
    assert_eq!(fitted.err(), Some(NaiveBayesError::LengthMismatch));
}

#[test]
fn fit_refuses_ragged_rows() {
    let x = matrix(vec![vec![1.0, 2.0], vec![2.0]]);
    let y = labels(&["a", "b"]);
    let fitted = StdNaiveBayes::new(F(1.0)).fit(&x, &y);
    assert_eq!(fitted.err(), Some(NaiveBayesError::RaggedRows));
    let fitted = GaussianNaiveBayes::new().fit(&x, &y);
    assert_eq!(fitted.err(), Some(NaiveBayesError::RaggedRows));
}

#[test]
fn a_shape_fault_comes_before_the_smoothing_fault() {
    let none: Vec<Vec<F>> = Vec::new();
    let fitted = StdNaiveBayes::new(F(-1.0)).fit(&none, &Vec::new());
    assert_eq!(fitted.err(), Some(NaiveBayesError::EmptyInput));
    let fitted = StdNaiveBayes::new(F(0.0)).fit(&matrix(vec![vec![1.0]]), &labels(&["a"]));
    assert!(fitted.is_ok());
}

#[test]
fn predict_refuses_rows_of_the_wrong_width() {
    let x = matrix(vec![vec![1.0, 2.0], vec![2.0, 1.0]]);
    let y = labels(&["a", "b"]);
    let wide = matrix(vec![vec![1.0, 2.0], vec![1.0, 2.0, 3.0]]);
    let narrow = matrix(vec![vec![1.0, 2.0], vec![1.0]]);

    let multinomial = StdNaiveBayes::new(F(1.0)).fit(&x, &y).unwrap();
    assert_eq!(multinomial.predict(&wide), Err(NaiveBayesError::UnseenFeatureIndex));
    assert_eq!(multinomial.predict(&narrow).map(|labels| labels.len()), Ok(2));
    assert_eq!(multinomial.predict(&Vec::new()), Ok(Vec::new()));

    let gaussian = GaussianNaiveBayes::new().fit(&x, &y).unwrap();
    assert_eq!(gaussian.predict(&wide), Err(NaiveBayesError::UnseenFeatureIndex));
    assert_eq!(gaussian.predict(&narrow), Err(NaiveBayesError::RaggedRows));
    assert_eq!(gaussian.predict(&Vec::new()), Ok(Vec::new()));
}

#[test]
fn rows_without_features_are_classified_by_the_priors() {
    let x = matrix(vec![vec![], vec![], vec![]]);
    let y = labels(&["rare", "common", "common"]);
    let test = matrix(vec![vec![], vec![]]);

    let gaussian = GaussianNaiveBayes::new().fit(&x, &y).unwrap();
    assert_eq!(gaussian.width(), 0);
    assert!(gaussian.probability_of_feat_by_class().is_empty());
    assert_eq!(gaussian.predict(&test), Ok(labels(&["common", "common"])));

    let multinomial = StdNaiveBayes::new(F(1.0)).fit(&x, &y).unwrap();
    assert_eq!(multinomial.predict(&test), Ok(labels(&["common", "common"])));
}

#[test]
fn feature_probability_skips_classes_without_rows() {
    let uniq_classes = labels(&["ghost", "class2", "class1"]);
    let y = labels(&["class1", "class2", "class1"]);
    let x = matrix(vec![vec![1.0], vec![5.0], vec![3.0]]);
    let feature_probabilities = calculate_feature_probability(&x, &y, &uniq_classes);
    assert_eq!(
        feature_probabilities,
        vec![
            ("class2".to_string(), vec![(F(5.0), F(0.0))]),
            ("class1".to_string(), vec![(F(2.0), F(1.0))]),
        ]
    );
}

#[test]
fn class_probability_of_an_unseen_class_is_zero() {
    let uniq_classes = labels(&["seen", "unseen"]);
    let all_classes = labels(&["seen", "seen"]);
    let probabilities: Vec<F> = calculate_class_probability(&uniq_classes, &all_classes);
    assert_eq!(probabilities, vec![F(1.0), F(0.0)]);
}

#[test]
fn word_counts_feed_the_multinomial_classifier() {
    let documents = labels(&[
        "duck duck goose",
        "goose goose duck",
        "quack quack duck",
        "honk honk goose",
    ]);
    let y = labels(&["ducks", "geese", "ducks", "geese"]);
    let mut vectorizer = CountVectorizer::new();
    let counts = vectorizer.fit_transform(&documents);
    let x: Vec<Vec<F>> = counts_as_numbers(&counts);
    assert_eq!(x, matrix(vec![
        vec![2.0, 1.0, 0.0, 0.0],
        vec![1.0, 2.0, 0.0, 0.0],
        vec![1.0, 0.0, 2.0, 0.0],
        vec![0.0, 1.0, 0.0, 2.0],
    ]));
    let model = StdNaiveBayes::new(F(1.0)).fit(&x, &y).unwrap();
    let unseen = vectorizer.transform(&labels(&["quack duck duck", "goose honk"])).unwrap();
    let rows: Vec<Vec<F>> = counts_as_numbers(&unseen);
    assert_eq!(model.predict(&rows), Ok(labels(&["ducks", "geese"])));
}
