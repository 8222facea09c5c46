//! Whole evaluations: the two profile variants, the end-to-end scenario,
//! the aggregate metrics and each failure condition.

use mnist_eval::MetricError;
use mnist_eval::MnistNetwork;
use mnist_eval::ProfileVariant;
use mnist_eval::toy::ConstNetwork;
use mnist_eval::toy::LevelsNetwork;
use mnist_eval::toy::MeanNetwork;

fn image(value: u64) -> Vec<u64> {
    vec![value; 784]
}

fn images(values: &[u64]) -> Vec<u64> {
    let mut buf = Vec::new();
    for &v in values {
        buf.extend(image(v));
    }
    buf
}

#[test]
fn two_image_toy_dataset_scores_perfectly() {
    // a 2-image, 2-class dataset: all-zero pixels labelled 0, all-one
    // pixels labelled 1, under a single mean-pixel neuron
    let mut net = MeanNetwork::new();
    let imgs = images(&[0, 1]);
    let lbls = vec![0u8, 1u8];
    let report = net
        .take_metric(imgs.clone(), lbls.clone(), 1, imgs, lbls)
        .unwrap();
    assert_eq!(report.total, 2);
    assert_eq!(report.correct, 2);
    assert_eq!(report.misses, vec![0; 10]);
    for row in &report.confusion {
        assert_eq!(row, &vec![0usize; 10]);
    }
}

#[test]
fn variants_share_a_shape_but_differ_in_values() {
    let imgs = images(&[7, 7, 7]);
    let lbls = vec![0u8, 0u8, 1u8];
    let mut net_a = ConstNetwork::new(5);
    let (profile_a, totals_a) = net_a
        .build_profile(&imgs, &lbls, ProfileVariant::ActivationSum)
        .unwrap();
    let mut net_b = ConstNetwork::new(5);
    let (profile_b, totals_b) = net_b
        .build_profile(&imgs, &lbls, ProfileVariant::WinnerTakeAll)
        .unwrap();
    // same shape: one row of ten columns per neuron
    assert_eq!(profile_a.len(), 1);
    assert_eq!(profile_b.len(), 1);
    assert_eq!(profile_a[0].len(), 10);
    assert_eq!(profile_b[0].len(), 10);
    // different numbers: summed activations against win counts
    assert_eq!(profile_a[0][0], 10);
    assert_eq!(profile_a[0][1], 5);
    assert_eq!(profile_b[0][0], 2);
    assert_eq!(profile_b[0][1], 1);
    assert_ne!(profile_a, profile_b);
    assert_eq!(totals_a[0], 10);
    assert_eq!(totals_a[1], 5);
    assert_eq!(totals_b[0], 2);
    assert_eq!(totals_b[1], 1);
}

#[test]
fn constant_neuron_scores_at_the_majority_class_prior() {
    // a constant activation cannot discriminate: every class present in
    // training ties, and the tie resolves to the lowest class index, here
    // the majority class 0; accuracy equals its empirical prior 2/3 under
    // both variants
    let imgs = images(&[7, 7, 7]);
    let lbls = vec![0u8, 0u8, 1u8];
    for variant in [ProfileVariant::ActivationSum, ProfileVariant::WinnerTakeAll] {
        let mut net = ConstNetwork::new(5);
        let (profile, totals) = net.build_profile(&imgs, &lbls, variant).unwrap();
        let report = net
            .score_images(&profile, &totals, &imgs, &lbls)
            .unwrap();
        assert_eq!(report.total, 3);
        assert_eq!(report.correct, 2);
        assert_eq!(report.misses[1], 1);
        assert_eq!(report.confusion[1][0], 1);
    }
}

#[test]
fn confusion_rows_sum_to_the_miss_counts() {
    // the mean neuron cannot tell the two all-three images apart from the
    // all-five one, so some decisions miss; the counters must agree
    let mut net = MeanNetwork::new();
    let train = images(&[0, 3, 5]);
    let train_lbls = vec![0u8, 1u8, 2u8];
    let test = images(&[3, 5, 0, 3]);
    let test_lbls = vec![1u8, 2u8, 0u8, 4u8];
    let report = net
        .take_metric(train, train_lbls, 1, test, test_lbls)
        .unwrap();
    assert_eq!(report.total, 4);
    let mut matrix_sum = 0usize;
    for (t, row) in report.confusion.iter().enumerate() {
        let row_sum: usize = row.iter().sum();
        assert_eq!(row_sum, report.misses[t]);
        matrix_sum += row_sum;
    }
    assert_eq!(matrix_sum, report.total - report.correct);
}

#[test]
fn winner_take_all_credits_only_the_first_highest_neuron() {
    // four neurons at levels 2, 9, 9, 1: neuron 1 is the first strict
    // maximum and wins every image under the winner-take-all variant
    let imgs = images(&[0, 0]);
    let lbls = vec![0u8, 1u8];
    let mut net = LevelsNetwork::new(&vec![2, 9, 9, 1]);
    let (profile, totals) = net
        .build_profile(&imgs, &lbls, ProfileVariant::WinnerTakeAll)
        .unwrap();
    assert_eq!(profile.len(), 4);
    assert_eq!(profile[1][0], 1);
    assert_eq!(profile[1][1], 1);
    assert_eq!(profile[0][0], 0);
    assert_eq!(profile[2][0], 0);
    assert_eq!(profile[3][1], 0);
    assert_eq!(totals[0], 1);
    assert_eq!(totals[1], 1);
}

#[test]
fn activation_sum_spreads_credit_over_all_neurons() {
    let imgs = images(&[0, 0]);
    let lbls = vec![3u8, 3u8];
    let mut net = LevelsNetwork::new(&vec![2, 9]);
    let (profile, totals) = net
        .build_profile(&imgs, &lbls, ProfileVariant::ActivationSum)
        .unwrap();
    assert_eq!(profile[0][3], 4);
    assert_eq!(profile[1][3], 18);
    assert_eq!(totals[3], 22);
}

#[test]
fn training_with_a_short_buffer_is_an_index_error() {
    let mut net = MeanNetwork::new();
    let imgs = vec![1u64; 100];
    let lbls = vec![0u8];
    let r = net.take_metric(imgs.clone(), lbls.clone(), 1, imgs, lbls);
    assert!(matches!(r, Err(MetricError::IndexError)));
}

#[test]
fn short_train_buffer_fails_even_without_epochs() {
    let mut net = MeanNetwork::new();
    let imgs = vec![1u64; 100];
    let lbls = vec![0u8];
    let r = net.take_metric(imgs.clone(), lbls.clone(), 0, imgs, lbls);
    assert!(matches!(r, Err(MetricError::IndexError)));
}

#[test]
fn a_training_label_out_of_range_is_invalid() {
    let mut net = MeanNetwork::new();
    let imgs = image(1);
    let lbls = vec![11u8];
    let ok_imgs = image(0);
    let ok_lbls = vec![0u8];
    let r = net.take_metric(imgs, lbls, 1, ok_imgs, ok_lbls);
    assert!(matches!(r, Err(MetricError::InvalidLabel)));
}

#[test]
fn a_short_test_buffer_is_an_index_error() {
    let mut net = MeanNetwork::new();
    let train = image(1);
    let train_lbls = vec![0u8];
    let test = vec![1u64; 10];
    let test_lbls = vec![0u8];
    let r = net.take_metric(train, train_lbls, 1, test, test_lbls);
    assert!(matches!(r, Err(MetricError::IndexError)));
}

#[test]
fn a_test_label_out_of_range_is_invalid() {
    let mut net = MeanNetwork::new();
    let train = image(1);
    let train_lbls = vec![0u8];
    let test = image(1);
    let test_lbls = vec![10u8];
    let r = net.take_metric(train, train_lbls, 1, test, test_lbls);
    assert!(matches!(r, Err(MetricError::InvalidLabel)));
}

#[test]
fn an_empty_test_set_scores_vacuously() {
    let mut net = MeanNetwork::new();
    let train = images(&[0, 1]);
    let train_lbls = vec![0u8, 1u8];
    let report = net
        .take_metric(train, train_lbls, 1, Vec::new(), Vec::new())
        .unwrap();
    assert_eq!(report.total, 0);
    assert_eq!(report.correct, 0);
}
