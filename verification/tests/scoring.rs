//! The pure scoring pieces: winner selection, profile accumulation, the
//! weighted classification vector and the decision rule.

use mnist_eval::profile::accumulate_profile_a;
use mnist_eval::profile::accumulate_profile_b;
use mnist_eval::profile::pick_winner;
use mnist_eval::score::classify;
use mnist_eval::score::weighted_scores;

fn zero_profile(neurons: usize) -> Vec<Vec<u64>> {
    (0..neurons).map(|_| vec![0u64; 10]).collect()
}

#[test]
fn winner_is_the_first_strict_maximum() {
    assert_eq!(pick_winner(&vec![1, 3, 3]), 1);
    assert_eq!(pick_winner(&vec![0, 2, 2]), 1);
    assert_eq!(pick_winner(&vec![5]), 0);
    assert_eq!(pick_winner(&vec![4, 9, 2]), 1);
}

#[test]
fn winner_of_all_zero_activations_is_neuron_zero() {
    assert_eq!(pick_winner(&vec![0, 0, 0]), 0);
}

#[test]
fn activation_sum_accumulates_each_neuron_and_the_total() {
    let mut profile = zero_profile(2);
    let mut totals = vec![0u64; 10];
    accumulate_profile_a(&mut profile, &mut totals, &vec![3, 4], 2);
    assert_eq!(profile[0][2], 3);
    assert_eq!(profile[1][2], 4);
    assert_eq!(totals[2], 7);
    for c in 0..10 {
        if c != 2 {
            assert_eq!(profile[0][c], 0);
            assert_eq!(profile[1][c], 0);
            assert_eq!(totals[c], 0);
        }
    }
    accumulate_profile_a(&mut profile, &mut totals, &vec![1, 1], 2);
    assert_eq!(profile[0][2], 4);
    assert_eq!(profile[1][2], 5);
    assert_eq!(totals[2], 9);
}

#[test]
fn winner_take_all_credits_one_win() {
    let mut profile = zero_profile(3);
    let mut totals = vec![0u64; 10];
    accumulate_profile_b(&mut profile, &mut totals, &vec![2, 5, 5], 1);
    assert_eq!(profile[0][1], 0);
    assert_eq!(profile[1][1], 1);
    assert_eq!(profile[2][1], 0);
    assert_eq!(totals[1], 1);
}

#[test]
fn weighted_scores_multiply_profile_columns_by_activations() {
    let mut profile = zero_profile(2);
    for c in 0..10 {
        profile[0][c] = c as u64;
        profile[1][c] = 1;
    }
    let w = weighted_scores(&profile, &vec![3, 10]);
    for c in 0..10 {
        assert_eq!(w[c], (c as u128) * 3 + 10);
    }
}

#[test]
fn decision_takes_the_greatest_normalized_score() {
    let mut w = vec![0u128; 10];
    let mut t = vec![1u64; 10];
    w[4] = 8;
    t[4] = 2;
    w[7] = 5;
    t[7] = 2;
    // class 4 scores 4, class 7 scores 2.5, the rest 0
    assert_eq!(classify(&w, &t), 4);
}

#[test]
fn decision_tie_breaks_to_the_lower_class() {
    let mut w = vec![0u128; 10];
    let mut t = vec![1u64; 10];
    // classes 3 and 6 both score 3
    w[3] = 6;
    t[3] = 2;
    w[6] = 9;
    t[6] = 3;
    assert_eq!(classify(&w, &t), 3);
}

#[test]
fn decision_of_all_zero_scores_is_class_zero() {
    let w = vec![0u128; 10];
    let t = vec![1u64; 10];
    assert_eq!(classify(&w, &t), 0);
}

#[test]
fn class_with_zero_total_is_never_selected() {
    let mut w = vec![0u128; 10];
    let mut t = vec![0u64; 10];
    // class 2 has a weight but an empty training class; class 5 has a
    // modest, well-defined score and must win
    w[2] = 100;
    t[5] = 4;
    w[5] = 4;
    assert_eq!(classify(&w, &t), 5);
}
