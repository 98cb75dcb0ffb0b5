use grammar2d::selection::choose_weighted;
use rand::{Rng, SeedableRng};

#[test]
fn first_cumulative_weight_above_the_draw_wins() {
    let w = vec![1, 3];
    assert_eq!(choose_weighted(&w, 0), Some(0));
    assert_eq!(choose_weighted(&w, 1), Some(1));
    assert_eq!(choose_weighted(&w, 3), Some(1));
    assert_eq!(choose_weighted(&w, 4), Some(0));
    assert_eq!(choose_weighted(&w, 7), Some(1));
}

#[test]
fn zero_weight_never_wins() {
    let w = vec![0, 5, 0];
    for d in 0..200u64 {
        assert_eq!(choose_weighted(&w, d), Some(1));
    }
}

#[test]
fn negative_weight_never_wins() {
    let w = vec![-3, 2];
    for d in 0..50u64 {
        assert_eq!(choose_weighted(&w, d), Some(1));
    }
}

#[test]
fn no_positive_weight_chooses_nothing() {
    assert_eq!(choose_weighted(&vec![], 5), None);
    assert_eq!(choose_weighted(&vec![0, 0, -1], 5), None);
}

#[test]
fn weights_one_and_three_over_ten_thousand_draws() {
    let mut rng = rand::rngs::StdRng::seed_from_u64(2024);
    let w = vec![1, 3];
    let mut counts = [0u32; 2];
    for _ in 0..10_000 {
        let i = choose_weighted(&w, rng.gen::<u64>()).unwrap();
        counts[i] += 1;
    }
    assert!((2300..=2700).contains(&counts[0]), "{:?}", counts);
    assert!((7300..=7700).contains(&counts[1]), "{:?}", counts);
}
