use cereal::coordinator::{merge_partials, partition, plan_simulation, simulation_single_thread, RequestError};
use cereal::summary::max_min;
use cereal::source::DrawSource;
use cereal::trial::{run_seeded_trials, run_trial, run_trials, trial_length, TrialError, TrialState};
use rand::rngs::StdRng;
use rand::SeedableRng;

const LOOP_NUMBERS: [i32; 5] = [1, 10, 100, 1_000, 10_000];

fn summarize(data: &Vec<i32>) -> (f64, f64, i32, i32) {
    let floating: Vec<f64> = data.iter().map(|d| *d as f64).collect();
    let mean = statistical::mean(floating.as_slice());
    let median = statistical::median(floating.as_slice());
    let (max, min) = max_min(data);
    (mean, median, max, min)
}

fn stats_wrapper(data: Vec<i32>) {
    let (mean, median, max, min) = summarize(&data);
    println!("Mean: {}, Median: {}, Max: {}, Min: {}\n", mean, median, max, min)
}

fn run_partitioned(total: i32, workers: i32) -> Vec<i32> {
    let plan = plan_simulation(total, workers).unwrap();
    let partials: Vec<Result<Vec<i32>, TrialError>> =
        plan.iter().map(|share| run_seeded_trials(*share)).collect();
    assert_eq!(partials.len(), plan.len());
    merge_partials(&partials).unwrap()
}

#[test]
fn run_multi() {
    println!("Multi-threaded:");
    for number_of_loops in LOOP_NUMBERS.iter() {
        println!("Number of Simulations:{}", number_of_loops);
        let data = run_partitioned(*number_of_loops, 8);
        assert_eq!(data.len(), *number_of_loops as usize);
        stats_wrapper(data)
    }
}

#[test]
fn run_single() {
    println!("Multi-threaded:");
    for number_of_loops in LOOP_NUMBERS.iter() {
        println!("Number of Simulations:{}", number_of_loops);
        let (data, time) = simulation_single_thread(*number_of_loops).unwrap();
        println!("Time: {:?}", time);
        assert_eq!(data.len(), *number_of_loops as usize);
        stats_wrapper(data)
    }
}

#[test]
fn collection_length_matches_request() {
    for total in [1, 2, 7, 50, 333] {
        for workers in [1, 2, 3, 8, 16] {
            assert_eq!(run_partitioned(total, workers).len(), total as usize);
        }
    }
}

#[test]
fn single_thread_length_matches_request() {
    let (data, _) = simulation_single_thread(123).unwrap();
    assert_eq!(data.len(), 123);
}

#[test]
fn large_samples_agree_across_partitions() {
    let one = run_partitioned(10_000, 1);
    let eight = run_partitioned(10_000, 8);
    let (mean_one, median_one, _, _) = summarize(&one);
    let (mean_eight, median_eight, _, _) = summarize(&eight);
    assert!((mean_one - 14.7).abs() < 0.5, "mean {}", mean_one);
    assert!((mean_eight - 14.7).abs() < 0.5, "mean {}", mean_eight);
    assert!(median_one >= 11.0 && median_one <= 15.0, "median {}", median_one);
    assert!(median_eight >= 11.0 && median_eight <= 15.0, "median {}", median_eight);
}

#[test]
fn zero_trials_dispatch_nothing() {
    for workers in [1, 2, 8] {
        assert_eq!(plan_simulation(0, workers), Ok(Vec::new()));
    }
    let (data, _) = simulation_single_thread(0).unwrap();
    assert!(data.is_empty());
    assert_eq!(run_seeded_trials(0), Ok(Vec::new()));
    assert_eq!(merge_partials(&Vec::new()), Ok(Vec::new()));
}

#[test]
fn statistics_of_single_value() {
    let data = vec![5];
    assert_eq!(summarize(&data), (5.0, 5.0, 5, 5));
    assert_eq!(max_min(&data), (5, 5));
}

#[test]
fn statistics_of_even_length() {
    let data = vec![1, 2, 3, 4];
    assert_eq!(summarize(&data), (2.5, 2.5, 4, 1));
    assert_eq!(max_min(&data), (4, 1));
}

#[test]
fn max_min_unsorted_with_ties() {
    assert_eq!(max_min(&vec![9, -3, 9, 0, -3, 7]), (9, -3));
    assert_eq!(max_min(&vec![i32::MIN, i32::MAX]), (i32::MAX, i32::MIN));
}

#[test]
fn every_outcome_is_at_least_six() {
    let mut src = DrawSource::new(StdRng::seed_from_u64(7));
    let outcomes = run_trials(&mut src, 2_000).unwrap();
    assert_eq!(outcomes.len(), 2_000);
    assert!(outcomes.iter().all(|n| *n >= 6));
    assert!(outcomes.iter().any(|n| *n > 6));
    let mut src = DrawSource::new(StdRng::seed_from_u64(8));
    assert!(run_trial(&mut src).unwrap() >= 6);
}

#[test]
fn partition_shares_sum_to_total() {
    for total in 1..=40 {
        for workers in 1..=total {
            let plan = partition(total, workers);
            assert_eq!(plan.len(), workers as usize);
            assert_eq!(plan.iter().sum::<i32>(), total);
        }
    }
}

#[test]
fn partition_gives_rest_to_last_worker() {
    assert_eq!(partition(10, 3), vec![3, 3, 4]);
    assert_eq!(partition(10, 4), vec![2, 2, 2, 4]);
    assert_eq!(partition(5, 8), vec![0, 0, 0, 0, 0, 0, 0, 5]);
    assert_eq!(partition(7, 1), vec![7]);
    assert_eq!(plan_simulation(9, 2), Ok(vec![4, 5]));
}

#[test]
fn invalid_requests_are_refused() {
    assert_eq!(plan_simulation(-1, 4), Err(RequestError::NegativeTrials));
    assert_eq!(plan_simulation(-1, -1), Err(RequestError::NegativeTrials));
    assert_eq!(plan_simulation(5, -2), Err(RequestError::NegativeWorkers));
    assert_eq!(plan_simulation(0, -2), Err(RequestError::NegativeWorkers));
    assert_eq!(plan_simulation(5, 0), Err(RequestError::NoWorkers));
}

#[test]
fn merge_concatenates_in_order() {
    let partials = vec![Ok(vec![6, 7]), Ok(Vec::new()), Ok(vec![12])];
    assert_eq!(merge_partials(&partials), Ok(vec![6, 7, 12]));
}

#[test]
fn merge_fails_when_a_worker_failed() {
    let partials = vec![Ok(vec![6, 7]), Err(TrialError::DrawLimitReached), Ok(vec![12])];
    assert_eq!(merge_partials(&partials), Err(TrialError::DrawLimitReached));
    let partials = vec![Err(TrialError::NoEntropy)];
    assert_eq!(merge_partials(&partials), Err(TrialError::NoEntropy));
}

#[test]
fn trial_state_completes_on_last_new_category() {
    let mut state = TrialState::new();
    assert!(!state.is_complete());
    for c in [0usize, 1, 2, 3, 4, 4, 2] {
        state.record(c);
        assert!(!state.is_complete());
    }
    state.record(5);
    assert!(state.is_complete());
    assert_eq!(state.opens(), 8);
    state.record(0);
    assert!(state.is_complete());
    assert_eq!(state.opens(), 9);
}

#[test]
fn trial_length_stops_at_first_full_set() {
    assert_eq!(trial_length(&vec![0, 1, 2, 3, 4, 5]), Some(6));
    assert_eq!(trial_length(&vec![5, 5, 0, 1, 2, 3, 1, 4, 0, 2]), Some(8));
    assert_eq!(trial_length(&vec![3, 2, 1, 0, 4, 5, 5, 5]), Some(6));
}

#[test]
fn trial_length_without_full_set() {
    assert_eq!(trial_length(&Vec::new()), None);
    assert_eq!(trial_length(&vec![0, 1, 2, 3, 4, 4, 4]), None);
}

#[test]
fn seeded_sources_repeat_their_trials() {
    let mut a = DrawSource::new(StdRng::seed_from_u64(11));
    let mut b = DrawSource::new(StdRng::seed_from_u64(11));
    assert_eq!(run_trials(&mut a, 50), run_trials(&mut b, 50));
}

#[test]
fn drawn_values_stay_below_bound() {
    let mut src = DrawSource::new(StdRng::seed_from_u64(3));
    let mut seen = [false; 6];
    for _ in 0..600 {
        let c = src.draw(6);
        assert!(c < 6);
        seen[c] = true;
    }
    assert!(seen.iter().all(|s| *s));
}
