use pi_estimate::{validate_input, InputError, SampleRequest, WorkerResult};

fn request(points: i64, workers: i64) -> SampleRequest {
    validate_input(points, workers).expect("a valid request")
}

fn estimate(inside: u64, sampled: u64) -> f64 {
    4.0 * inside as f64 / sampled as f64
}

#[test]
fn sampled_is_workers_times_share_and_within_total() {
    for &(points, workers) in &[(1i64, 1i64), (7, 2), (10, 3), (100, 4), (101, 10), (999, 999), (1000, 7)] {
        let q = request(points, workers);
        let share = (points / workers) as u64;
        assert_eq!(q.points_per_worker(), share);
        assert_eq!(q.total_points_sampled(), workers as u64 * share);
        assert!(q.total_points_sampled() <= points as u64);
        assert!(points as u64 - q.total_points_sampled() < workers as u64);
    }
}

#[test]
fn even_split_of_hundred_among_four() {
    let q = request(100, 4);
    let tasks = q.worker_tasks();
    assert_eq!(tasks.len(), 4);
    for t in &tasks {
        assert_eq!(t.points_to_sample, 25);
    }
    assert_eq!(q.total_points_sampled(), 100);
    assert!(q.is_evenly_divided());
}

#[test]
fn remainder_is_left_out() {
    let q = request(10, 3);
    let tasks = q.worker_tasks();
    assert_eq!(tasks.len(), 3);
    for t in &tasks {
        assert_eq!(t.points_to_sample, 3);
    }
    assert_eq!(q.points_per_worker(), 3);
    assert_eq!(q.total_points_sampled(), 9);
    assert!(!q.is_evenly_divided());
    let results = vec![
        WorkerResult { points_in_circle: 3 },
        WorkerResult { points_in_circle: 2 },
        WorkerResult { points_in_circle: 3 },
    ];
    let totals = q.aggregate(&results);
    assert_eq!(totals.total_points_in_circle, 8);
    assert_eq!(totals.total_points_sampled, 9);
}

#[test]
fn request_keeps_its_numbers() {
    let q = request(12, 5);
    assert_eq!(q.total_points(), 12);
    assert_eq!(q.worker_count(), 5);
}

#[test]
fn non_positive_input_is_refused() {
    assert_eq!(validate_input(0, 1).unwrap_err(), InputError::NotPositive);
    assert_eq!(validate_input(5, 0).unwrap_err(), InputError::NotPositive);
    assert_eq!(validate_input(-3, 2).unwrap_err(), InputError::NotPositive);
    assert_eq!(validate_input(4, -1).unwrap_err(), InputError::NotPositive);
}

#[test]
fn more_workers_than_points_is_refused() {
    assert_eq!(validate_input(3, 10).unwrap_err(), InputError::TooManyWorkers);
    assert_eq!(validate_input(1, 2).unwrap_err(), InputError::TooManyWorkers);
}

#[test]
fn largest_request_is_accepted() {
    let q = request(i64::MAX, 1);
    assert_eq!(q.total_points_sampled(), i64::MAX as u64);
    let q = request(i64::MAX, 2);
    assert_eq!(q.points_per_worker(), (i64::MAX / 2) as u64);
    assert_eq!(q.total_points_sampled(), i64::MAX as u64 - 1);
}

#[test]
fn aggregate_sums_worker_counts() {
    let q = request(100, 4);
    let results = vec![
        WorkerResult { points_in_circle: 20 },
        WorkerResult { points_in_circle: 19 },
        WorkerResult { points_in_circle: 25 },
        WorkerResult { points_in_circle: 0 },
    ];
    let totals = q.aggregate(&results);
    assert_eq!(totals.total_points_in_circle, 64);
    assert_eq!(totals.total_points_sampled, 100);
    assert_eq!(estimate(totals.total_points_in_circle, totals.total_points_sampled), 2.56);
}

#[test]
fn estimate_stays_between_zero_and_four() {
    let q = request(10, 3);
    let none = vec![WorkerResult { points_in_circle: 0 }; 3];
    let all = vec![WorkerResult { points_in_circle: 3 }; 3];
    let lo = q.aggregate(&none);
    let hi = q.aggregate(&all);
    assert_eq!(estimate(lo.total_points_in_circle, lo.total_points_sampled), 0.0);
    assert_eq!(estimate(hi.total_points_in_circle, hi.total_points_sampled), 4.0);
}
