use speed_meter::stats::{calculate_trimmed_mean, checked_sum, trimmed_sum_fits_check};

#[test]
fn trimmed_mean_of_nothing_is_zero() {
    assert_eq!(calculate_trimmed_mean(vec![]), 0);
}

#[test]
fn trimmed_mean_of_few_samples_is_plain_mean() {
    assert_eq!(calculate_trimmed_mean(vec![10, 20, 30]), 20);
    assert_eq!(calculate_trimmed_mean(vec![1, 2, 3, 5]), 2);
    assert_eq!(calculate_trimmed_mean(vec![7]), 7);
}

#[test]
fn trimmed_mean_drops_slowest_and_fastest() {
    // 20 samples: the 4 slowest and the 3 fastest are dropped, 13 kept.
    let samples: Vec<u64> = (1..=20).map(|x| x * 100).rev().collect();
    // kept: 500..=1700 step 100, mean 1100
    assert_eq!(calculate_trimmed_mean(samples), 1100);
}

#[test]
fn trimmed_mean_of_five_drops_one_slowest() {
    // 5 samples: 1 slowest dropped, none of the fastest (5 * 3 / 20 = 0)
    assert_eq!(calculate_trimmed_mean(vec![50, 10, 40, 20, 30]), 35);
}

#[test]
fn trimmed_mean_ignores_order() {
    let a = vec![5, 900, 3, 77, 12, 64, 1000, 2, 45, 33];
    let mut b = a.clone();
    b.reverse();
    assert_eq!(calculate_trimmed_mean(a), calculate_trimmed_mean(b));
}

#[test]
fn trimmed_mean_stays_within_sampled_speeds() {
    let samples = vec![120, 340, 99, 410, 250, 180, 300, 500];
    let r = calculate_trimmed_mean(samples.clone());
    assert!(r >= 99 && r <= 500);
    assert_eq!(calculate_trimmed_mean(vec![42; 17]), 42);
}

#[test]
fn checked_sum_reports_overflow() {
    assert_eq!(checked_sum(&vec![1, 2, 3]), Some(6));
    assert_eq!(checked_sum(&vec![u64::MAX, 1]), None);
    assert_eq!(checked_sum(&vec![]), Some(0));
}

#[test]
fn trimmed_mean_sums_only_the_kept_samples() {
    // the single huge sample is among the fastest 15% and is dropped before summing
    let samples = vec![1, 1, 1, 1, 1, 1, u64::MAX];
    assert!(trimmed_sum_fits_check(&samples));
    assert_eq!(calculate_trimmed_mean(samples), 1);
}

#[test]
fn trimmed_sum_fits_check_cases() {
    assert!(trimmed_sum_fits_check(&vec![]));
    assert!(trimmed_sum_fits_check(&vec![u64::MAX]));
    assert!(!trimmed_sum_fits_check(&vec![u64::MAX, 1]));
    // five samples keep four of them: their sum overflows
    assert!(!trimmed_sum_fits_check(&vec![u64::MAX; 5]));
    assert!(trimmed_sum_fits_check(&vec![3, 1, 4, 1, 5, 9, 2, 6]));
}

#[test]
fn raising_a_sample_never_lowers_the_trimmed_mean() {
    let a = vec![100, 200, 300, 400, 500, 600, 700, 800];
    let base = calculate_trimmed_mean(a.clone());
    for i in 0..a.len() {
        let mut c = a.clone();
        c[i] += 250;
        assert!(calculate_trimmed_mean(c) >= base);
    }
}

#[test]
fn one_burst_is_trimmed_away() {
    let s = vec![500, 520, 480, 510, 490, 505, 530];
    let mut burst = s.clone();
    burst[6] = 90_000;
    assert_eq!(calculate_trimmed_mean(burst), calculate_trimmed_mean(s));
}

#[test]
fn one_slow_start_is_trimmed_away() {
    let s = vec![500, 520, 480, 510, 490];
    let mut slow = s.clone();
    slow[2] = 3;
    assert_eq!(calculate_trimmed_mean(slow), calculate_trimmed_mean(s));
}
