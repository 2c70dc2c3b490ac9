use poem_ratelimit::config::ConfigRecord;
use poem_ratelimit::window::window_admit;

fn rule(max_requests: usize, time_window: usize) -> ConfigRecord {
    ConfigRecord { max_requests, time_window }
}

#[test]
fn first_n_admitted_within_window() {
    let r = rule(2, 10);
    let mut records: Vec<u64> = Vec::new();
    assert!(window_admit(&mut records, 0, &r));
    assert!(window_admit(&mut records, 1, &r));
    assert!(!window_admit(&mut records, 2, &r));
    assert_eq!(records, vec![0, 1]);
}

#[test]
fn window_slides_after_oldest_record_ages_out() {
    let r = rule(2, 10);
    let mut records: Vec<u64> = vec![0, 5];
    // At t = 11 the record from t = 0 has aged a full window.
    assert!(window_admit(&mut records, 11, &r));
    assert_eq!(records, vec![5, 11]);
}

#[test]
fn boundary_record_exactly_one_window_old_is_trimmed() {
    let r = rule(1, 10);
    let mut records: Vec<u64> = vec![0];
    assert!(window_admit(&mut records, 10, &r));
    assert_eq!(records, vec![10]);
}

#[test]
fn rejection_still_trims_but_records_nothing() {
    let r = rule(1, 10);
    let mut records: Vec<u64> = vec![3, 9];
    // t = 9 is live at t = 14, t = 3 is not; one live record fills the limit.
    assert!(!window_admit(&mut records, 14, &r));
    assert_eq!(records, vec![9]);
}

#[test]
fn saturation_two_n_attempts_admit_exactly_n() {
    let r = rule(3, 10);
    let mut records: Vec<u64> = Vec::new();
    let mut admits = 0;
    let mut rejects = 0;
    for _ in 0..6 {
        if window_admit(&mut records, 5, &r) {
            admits += 1;
        } else {
            rejects += 1;
        }
    }
    assert_eq!(admits, 3);
    assert_eq!(rejects, 3);
    assert_eq!(records, vec![5, 5, 5]);
}
