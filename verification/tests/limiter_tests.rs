use poem_ratelimit::config::{Config, ConfigRecord};
use poem_ratelimit::error::{RateLimitError, StoreError};
use poem_ratelimit::limiter::{evaluate_at, interpret_script_result, ScriptOutcome, Verdict};
use poem_ratelimit::store::MemoryStore;

fn rule(max_requests: usize, time_window: usize) -> ConfigRecord {
    ConfigRecord { max_requests, time_window }
}

#[test]
fn global_two_per_ten_seconds_scenario() {
    let config = Config::new(Some(rule(2, 10)), None, None).unwrap();
    let mut store = MemoryStore::new();
    assert_eq!(evaluate_at(&mut store, &config, "c", "/", 0), Verdict::Allowed);
    assert_eq!(evaluate_at(&mut store, &config, "c", "/", 1), Verdict::Allowed);
    assert_eq!(evaluate_at(&mut store, &config, "c", "/", 2), Verdict::Denied);
    // The window slid past t = 0, so a fourth request is admitted.
    assert_eq!(evaluate_at(&mut store, &config, "c", "/", 11), Verdict::Allowed);
}

#[test]
fn route_scoped_scenario() {
    let routes = vec![("/login".to_string(), rule(1, 5))];
    let config = Config::new(None, None, Some(routes)).unwrap();
    let mut store = MemoryStore::new();
    assert_eq!(evaluate_at(&mut store, &config, "c", "/login", 0), Verdict::Allowed);
    assert_eq!(evaluate_at(&mut store, &config, "c", "/login", 1), Verdict::Denied);
    // An unscoped route is not limited.
    assert_eq!(evaluate_at(&mut store, &config, "c", "/home", 1), Verdict::Allowed);
}

#[test]
fn unconfigured_route_is_always_allowed() {
    let routes = vec![("/a".to_string(), rule(1, 60))];
    let config = Config::new(None, None, Some(routes)).unwrap();
    let mut store = MemoryStore::new();
    for t in 0..50u64 {
        assert_eq!(evaluate_at(&mut store, &config, "c", "/b", t), Verdict::Allowed);
    }
    // The configured route still enforces its own rule.
    assert_eq!(evaluate_at(&mut store, &config, "c", "/a", 50), Verdict::Allowed);
    assert_eq!(evaluate_at(&mut store, &config, "c", "/a", 50), Verdict::Denied);
}

#[test]
fn client_scope_counts_clients_independently() {
    let config = Config::new(None, Some(rule(1, 10)), None).unwrap();
    let mut store = MemoryStore::new();
    assert_eq!(evaluate_at(&mut store, &config, "1.1.1.1", "/", 0), Verdict::Allowed);
    assert_eq!(evaluate_at(&mut store, &config, "2.2.2.2", "/", 0), Verdict::Allowed);
    assert_eq!(evaluate_at(&mut store, &config, "1.1.1.1", "/", 1), Verdict::Denied);
}

#[test]
fn every_configured_scope_must_admit() {
    // The client scope would allow five, but the global scope caps at one.
    let config = Config::new(Some(rule(1, 10)), Some(rule(5, 10)), None).unwrap();
    let mut store = MemoryStore::new();
    assert_eq!(evaluate_at(&mut store, &config, "c", "/", 0), Verdict::Allowed);
    assert_eq!(evaluate_at(&mut store, &config, "c", "/", 1), Verdict::Denied);
}

#[test]
fn saturation_two_n_requests_admit_exactly_n() {
    let config = Config::new(Some(rule(4, 10)), None, None).unwrap();
    let mut store = MemoryStore::new();
    let mut admits = 0;
    let mut denies = 0;
    for _ in 0..8 {
        match evaluate_at(&mut store, &config, "c", "/", 3) {
            Verdict::Allowed => admits += 1,
            Verdict::Denied => denies += 1,
        }
    }
    assert_eq!(admits, 4);
    assert_eq!(denies, 4);
}

#[test]
fn script_reply_codes_decode_exactly() {
    assert_eq!(interpret_script_result(0), Ok(ScriptOutcome::Admitted));
    assert_eq!(interpret_script_result(1), Ok(ScriptOutcome::Rejected));
    assert_eq!(interpret_script_result(2), Err(StoreError::MalformedResponse));
    assert_eq!(interpret_script_result(-1), Err(StoreError::MalformedResponse));
}

#[test]
fn store_fault_is_distinguishable_from_both_verdicts() {
    // A store fault is carried in the error arm of a result, never as a
    // verdict, so no caller can mistake it for an allow or a deny.
    let faulty: Result<ScriptOutcome, StoreError> = interpret_script_result(7);
    match faulty {
        Ok(_) => panic!("a malformed reply must not decode to a verdict"),
        Err(fault) => assert_eq!(fault, StoreError::MalformedResponse),
    }
    let unavailable = StoreError::Unavailable;
    assert_ne!(unavailable, StoreError::MalformedResponse);
}

#[test]
fn rate_limit_rejection_renders_as_too_many_requests() {
    let rejection = RateLimitError;
    assert_eq!(rejection.status(), 429);
    assert_eq!(rejection.message(), "too many requests");
}
