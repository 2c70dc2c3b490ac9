use poem_ratelimit::config::{Config, ConfigRecord};
use poem_ratelimit::error::ConfigError;

fn rule(max_requests: usize, time_window: usize) -> ConfigRecord {
    ConfigRecord { max_requests, time_window }
}

#[test]
fn empty_policy_builds() {
    let config = Config::new(None, None, None).unwrap();
    assert!(config.global.is_none());
    assert!(config.ip.is_none());
    assert!(config.route.is_none());
    assert_eq!(config.route_rule("/a"), None);
}

#[test]
fn full_policy_builds_and_looks_up() {
    let routes = vec![("/login".to_string(), rule(1, 5))];
    let config = Config::new(Some(rule(2, 10)), Some(rule(3, 20)), Some(routes)).unwrap();
    assert_eq!(config.global, Some(rule(2, 10)));
    assert_eq!(config.ip, Some(rule(3, 20)));
    assert_eq!(config.route_rule("/login"), Some(rule(1, 5)));
    assert_eq!(config.route_rule("/home"), None);
}

#[test]
fn zero_max_requests_is_invalid() {
    assert_eq!(Config::new(Some(rule(0, 10)), None, None).unwrap_err(), ConfigError::InvalidRule);
}

#[test]
fn zero_time_window_is_invalid() {
    assert_eq!(Config::new(None, Some(rule(5, 0)), None).unwrap_err(), ConfigError::InvalidRule);
}

#[test]
fn zero_route_rule_is_invalid() {
    let routes = vec![("/a".to_string(), rule(0, 1))];
    assert_eq!(Config::new(None, None, Some(routes)).unwrap_err(), ConfigError::InvalidRule);
}

#[test]
fn malformed_route_is_invalid() {
    let routes = vec![("/a b".to_string(), rule(1, 1))];
    assert_eq!(Config::new(None, None, Some(routes)).unwrap_err(), ConfigError::InvalidRoute);
}

#[test]
fn rule_faults_are_reported_before_route_faults() {
    let routes = vec![("/a b".to_string(), rule(0, 1))];
    assert_eq!(Config::new(None, None, Some(routes)).unwrap_err(), ConfigError::InvalidRule);
}

#[test]
fn route_keys_are_canonicalized_at_load_time() {
    let routes = vec![
        ("HTTP://example.com/x".to_string(), rule(1, 5)),
        ("http://example.com".to_string(), rule(2, 6)),
    ];
    let config = Config::new(None, None, Some(routes)).unwrap();
    // The scheme is lowercased and the empty path becomes the root path,
    // so lookups match the canonical text, not the raw source text.
    assert_eq!(config.route_rule("http://example.com/x"), Some(rule(1, 5)));
    assert_eq!(config.route_rule("HTTP://example.com/x"), None);
    assert_eq!(config.route_rule("http://example.com/"), Some(rule(2, 6)));
    assert_eq!(config.route_rule("http://example.com"), None);
}

#[test]
fn later_duplicate_route_replaces_earlier() {
    let routes = vec![("/a".to_string(), rule(1, 5)), ("/a".to_string(), rule(9, 9))];
    let config = Config::new(None, None, Some(routes)).unwrap();
    assert_eq!(config.route_rule("/a"), Some(rule(9, 9)));
}
