use poem_ratelimit::key;

#[test]
fn global_key_text() {
    assert_eq!(key::global(), "ratelimit_global");
}

#[test]
fn client_key_text() {
    assert_eq!(key::ip("127.0.0.1:9000"), "ratelimit_client_127.0.0.1:9000");
    assert_eq!(key::ip(""), "ratelimit_client_");
}

#[test]
fn route_key_text() {
    assert_eq!(key::route("/login"), "ratelimit_route_/login");
}

#[test]
fn keys_distinct_across_scopes_for_same_identifier() {
    let identifier = "x";
    let global = key::global();
    let client = key::ip(identifier);
    let route = key::route(identifier);
    assert_ne!(global, client);
    assert_ne!(global, route);
    assert_ne!(client, route);
}

#[test]
fn keys_distinct_even_for_empty_identifier() {
    assert_ne!(key::global(), key::ip(""));
    assert_ne!(key::global(), key::route(""));
    assert_ne!(key::ip(""), key::route(""));
}
