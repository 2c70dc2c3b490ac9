//! Key builder: the deterministic mapping from (scope, identifier) to
//! the store key naming one counter. Distinct scopes and identifiers
//! must never collide, so that every worker sharing the store counts
//! against the same windows.

use vstd::prelude::*;
use vstd::string::StringExecFns;

verus! {

/// The key of the global scope's counter.
pub open spec fn global_key_spec() -> Seq<char> {
    "ratelimit_global"@
}

/// The key of one client's counter.
pub open spec fn client_key_spec(identifier: Seq<char>) -> Seq<char> {
    "ratelimit_client_"@ + identifier
}

/// The key of one route's counter.
pub open spec fn route_key_spec(identifier: Seq<char>) -> Seq<char> {
    "ratelimit_route_"@ + identifier
}

/// Key for the global scope: one counter shared by every request.
pub fn global() -> (key: String)
    ensures
        key@ == global_key_spec(),
{
    String::from_str("ratelimit_global")
}

/// Key for the per-client scope; the identifier is typically the
/// client's remote address rendered as a string.
pub fn ip(identifier: &str) -> (key: String)
    ensures
        key@ == client_key_spec(identifier@),
{
    String::from_str("ratelimit_client_").concat(identifier)
}

/// Key for the per-route scope; the identifier is the canonical
/// route/URI string.
pub fn route(identifier: &str) -> (key: String)
    ensures
        key@ == route_key_spec(identifier@),
{
    String::from_str("ratelimit_route_").concat(identifier)
}

/// Key derivation is injective across and within scopes: the three
/// scope prefixes never produce the same key, even for identical
/// identifier text, and within a scope equal keys mean equal
/// identifiers.
pub proof fn lemma_keys_injective(a: Seq<char>, b: Seq<char>)
    ensures
        global_key_spec() != client_key_spec(a),
        global_key_spec() != route_key_spec(a),
        client_key_spec(a) != route_key_spec(b),
        client_key_spec(a) == client_key_spec(b) ==> a == b,
        route_key_spec(a) == route_key_spec(b) ==> a == b,
{
    reveal_strlit("ratelimit_global");
    reveal_strlit("ratelimit_client_");
    reveal_strlit("ratelimit_route_");
    assert(global_key_spec().len() == 16);
    assert(client_key_spec(a).len() == 17 + a.len());
    if global_key_spec() == route_key_spec(a) {
        assert(global_key_spec()[10] == 'g');
        assert(route_key_spec(a)[10] == 'r');
    }
    if client_key_spec(a) == route_key_spec(b) {
        assert(client_key_spec(a)[10] == 'c');
        assert(route_key_spec(b)[10] == 'r');
    }
    lemma_prefixed_injective("ratelimit_client_"@, a, b);
    lemma_prefixed_injective("ratelimit_route_"@, a, b);
}

/// Appending to a fixed prefix is injective.
proof fn lemma_prefixed_injective(prefix: Seq<char>, a: Seq<char>, b: Seq<char>)
    ensures
        prefix + a == prefix + b ==> a == b,
{
    if prefix + a == prefix + b {
        assert((prefix + a).len() == prefix.len() + a.len());
        assert((prefix + b).len() == prefix.len() + b.len());
        assert(a.len() == b.len());
        assert forall|i: int| 0 <= i < a.len() implies a[i] == b[i] by {
            assert((prefix + a)[prefix.len() + i] == a[i]);
            assert((prefix + b)[prefix.len() + i] == b[i]);
        }
        assert(a =~= b);
    }
}

} // verus!
