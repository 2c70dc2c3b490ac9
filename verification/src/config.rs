//! Typed representation of rate-limit policy: an optional global rule,
//! an optional per-client rule, and an optional table of per-route
//! rules keyed by canonical URI strings. Route identifiers are parsed
//! and canonicalized once, when the policy is built, so that request
//! time needs only a plain string-equality lookup.

use vstd::prelude::*;
use vstd::string::StringExecFns;
use crate::error::ConfigError;
use crate::table::assoc_find;
use crate::table::assoc_lookup;
use crate::table::assoc_unique;
use crate::table::lemma_assoc_found_at;
use crate::table::lemma_assoc_none;
use crate::table::lemma_assoc_update_found;
use crate::table::lemma_assoc_update_fresh;

verus! {

/// One rate-limit rule: at most `max_requests` admitted requests per
/// rolling `time_window`-second interval.
#[derive(Clone, Copy, Debug, PartialEq, Eq, Structural)]
pub struct ConfigRecord {
    /// How many requests can be made in a time window.
    pub max_requests: usize,
    /// Time window in seconds.
    pub time_window: usize,
}

impl ConfigRecord {
    /// A usable rule has a positive maximum and a positive window.
    pub open spec fn wf(self) -> bool {
        self.max_requests > 0 && self.time_window > 0
    }

    /// Whether this rule is usable.
    pub fn is_wf(&self) -> (usable: bool)
        ensures
            usable == self.wf(),
    {
        self.max_requests > 0 && self.time_window > 0
    }
}

/// The canonical text of a URI reference, when the source parses as
/// one: a function of the source text alone.
pub uninterp spec fn uri_canon(source: Seq<char>) -> Option<Seq<char>>;

/// Relies on `poem::http::Uri`: its `FromStr` accepts exactly the
/// well-formed URI references, and its `Display` renders the parsed
/// value back as text (for instance lowercasing a standard scheme and
/// writing the root path where the path was empty). Which strings
/// parse, and what the rendering is, depend on the source text alone;
/// both are named by `uri_canon`.
#[verifier::external_body]
fn canonical_route(source: &str) -> (canonical: Option<String>)
    ensures
        canonical is Some <==> uri_canon(source@) is Some,
        canonical is Some ==> canonical->0@ == uri_canon(source@)->0,
{
    match source.parse::<poem::http::Uri>() {
        Ok(uri) => Some(uri.to_string()),
        Err(_) => None,
    }
}

/// The rule that a sequence of raw route entries gives a canonical
/// key, the later entry winning when two raw routes canonicalize to
/// the same key.
pub open spec fn canon_lookup(entries: Seq<(String, ConfigRecord)>, key: Seq<char>) -> Option<
    ConfigRecord,
>
    decreases entries.len(),
{
    if entries.len() == 0 {
        None
    } else if uri_canon(entries.last().0@) == Some(key) {
        Some(entries.last().1)
    } else {
        canon_lookup(entries.drop_last(), key)
    }
}

/// Rate-limit policy: any subset of the three scopes may be
/// configured; an absent scope imposes no limit.
#[derive(Clone, Debug)]
pub struct Config {
    /// Limit for all requests.
    pub global: Option<ConfigRecord>,
    /// Limit for a given client.
    pub ip: Option<ConfigRecord>,
    /// Limit for specific routes, keyed by canonical URI text.
    pub route: Option<Vec<(String, ConfigRecord)>>,
}

/// Every present rule is usable.
pub open spec fn rules_ok(
    global: Option<ConfigRecord>,
    ip: Option<ConfigRecord>,
    route: Option<Vec<(String, ConfigRecord)>>,
) -> bool {
    &&& (global is Some ==> global->0.wf())
    &&& (ip is Some ==> ip->0.wf())
    &&& (route is Some ==> forall|j: int|
        0 <= j < route->0@.len() ==> (#[trigger] route->0@[j]).1.wf())
}

/// Every raw route identifier parses as a URI reference.
pub open spec fn routes_ok(route: Option<Vec<(String, ConfigRecord)>>) -> bool {
    route is Some ==> forall|j: int|
        0 <= j < route->0@.len() ==> uri_canon((#[trigger] route->0@[j]).0@) is Some
}

impl Config {
    /// A well-formed policy: every rule usable, route keys unique.
    pub open spec fn wf(self) -> bool {
        &&& (self.global is Some ==> self.global->0.wf())
        &&& (self.ip is Some ==> self.ip->0.wf())
        &&& (self.route is Some ==> assoc_unique(self.route->0@) && forall|j: int|
            0 <= j < self.route->0@.len() ==> (#[trigger] self.route->0@[j]).1.wf())
    }

    /// The rule configured for a route identifier, if any.
    pub open spec fn route_rule_spec(self, route: Seq<char>) -> Option<ConfigRecord> {
        match self.route {
            Some(table) => assoc_lookup(table@, route),
            None => None,
        }
    }

    /// Build a policy from its parts, validating every rule and
    /// parsing every route identifier into canonical URI text. Fails
    /// exactly when a present rule is unusable or a route identifier
    /// is not a URI reference; a malformed route is a load-time
    /// failure, never a per-request one.
    pub fn new(
        global: Option<ConfigRecord>,
        ip: Option<ConfigRecord>,
        route: Option<Vec<(String, ConfigRecord)>>,
    ) -> (result: Result<Config, ConfigError>)
        ensures
            result is Ok <==> rules_ok(global, ip, route) && routes_ok(route),
            result == Err::<Config, ConfigError>(ConfigError::InvalidRule) <==> !rules_ok(
                global,
                ip,
                route,
            ),
            result == Err::<Config, ConfigError>(ConfigError::InvalidRoute) <==> rules_ok(
                global,
                ip,
                route,
            ) && !routes_ok(route),
            result is Ok ==> {
                let built = result->Ok_0;
                &&& built.wf()
                &&& built.global == global
                &&& built.ip == ip
                &&& (built.route is Some <==> route is Some)
                &&& (route is Some ==> forall|key: Seq<char>|
                    built.route_rule_spec(key) == canon_lookup(route->0@, key))
            },
    {
        if let Some(rule) = &global {
            if !rule.is_wf() {
                return Err(ConfigError::InvalidRule);
            }
        }
        if let Some(rule) = &ip {
            if !rule.is_wf() {
                return Err(ConfigError::InvalidRule);
            }
        }
        if let Some(entries) = &route {
            let mut j: usize = 0;
            while j < entries.len()
                invariant
                    route is Some && route->0 == *entries,
                    0 <= j <= entries@.len(),
                    forall|x: int| 0 <= x < j ==> (#[trigger] entries@[x]).1.wf(),
                decreases entries@.len() - j,
            {
                if !entries[j].1.is_wf() {
                    return Err(ConfigError::InvalidRule);
                }
                j += 1;
            }
        }
        let built_route = match route {
            None => None,
            Some(entries) => match build_route_table(entries) {
                Ok(table) => Some(table),
                Err(fault) => {
                    return Err(fault);
                },
            },
        };
        Ok(Config { global, ip, route: built_route })
    }

    /// The rule configured for a route identifier, if any: an exact
    /// match against the table's canonical keys.
    pub fn route_rule(&self, route: &str) -> (rule: Option<ConfigRecord>)
        ensures
            rule == self.route_rule_spec(route@),
    {
        match &self.route {
            None => None,
            Some(table) => {
                let key = String::from_str(route);
                match assoc_find(table, &key) {
                    Some(i) => {
                        proof {
                            lemma_assoc_found_at(table@, i as int, route@);
                        }
                        Some(table[i].1)
                    },
                    None => {
                        proof {
                            lemma_assoc_none(table@, route@);
                        }
                        None
                    },
                }
            },
        }
    }
}

/// Canonicalize every raw route entry, later entries replacing earlier
/// ones that canonicalize to the same key.
fn build_route_table(entries: Vec<(String, ConfigRecord)>) -> (result: Result<
    Vec<(String, ConfigRecord)>,
    ConfigError,
>)
    requires
        forall|j: int| 0 <= j < entries@.len() ==> (#[trigger] entries@[j]).1.wf(),
    ensures
        result is Ok <==> routes_ok(Some(entries)),
        result is Err ==> result == Err::<Vec<(String, ConfigRecord)>, ConfigError>(
            ConfigError::InvalidRoute,
        ),
        result is Ok ==> {
            let table = result->Ok_0;
            &&& assoc_unique(table@)
            &&& (forall|j: int| 0 <= j < table@.len() ==> (#[trigger] table@[j]).1.wf())
            &&& (forall|key: Seq<char>|
                assoc_lookup(table@, key) == canon_lookup(entries@, key))
        },
{
    let mut table: Vec<(String, ConfigRecord)> = Vec::new();
    let mut k: usize = 0;
    while k < entries.len()
        invariant
            0 <= k <= entries@.len(),
            forall|j: int| 0 <= j < entries@.len() ==> (#[trigger] entries@[j]).1.wf(),
            forall|x: int| 0 <= x < k ==> uri_canon((#[trigger] entries@[x]).0@) is Some,
            assoc_unique(table@),
            forall|j: int| 0 <= j < table@.len() ==> (#[trigger] table@[j]).1.wf(),
            forall|key: Seq<char>|
                assoc_lookup(table@, key) == canon_lookup(entries@.subrange(0, k as int), key),
        decreases entries@.len() - k,
    {
        let ghost table0 = table@;
        let rule = entries[k].1;
        match canonical_route(entries[k].0.as_str()) {
            None => {
                return Err(ConfigError::InvalidRoute);
            },
            Some(canonical) => {
                match assoc_find(&table, &canonical) {
                    Some(pos) => {
                        let _replaced = table.remove(pos);
                        table.push((canonical, rule));
                        proof {
                            assert(table@.drop_last() =~= table0.remove(pos as int));
                            lemma_assoc_update_found(
                                table0,
                                table@,
                                pos as int,
                                table@.last().0@,
                                rule,
                            );
                        }
                    },
                    None => {
                        table.push((canonical, rule));
                        proof {
                            assert(table@.drop_last() =~= table0);
                            lemma_assoc_update_fresh(table0, table@, table@.last().0@, rule);
                        }
                    },
                }
                proof {
                    let prefix = entries@.subrange(0, k + 1);
                    assert(prefix.drop_last() =~= entries@.subrange(0, k as int));
                    assert(prefix.last() == entries@[k as int]);
                    assert forall|key: Seq<char>|
                        assoc_lookup(table@, key) == canon_lookup(prefix, key) by {
                        if uri_canon(entries@[k as int].0@) == Some(key) {
                            assert(key == table@.last().0@);
                        } else {
                            assert(key != table@.last().0@);
                        }
                    }
                }
            },
        }
        k += 1;
    }
    proof {
        assert(entries@.subrange(0, entries@.len() as int) =~= entries@);
    }
    Ok(table)
}

} // verus!
