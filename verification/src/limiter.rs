//! The rate-limiter core: resolve which scopes apply to a request,
//! run the sliding-window step once per applicable scope, and
//! aggregate the verdict. A request must pass every configured
//! applicable scope to be admitted; the first rejection short-circuits
//! the remaining checks.

use vstd::prelude::*;
use crate::config::Config;
use crate::config::ConfigRecord;
use crate::error::StoreError;
use crate::key;
use crate::key::client_key_spec;
use crate::key::global_key_spec;
use crate::key::route_key_spec;
use crate::store::MemoryStore;
use crate::window::attempt_admitted;
use crate::window::burst_within_window;
use crate::window::lemma_first_n_admitted;
use crate::window::run_window;
use crate::window::window_admits;
use crate::window::window_next;

verus! {

/// The binary outcome of an evaluation.
#[derive(Clone, Copy, Debug, PartialEq, Eq, Structural)]
pub enum Verdict {
    /// Every applicable scope admitted the request.
    Allowed,
    /// Some applicable scope rejected the request.
    Denied,
}

/// What one sliding-window script invocation reported.
#[derive(Clone, Copy, Debug, PartialEq, Eq, Structural)]
pub enum ScriptOutcome {
    /// The request was counted and admitted for this scope.
    Admitted,
    /// The scope's window is full; nothing was recorded.
    Rejected,
}

/// One scope's check: the counter key to consult and the rule to
/// enforce on it.
pub struct ScopeCheck {
    /// The key naming the scope's counter in the store.
    pub key: String,
    /// The rule enforced on that counter.
    pub rule: ConfigRecord,
}

/// The checks a request must pass, in evaluation order: global, then
/// client, then route, each present exactly when configured and, for
/// the route scope, when the route carries a rule.
pub open spec fn plan_spec(config: Config, client: Seq<char>, route: Seq<char>) -> Seq<
    (Seq<char>, ConfigRecord),
> {
    let global_part = if config.global is Some {
        seq![(global_key_spec(), config.global->0)]
    } else {
        Seq::<(Seq<char>, ConfigRecord)>::empty()
    };
    let client_part = if config.ip is Some {
        seq![(client_key_spec(client), config.ip->0)]
    } else {
        Seq::<(Seq<char>, ConfigRecord)>::empty()
    };
    let route_part = match config.route_rule_spec(route) {
        Some(rule) => seq![(route_key_spec(route), rule)],
        None => Seq::<(Seq<char>, ConfigRecord)>::empty(),
    };
    global_part + client_part + route_part
}

/// Resolve the scopes applicable to a request into the ordered list of
/// checks to run against the store.
pub fn plan_checks(config: &Config, client: &str, route: &str) -> (checks: Vec<ScopeCheck>)
    ensures
        checks@.len() == plan_spec(*config, client@, route@).len(),
        forall|i: int|
            0 <= i < checks@.len() ==> (#[trigger] checks@[i]).key@ == plan_spec(
                *config,
                client@,
                route@,
            )[i].0 && checks@[i].rule == plan_spec(*config, client@, route@)[i].1,
{
    let mut checks: Vec<ScopeCheck> = Vec::new();
    if let Some(rule) = &config.global {
        checks.push(ScopeCheck { key: key::global(), rule: *rule });
    }
    if let Some(rule) = &config.ip {
        checks.push(ScopeCheck { key: key::ip(client), rule: *rule });
    }
    if let Some(rule) = config.route_rule(route) {
        checks.push(ScopeCheck { key: key::route(route), rule });
    }
    checks
}

/// Run the listed checks in order against a store: each one trims and
/// counts its key's window, recording the admission when the count is
/// below the rule's maximum; the first rejection stops the run with a
/// denial, leaving the remaining keys untouched.
pub open spec fn run_checks(
    store: Map<Seq<char>, Seq<u64>>,
    checks: Seq<(Seq<char>, ConfigRecord)>,
    now: u64,
) -> (Map<Seq<char>, Seq<u64>>, Verdict)
    decreases checks.len(),
{
    if checks.len() == 0 {
        (store, Verdict::Allowed)
    } else {
        let key = checks[0].0;
        let rule = checks[0].1;
        let stepped = store.insert(key, window_next(store[key], now, rule));
        if window_admits(store[key], now, rule) {
            run_checks(stepped, checks.drop_first(), now)
        } else {
            (stepped, Verdict::Denied)
        }
    }
}

/// Evaluate a request against the policy at the store's time `now`:
/// run the sliding-window step for every applicable scope in order,
/// short-circuiting on the first rejection.
pub fn evaluate_at(
    store: &mut MemoryStore,
    config: &Config,
    client: &str,
    route: &str,
    now: u64,
) -> (verdict: Verdict)
    requires
        old(store).wf(),
    ensures
        final(store).wf(),
        verdict == run_checks(old(store)@, plan_spec(*config, client@, route@), now).1,
        final(store)@ == run_checks(old(store)@, plan_spec(*config, client@, route@), now).0,
{
    let checks = plan_checks(config, client, route);
    let ghost plan = plan_spec(*config, client@, route@);
    proof {
        assert(plan.skip(0) =~= plan);
    }
    let mut i: usize = 0;
    while i < checks.len()
        invariant
            store.wf(),
            plan == plan_spec(*config, client@, route@),
            0 <= i <= checks@.len(),
            checks@.len() == plan.len(),
            forall|j: int|
                0 <= j < checks@.len() ==> (#[trigger] checks@[j]).key@ == plan[j].0
                    && checks@[j].rule == plan[j].1,
            run_checks(old(store)@, plan, now) == run_checks(store@, plan.skip(i as int), now),
        decreases checks@.len() - i,
    {
        proof {
            assert(plan.skip(i as int)[0] == plan[i as int]);
            assert(plan.skip(i as int).drop_first() =~= plan.skip(i as int + 1));
        }
        let admitted = store.check(checks[i].key.as_str(), &checks[i].rule, now);
        if !admitted {
            return Verdict::Denied;
        }
        i += 1;
    }
    proof {
        assert(plan.skip(checks@.len() as int) =~= Seq::<(Seq<char>, ConfigRecord)>::empty());
    }
    Verdict::Allowed
}

/// A request for which no scope is configured is always allowed, and
/// the store is left untouched: with no global rule, no client rule
/// and no rule for the request's route, evaluation cannot deny it or
/// consume anything, however often it repeats.
pub proof fn lemma_unconfigured_allowed(
    store: Map<Seq<char>, Seq<u64>>,
    config: Config,
    client: Seq<char>,
    route: Seq<char>,
    now: u64,
)
    requires
        config.global is None,
        config.ip is None,
        config.route_rule_spec(route) is None,
    ensures
        run_checks(store, plan_spec(config, client, route), now) == (store, Verdict::Allowed),
{
    assert(plan_spec(config, client, route) =~= Seq::<(Seq<char>, ConfigRecord)>::empty());
}

/// The store contents after a sequence of evaluations of the same
/// request shape, one per time, in order.
pub open spec fn run_evaluations(
    store: Map<Seq<char>, Seq<u64>>,
    config: Config,
    client: Seq<char>,
    route: Seq<char>,
    times: Seq<u64>,
) -> Map<Seq<char>, Seq<u64>>
    decreases times.len(),
{
    if times.len() == 0 {
        store
    } else {
        run_checks(
            run_evaluations(store, config, client, route, times.drop_last()),
            plan_spec(config, client, route),
            times.last(),
        ).0
    }
}

/// The verdict of the evaluation at position `i` of such a sequence.
pub open spec fn evaluation_verdict(
    store: Map<Seq<char>, Seq<u64>>,
    config: Config,
    client: Seq<char>,
    route: Seq<char>,
    times: Seq<u64>,
    i: int,
) -> Verdict {
    run_checks(
        run_evaluations(store, config, client, route, times.take(i)),
        plan_spec(config, client, route),
        times[i],
    ).1
}

/// Running a single check is one sliding-window step on its key.
proof fn lemma_run_single(
    store: Map<Seq<char>, Seq<u64>>,
    key: Seq<char>,
    rule: ConfigRecord,
    now: u64,
)
    ensures
        run_checks(store, seq![(key, rule)], now) == (
            store.insert(key, window_next(store[key], now, rule)),
            if window_admits(store[key], now, rule) {
                Verdict::Allowed
            } else {
                Verdict::Denied
            },
        ),
{
    let plan = seq![(key, rule)];
    assert(plan[0] == (key, rule));
    assert(plan.drop_first() =~= Seq::<(Seq<char>, ConfigRecord)>::empty());
    let stepped = store.insert(key, window_next(store[key], now, rule));
    assert(run_checks(stepped, plan.drop_first(), now) == (stepped, Verdict::Allowed));
}

/// For a policy with only a global rule, evaluation reduces to the
/// sliding-window run on the global key alone.
proof fn lemma_global_evaluations(
    store: Map<Seq<char>, Seq<u64>>,
    config: Config,
    client: Seq<char>,
    route: Seq<char>,
    times: Seq<u64>,
    k: int,
)
    requires
        config.global is Some,
        config.ip is None,
        config.route_rule_spec(route) is None,
        store.contains_key(global_key_spec()),
        store[global_key_spec()] == Seq::<u64>::empty(),
        0 <= k <= times.len(),
    ensures
        run_evaluations(store, config, client, route, times.take(k)) == store.insert(
            global_key_spec(),
            run_window(Seq::empty(), times.take(k), config.global->0),
        ),
    decreases k,
{
    let rule = config.global->0;
    let key = global_key_spec();
    assert(plan_spec(config, client, route) =~= seq![(key, rule)]);
    if k == 0 {
        assert(times.take(0) =~= Seq::<u64>::empty());
        assert(store.insert(key, Seq::empty()) =~= store);
    } else {
        lemma_global_evaluations(store, config, client, route, times, k - 1);
        assert(times.take(k).drop_last() =~= times.take(k - 1));
        assert(times.take(k).last() == times[k - 1]);
        let previous = store.insert(key, run_window(Seq::empty(), times.take(k - 1), rule));
        lemma_run_single(previous, key, rule, times[k - 1]);
        assert(previous.insert(
            key,
            window_next(previous[key], times[k - 1], rule),
        ) =~= store.insert(key, run_window(Seq::empty(), times.take(k), rule)));
    }
}

/// The first-admissions law, lifted to whole evaluations: under a
/// policy with only a global rule, the evaluations of an ordered burst
/// on a store whose global counter is fresh are allowed exactly while
/// the rule has room — the attempt at position `i` is allowed
/// precisely when `i < max_requests`.
pub proof fn lemma_global_burst(
    store: Map<Seq<char>, Seq<u64>>,
    config: Config,
    client: Seq<char>,
    route: Seq<char>,
    times: Seq<u64>,
    i: int,
)
    requires
        config.global is Some && config.global->0.wf(),
        config.ip is None,
        config.route_rule_spec(route) is None,
        store.contains_key(global_key_spec()),
        store[global_key_spec()] == Seq::<u64>::empty(),
        burst_within_window(times, config.global->0.time_window),
        0 <= i < times.len(),
    ensures
        evaluation_verdict(store, config, client, route, times, i) == if i
            < config.global->0.max_requests {
            Verdict::Allowed
        } else {
            Verdict::Denied
        },
{
    let rule = config.global->0;
    let key = global_key_spec();
    assert(plan_spec(config, client, route) =~= seq![(key, rule)]);
    lemma_global_evaluations(store, config, client, route, times, i);
    let state = store.insert(key, run_window(Seq::empty(), times.take(i), rule));
    lemma_run_single(state, key, rule, times[i]);
    assert(window_admits(state[key], times[i], rule) == attempt_admitted(times, i, rule));
    lemma_first_n_admitted(times, rule, i);
}

/// The decode of one script invocation's reply: code 0 admits, code 1
/// rejects, and anything else is a malformed response that must
/// surface as a store fault, never as either verdict.
pub fn interpret_script_result(code: i64) -> (outcome: Result<ScriptOutcome, StoreError>)
    ensures
        code == 0 ==> outcome == Ok::<ScriptOutcome, StoreError>(ScriptOutcome::Admitted),
        code == 1 ==> outcome == Ok::<ScriptOutcome, StoreError>(ScriptOutcome::Rejected),
        !(code == 0 || code == 1) ==> outcome == Err::<ScriptOutcome, StoreError>(
            StoreError::MalformedResponse,
        ),
{
    if code == 0 {
        Ok(ScriptOutcome::Admitted)
    } else if code == 1 {
        Ok(ScriptOutcome::Rejected)
    } else {
        Err(StoreError::MalformedResponse)
    }
}

} // verus!

