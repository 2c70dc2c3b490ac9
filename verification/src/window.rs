//! The sliding-window admission check: the atomic step a counter store
//! executes for one key. Given the key's recorded admission timestamps,
//! the store's current time, and a rule, the step trims records that
//! fell out of the window, counts what remains, and admits the request
//! exactly when the count is below the rule's maximum, recording the
//! admission. Rejection trims but records nothing.

use vstd::prelude::*;
use crate::config::ConfigRecord;

verus! {

/// A recorded admission at `record` seconds is still inside the window
/// ending at `now`: strictly newer than `now - window`.
pub open spec fn record_live(record: u64, now: u64, window: usize) -> bool {
    record + window > now
}

/// The records that survive the trim at `now`, in their original order.
pub open spec fn trim_spec(records: Seq<u64>, now: u64, window: usize) -> Seq<u64>
    decreases records.len(),
{
    if records.len() == 0 {
        Seq::empty()
    } else {
        let rest = trim_spec(records.drop_last(), now, window);
        if record_live(records.last(), now, window) {
            rest.push(records.last())
        } else {
            rest
        }
    }
}

/// Whether the step admits: after the trim, fewer than `max_requests`
/// admissions remain in the window.
pub open spec fn window_admits(records: Seq<u64>, now: u64, rule: ConfigRecord) -> bool {
    trim_spec(records, now, rule.time_window).len() < rule.max_requests
}

/// The key's records after the step: the trimmed records, with `now`
/// appended when the request was admitted.
pub open spec fn window_next(records: Seq<u64>, now: u64, rule: ConfigRecord) -> Seq<u64> {
    let trimmed = trim_spec(records, now, rule.time_window);
    if trimmed.len() < rule.max_requests {
        trimmed.push(now)
    } else {
        trimmed
    }
}

/// One execution of the sliding-window step on a key's records. This is
/// the whole algorithm a store runs as a single atomic unit; a store
/// that interleaved two of these steps could admit more than
/// `max_requests` requests per window.
pub fn window_admit(records: &mut Vec<u64>, now: u64, rule: &ConfigRecord) -> (admitted: bool)
    ensures
        admitted == window_admits(old(records)@, now, *rule),
        final(records)@ == window_next(old(records)@, now, *rule),
{
    let window: u64 = rule.time_window as u64;
    let mut kept: Vec<u64> = Vec::new();
    let mut i: usize = 0;
    while i < records.len()
        invariant
            0 <= i <= records@.len(),
            kept@ == trim_spec(records@.subrange(0, i as int), now, rule.time_window),
            window == rule.time_window as u64,
        decreases records@.len() - i,
    {
        let record = records[i];
        let live = if now >= window { record > now - window } else { true };
        proof {
            let prefix = records@.subrange(0, i + 1);
            assert(prefix.drop_last() =~= records@.subrange(0, i as int));
            assert(prefix.last() == records@[i as int]);
        }
        if live {
            kept.push(record);
        }
        i += 1;
    }
    proof {
        assert(records@.subrange(0, records@.len() as int) =~= records@);
    }
    let admitted = kept.len() < rule.max_requests;
    if admitted {
        kept.push(now);
    }
    *records = kept;
    admitted
}

/// A key's records after a sequence of sliding-window steps, one per
/// attempt time, applied in order.
pub open spec fn run_window(records: Seq<u64>, times: Seq<u64>, rule: ConfigRecord) -> Seq<u64>
    decreases times.len(),
{
    if times.len() == 0 {
        records
    } else {
        window_next(run_window(records, times.drop_last(), rule), times.last(), rule)
    }
}

/// Whether the attempt at position `i` of a run starting from no
/// records is admitted.
pub open spec fn attempt_admitted(times: Seq<u64>, i: int, rule: ConfigRecord) -> bool {
    window_admits(run_window(Seq::empty(), times.take(i), rule), times[i], rule)
}

/// The attempt times are ordered and all fall within one window of
/// each other.
pub open spec fn burst_within_window(times: Seq<u64>, window: usize) -> bool {
    forall|a: int, b: int|
        #![trigger times[a], times[b]]
        0 <= a <= b < times.len() ==> times[a] <= times[b] && times[b] < times[a] + window
}

/// Trimming removes nothing when every record is still live.
proof fn lemma_trim_all_live(records: Seq<u64>, now: u64, window: usize)
    requires
        forall|j: int| 0 <= j < records.len() ==> record_live(#[trigger] records[j], now, window),
    ensures
        trim_spec(records, now, window) == records,
    decreases records.len(),
{
    if records.len() > 0 {
        lemma_trim_all_live(records.drop_last(), now, window);
        assert(records.drop_last().push(records.last()) =~= records);
    }
}

/// Trimming never grows the records.
proof fn lemma_trim_le(records: Seq<u64>, now: u64, window: usize)
    ensures
        trim_spec(records, now, window).len() <= records.len(),
    decreases records.len(),
{
    if records.len() > 0 {
        lemma_trim_le(records.drop_last(), now, window);
    }
}

/// Trimming strictly shrinks the records when one of them is stale.
proof fn lemma_trim_dead(records: Seq<u64>, now: u64, window: usize)
    requires
        exists|j: int|
            0 <= j < records.len() && !record_live(#[trigger] records[j], now, window),
    ensures
        trim_spec(records, now, window).len() < records.len(),
    decreases records.len(),
{
    let j = choose|j: int|
        0 <= j < records.len() && !record_live(#[trigger] records[j], now, window);
    if j == records.len() - 1 {
        lemma_trim_le(records.drop_last(), now, window);
    } else {
        assert(0 <= j < records.drop_last().len() && !record_live(
            records.drop_last()[j],
            now,
            window,
        ));
        lemma_trim_dead(records.drop_last(), now, window);
    }
}

/// After a prefix of a burst, the recorded admissions are exactly the
/// first attempts, capped at the rule's maximum.
proof fn lemma_run_prefix(times: Seq<u64>, rule: ConfigRecord, k: int)
    requires
        rule.wf(),
        burst_within_window(times, rule.time_window),
        0 <= k <= times.len(),
    ensures
        run_window(Seq::empty(), times.take(k), rule) == if k < rule.max_requests {
            times.take(k)
        } else {
            times.take(rule.max_requests as int)
        },
    decreases k,
{
    if k == 0 {
        assert(times.take(0) =~= Seq::<u64>::empty());
    } else {
        lemma_run_prefix(times, rule, k - 1);
        let prev = run_window(Seq::empty(), times.take(k - 1), rule);
        let t = times[k - 1];
        assert(times.take(k).drop_last() =~= times.take(k - 1));
        assert(times.take(k).last() == t);
        assert forall|j: int| 0 <= j < prev.len() implies record_live(
            #[trigger] prev[j],
            t,
            rule.time_window,
        ) by {
            assert(prev[j] == times[j]);
            assert(times[j] <= times[k - 1] && times[k - 1] < times[j] + rule.time_window);
        }
        lemma_trim_all_live(prev, t, rule.time_window);
        if k - 1 < rule.max_requests {
            assert(times.take(k - 1).push(t) =~= times.take(k));
        }
    }
}

/// Within any one window, exactly the first `max_requests` attempts on
/// a fresh key are admitted: attempt `i` of an ordered burst succeeds
/// precisely when fewer than `max_requests` attempts came before it.
pub proof fn lemma_first_n_admitted(times: Seq<u64>, rule: ConfigRecord, i: int)
    requires
        rule.wf(),
        burst_within_window(times, rule.time_window),
        0 <= i < times.len(),
    ensures
        attempt_admitted(times, i, rule) == (i < rule.max_requests),
{
    lemma_run_prefix(times, rule, i);
    let state = run_window(Seq::empty(), times.take(i), rule);
    assert forall|j: int| 0 <= j < state.len() implies record_live(
        #[trigger] state[j],
        times[i],
        rule.time_window,
    ) by {
        assert(state[j] == times[j]);
        assert(times[j] <= times[i] && times[i] < times[j] + rule.time_window);
    }
    lemma_trim_all_live(state, times[i], rule.time_window);
}

/// Every state reachable from a fresh key holds at most the rule's
/// maximum of records: an admission only ever lands in a window with
/// room for it.
pub proof fn lemma_run_bounded(times: Seq<u64>, rule: ConfigRecord)
    ensures
        run_window(Seq::empty(), times, rule).len() <= rule.max_requests,
    decreases times.len(),
{
    if times.len() > 0 {
        lemma_run_bounded(times.drop_last(), rule);
        let prev = run_window(Seq::empty(), times.drop_last(), rule);
        lemma_trim_le(prev, times.last(), rule.time_window);
    }
}

/// The window slides rather than resetting: once any recorded
/// admission has aged a full window (in particular, once a full window
/// has passed since the oldest one), a key holding no more than the
/// rule's maximum admits the next request.
pub proof fn lemma_window_slides(records: Seq<u64>, now: u64, rule: ConfigRecord)
    requires
        rule.wf(),
        records.len() <= rule.max_requests,
        exists|j: int|
            0 <= j < records.len() && !record_live(#[trigger] records[j], now, rule.time_window),
    ensures
        window_admits(records, now, rule),
{
    lemma_trim_dead(records, now, rule.time_window);
}

/// Saturation under contention: any serialization of `2 * max_requests`
/// attempts on a fresh key within one window admits exactly the first
/// `max_requests` of them — the store's atomic step makes concurrent
/// bursts behave as such a serialization, so the limit is never
/// overshot however the attempts interleave.
pub proof fn lemma_saturation(times: Seq<u64>, rule: ConfigRecord)
    requires
        rule.wf(),
        times.len() == 2 * rule.max_requests,
        burst_within_window(times, rule.time_window),
    ensures
        forall|i: int|
            0 <= i < times.len() ==> attempt_admitted(times, i, rule) == (i
                < rule.max_requests),
        run_window(Seq::empty(), times, rule).len() == rule.max_requests,
{
    assert forall|i: int| 0 <= i < times.len() implies attempt_admitted(times, i, rule) == (i
        < rule.max_requests) by {
        lemma_first_n_admitted(times, rule, i);
    }
    lemma_run_prefix(times, rule, times.len() as int);
    assert(times.take(times.len() as int) =~= times);
}

} // verus!
