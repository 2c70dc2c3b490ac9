//! An in-process model of the shared counter store: per key, the
//! timestamps of the admissions still recorded for that key. Running
//! the sliding-window step against it is sequential, which is exactly
//! the guarantee a real store's atomic scripted execution provides:
//! any burst of concurrent steps on one key behaves as some
//! serialization of them.

use vstd::prelude::*;
use vstd::string::StringExecFns;
use crate::config::ConfigRecord;
use crate::table::assoc_find;
use crate::table::assoc_lookup;
use crate::table::assoc_unique;
use crate::table::lemma_assoc_found_at;
use crate::table::lemma_assoc_none;
use crate::table::lemma_assoc_update_found;
use crate::table::lemma_assoc_update_fresh;
use crate::window::window_admit;
use crate::window::window_admits;
use crate::window::window_next;

verus! {

/// The shared store, modeled in process memory: one ordered set of
/// admission timestamps per key. Its view is total: a key never written
/// holds the empty record set, matching a store where absent keys and
/// fully trimmed keys are indistinguishable.
pub struct MemoryStore {
    entries: Vec<(String, Vec<u64>)>,
}

impl View for MemoryStore {
    type V = Map<Seq<char>, Seq<u64>>;

    closed spec fn view(&self) -> Map<Seq<char>, Seq<u64>> {
        Map::new(
            |key: Seq<char>| true,
            |key: Seq<char>|
                match assoc_lookup(self.entries@, key) {
                    Some(records) => records@,
                    None => Seq::empty(),
                },
        )
    }
}

impl MemoryStore {
    /// Each key appears at most once.
    pub closed spec fn wf(self) -> bool {
        assoc_unique(self.entries@)
    }

    /// A fresh store: every key holds no records.
    pub fn new() -> (store: MemoryStore)
        ensures
            store.wf(),
            forall|key: Seq<char>| store@[key] == Seq::<u64>::empty(),
    {
        MemoryStore { entries: Vec::new() }
    }

    /// One atomic sliding-window step against this store: trim the
    /// key's stale records, count the rest, admit and record the
    /// request when the count is below the rule's maximum. No other
    /// key changes.
    pub fn check(&mut self, key: &str, rule: &ConfigRecord, now: u64) -> (admitted: bool)
        requires
            old(self).wf(),
        ensures
            final(self).wf(),
            admitted == window_admits(old(self)@[key@], now, *rule),
            final(self)@ == old(self)@.insert(key@, window_next(old(self)@[key@], now, *rule)),
    {
        let key_string = String::from_str(key);
        let ghost entries0 = self.entries@;
        match assoc_find(&self.entries, &key_string) {
            Some(i) => {
                let (found_key, mut records) = self.entries.remove(i);
                let admitted = window_admit(&mut records, now, rule);
                self.entries.push((found_key, records));
                proof {
                    lemma_assoc_found_at(entries0, i as int, key@);
                    assert(self.entries@.drop_last() =~= entries0.remove(i as int));
                    lemma_assoc_update_found(
                        entries0,
                        self.entries@,
                        i as int,
                        key@,
                        self.entries@.last().1,
                    );
                    assert(self@ =~= old(self)@.insert(
                        key@,
                        window_next(old(self)@[key@], now, *rule),
                    ));
                }
                admitted
            },
            None => {
                let mut records: Vec<u64> = Vec::new();
                let admitted = window_admit(&mut records, now, rule);
                self.entries.push((key_string, records));
                proof {
                    assert(self.entries@.drop_last() =~= entries0);
                    lemma_assoc_none(entries0, key@);
                    lemma_assoc_update_fresh(
                        entries0,
                        self.entries@,
                        key@,
                        self.entries@.last().1,
                    );
                    assert(self@ =~= old(self)@.insert(
                        key@,
                        window_next(old(self)@[key@], now, *rule),
                    ));
                }
                admitted
            },
        }
    }
}

} // verus!
