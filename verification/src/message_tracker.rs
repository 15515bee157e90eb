//! The notices about unknown devices that await a reaction: message id to the device the
//! notice is about, with the time it was sent, so that old notices can be forgotten.
use std::collections::HashMap;
use vstd::prelude::*;

use crate::mac::MacAddress;

verus! {

broadcast use vstd::std_specs::hash::group_hash_axioms;

/// A notice that awaits a reaction.
#[derive(Debug, Clone, Copy)]
pub struct TrackedMessage {
    pub mac_address: MacAddress,
    /// When the notice was sent, in milliseconds on the tracker's monotonic clock.
    pub inserted_at: u64,
}

/// How long a notice is remembered, in milliseconds (one hour).
pub const DEFAULT_TTL_MILLIS: u64 = 3_600_000;

/// How often forgotten notices are swept, in milliseconds (one minute).
pub const CLEANUP_INTERVAL_MILLIS: u64 = 60_000;

/// The notices that await a reaction, by message id.
#[derive(Debug)]
pub struct TrackedMessages {
    map: HashMap<u64, TrackedMessage>,
}

impl View for TrackedMessages {
    type V = Map<u64, TrackedMessage>;

    closed spec fn view(&self) -> Map<u64, TrackedMessage> {
        self.map@
    }
}

/// The notices of `m` sent at `cutoff` or later.
pub open spec fn fresh_messages(m: Map<u64, TrackedMessage>, cutoff: u64) -> Map<u64, TrackedMessage> {
    m.restrict(m.dom().filter(|k: u64| m[k].inserted_at >= cutoff))
}

impl TrackedMessages {
    /// No notice.
    pub fn new() -> (r: TrackedMessages)
        ensures
            r@ == Map::<u64, TrackedMessage>::empty(),
    {
        TrackedMessages { map: HashMap::new() }
    }

    /// Remembers that message `message_id`, sent at `now`, is about `mac_address`.
    pub fn track(&mut self, message_id: u64, mac_address: MacAddress, now: u64)
        ensures
            final(self)@ == old(self)@.insert(
                message_id,
                TrackedMessage { mac_address, inserted_at: now },
            ),
    {
        self.map.insert(message_id, TrackedMessage { mac_address, inserted_at: now });
    }

    /// The device that message `message_id` is about, if it is remembered.
    pub fn get(&self, message_id: u64) -> (r: Option<MacAddress>)
        ensures
            r == (if self@.contains_key(message_id) {
                Some(self@[message_id].mac_address)
            } else {
                None::<MacAddress>
            }),
    {
        match self.map.get(&message_id) {
            Some(entry) => Some(entry.mac_address),
            None => None,
        }
    }

    /// Forgets message `message_id`; returns the device it was about, if it was remembered.
    pub fn remove(&mut self, message_id: u64) -> (r: Option<MacAddress>)
        ensures
            final(self)@ == old(self)@.remove(message_id),
            r == (if old(self)@.contains_key(message_id) {
                Some(old(self)@[message_id].mac_address)
            } else {
                None::<MacAddress>
            }),
    {
        match self.map.remove(&message_id) {
            Some(entry) => Some(entry.mac_address),
            None => None,
        }
    }

    /// Forgets the notices sent before `cutoff`.
    pub fn retain_sent_since(&mut self, cutoff: u64)
        ensures
            final(self)@ == fresh_messages(old(self)@, cutoff),
    {
        let ghost before = self.map@;
        let mut stale: Vec<u64> = Vec::new();
        for k in it: self.map.keys()
            invariant
                self.map@ == before,
                it.seq().unref().to_set() == before.dom(),
                it.seq().no_duplicates(),
                forall|j: int|
                    0 <= j < stale@.len() ==> #[trigger] before.contains_key(stale@[j])
                        && before[stale@[j]].inserted_at < cutoff,
                forall|j: int|
                    0 <= j < it.index() && before[*it.seq()[j]].inserted_at < cutoff
                        ==> stale@.contains(*#[trigger] it.seq()[j]),
        {
            let key = *k;
            let ghost idx = it.index();
            let ghost old_stale = stale@;
            assert(*it.seq()[idx] == key);
            assert(it.seq().unref().to_set().contains(key)) by {
                assert(it.seq().unref()[idx] == key);
            }
            let stale_now = match self.map.get(&key) {
                Some(entry) => entry.inserted_at < cutoff,
                None => false,
            };
            if stale_now {
                stale.push(key);
            }
            proof {
                assert forall|j: int|
                    0 <= j < idx + 1 && before[*it.seq()[j]].inserted_at < cutoff implies stale@.contains(
                    *#[trigger] it.seq()[j],
                ) by {
                    if j < idx {
                        let w = choose|w: int| 0 <= w < old_stale.len() && old_stale[w] == *it.seq()[j];
                        assert(stale@[w] == old_stale[w]);
                    } else {
                        assert(stale@[stale@.len() - 1] == key);
                    }
                }
            }
        }
        let ghost all_keys = self.map@.dom();
        let mut i: usize = 0;
        while i < stale.len()
            invariant
                i <= stale@.len(),
                forall|j: int|
                    0 <= j < stale@.len() ==> #[trigger] before.contains_key(stale@[j])
                        && before[stale@[j]].inserted_at < cutoff,
                forall|k: u64|
                    before.contains_key(k) && before[k].inserted_at < cutoff ==> stale@.contains(
                        k,
                    ),
                self.map@ == before.remove_keys(Set::new(|k: u64| exists|j: int| 0 <= j < i && stale@[j] == k)),
            decreases stale.len() - i,
        {
            let key = stale[i];
            self.map.remove(&key);
            proof {
                assert(self.map@ =~= before.remove_keys(
                    Set::new(|k: u64| exists|j: int| 0 <= j < i + 1 && stale@[j] == k),
                ));
            }
            i = i + 1;
        }
        proof {
            let removed = Set::new(|k: u64| exists|j: int| 0 <= j < stale@.len() && stale@[j] == k);
            assert forall|k: u64| before.contains_key(k) && before[k].inserted_at < cutoff implies #[trigger] removed.contains(k) by {
                assert(stale@.contains(k));
            }
            assert(self.map@ =~= fresh_messages(before, cutoff));
        }
    }
}

} // verus!
