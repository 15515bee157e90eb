//! The persisted form of the associations: a table from MAC address text to the association
//! and the time it was last changed, merged last-write-wins, and the stores that keep it.
use vstd::prelude::*;

use crate::collections::{
    keys_before, lemma_keys_before_all, lemma_keys_before_start, lemma_keys_before_step,
    lemma_text_keys_before_all, lemma_text_keys_before_start, lemma_text_keys_before_step,
    lists_map, lists_text_map, text_keys_before, MacTable, TextTable,
};
use crate::mac::{
    lemma_mac_text_injective, lemma_parse_mac_text, mac_text, parse_mac_spec,
    DiscordUserAssociation, MacAddress,
};
use crate::monitor::Associations;

verus! {

// ---------------------------------------------------------------------------
// Time stamps
// ---------------------------------------------------------------------------

/// A point in time (UTC): whole seconds since the Unix epoch and the nanoseconds past them.
#[derive(Debug, Clone, Copy, PartialEq, Eq, Hash, Structural)]
pub struct Timestamp {
    pub seconds: i64,
    pub nanos: u32,
}

/// `a` is the same time as `b` or later (times are ordered by seconds, then nanoseconds).
pub open spec fn at_or_after(a: Timestamp, b: Timestamp) -> bool {
    a.seconds > b.seconds || (a.seconds == b.seconds && a.nanos >= b.nanos)
}

impl Timestamp {
    /// Whether `self` is the same time as `other` or later.
    pub fn is_at_or_after(&self, other: &Timestamp) -> (r: bool)
        ensures
            r == at_or_after(*self, *other),
    {
        self.seconds > other.seconds || (self.seconds == other.seconds && self.nanos
            >= other.nanos)
    }
}

/// The current time from chrono's `Utc::now`, as seconds since the epoch
/// (`DateTime::timestamp`) and nanoseconds past them (`DateTime::timestamp_subsec_nanos`).
/// Which time it is is not stated: it is the clock's. `Utc::now` takes the time since the
/// epoch from `SystemTime` (it panics on a clock set before 1970) and keeps the duration's
/// sub-second nanoseconds, which are below one second.
#[verifier::external_body]
fn current_time() -> (r: Timestamp)
    ensures
        r.seconds >= 0,
        r.nanos < 1_000_000_000,
{
    let now = chrono::Utc::now();
    Timestamp { seconds: now.timestamp(), nanos: now.timestamp_subsec_nanos() }
}

// ---------------------------------------------------------------------------
// The associations file
// ---------------------------------------------------------------------------

/// An association and the time it was last changed.
#[derive(Debug, Clone, Copy, PartialEq, Eq, Structural)]
pub struct AssociationEntry {
    pub association: DiscordUserAssociation,
    pub updated_at: Timestamp,
}

/// The contents of the associations file: MAC address text to entry.
pub struct AssociationsFile {
    pub associations: TextTable<AssociationEntry>,
}

/// What the associations file holds, keyed by the characters of each key.
pub type EntryMap = Map<Seq<char>, AssociationEntry>;

/// Last-write-wins merge: every key of either side, with the entry whose time is later;
/// on equal times, and where only `a` has the key, the entry of `a`.
pub open spec fn lww_merge(a: EntryMap, b: EntryMap) -> EntryMap {
    Map::new(
        |k: Seq<char>| a.contains_key(k) || b.contains_key(k),
        |k: Seq<char>|
            if a.contains_key(k) && (!b.contains_key(k) || at_or_after(
                a[k].updated_at,
                b[k].updated_at,
            )) {
                a[k]
            } else {
                b[k]
            },
    )
}

proof fn lemma_lww_merge_step(a: EntryMap, b: EntryMap, k: Seq<char>, e: AssociationEntry)
    requires
        !b.contains_key(k),
    ensures
        lww_merge(a, b.insert(k, e)) =~= lww_merge(a, b).insert(
            k,
            if a.contains_key(k) && at_or_after(a[k].updated_at, e.updated_at) {
                a[k]
            } else {
                e
            },
        ),
{
}

/// The MAC addresses that an app state has, read from the keys of `file`: each key that reads
/// as an address gives that address the association of its entry. Where two keys read as the
/// same address, the association of either may be the one kept.
pub open spec fn is_app_state_of(
    result: Map<MacAddress, DiscordUserAssociation>,
    file: EntryMap,
) -> bool {
    &&& forall|m: MacAddress| #[trigger]
        result.contains_key(m) <==> exists|k: Seq<char>|
            file.contains_key(k) && #[trigger] parse_mac_spec(k) == Some(m.bytes())
    &&& forall|m: MacAddress| #[trigger]
        result.contains_key(m) ==> exists|k: Seq<char>|
            file.contains_key(k) && #[trigger] parse_mac_spec(k) == Some(m.bytes()) && result[m]
                == file[k].association
}

/// The entry that an app-state association `a` gives the key `key`: the existing entry if it
/// holds the same association (its time is kept), else a new entry made at `now`.
pub open spec fn refreshed_entry(
    file: EntryMap,
    key: Seq<char>,
    a: DiscordUserAssociation,
    now: Timestamp,
) -> AssociationEntry {
    if file.contains_key(key) && file[key].association == a {
        file[key]
    } else {
        AssociationEntry { association: a, updated_at: now }
    }
}

/// `result` is `file` updated from the app state `state` at time `now`: each address of the
/// state, written as text, gets its refreshed entry; every other key keeps its entry.
pub open spec fn is_state_update(
    result: EntryMap,
    file: EntryMap,
    state: Map<MacAddress, DiscordUserAssociation>,
    now: Timestamp,
) -> bool {
    &&& forall|k: Seq<char>| #[trigger]
        result.contains_key(k) <==> file.contains_key(k) || exists|m: MacAddress|
            state.contains_key(m) && #[trigger] mac_text(m.bytes()) == k
    &&& forall|m: MacAddress| #[trigger]
        state.contains_key(m) ==> result[mac_text(m.bytes())] == refreshed_entry(
            file,
            mac_text(m.bytes()),
            state[m],
            now,
        )
    &&& forall|k: Seq<char>| #[trigger]
        file.contains_key(k) && !(exists|m: MacAddress|
            state.contains_key(m) && #[trigger] mac_text(m.bytes()) == k) ==> result[k] == file[k]
}

/// Every key of `file` that reads as a MAC address is the text that `to_string` writes for it.
pub open spec fn canonical_keys(file: EntryMap) -> bool {
    forall|k: Seq<char>| #[trigger]
        file.contains_key(k) && parse_mac_spec(k) is Some ==> k == mac_text(
            parse_mac_spec(k).unwrap(),
        )
}

proof fn lemma_state_update_start(file: EntryMap, now: Timestamp)
    ensures
        is_state_update(file, file, Map::<MacAddress, DiscordUserAssociation>::empty(), now),
{
}

proof fn lemma_state_update_step(
    r: EntryMap,
    file: EntryMap,
    s: Map<MacAddress, DiscordUserAssociation>,
    now: Timestamp,
    m: MacAddress,
    a: DiscordUserAssociation,
)
    requires
        is_state_update(r, file, s, now),
        !s.contains_key(m),
    ensures
        r.contains_key(mac_text(m.bytes())) == file.contains_key(mac_text(m.bytes())),
        file.contains_key(mac_text(m.bytes())) ==> r[mac_text(m.bytes())] == file[mac_text(
            m.bytes(),
        )],
        is_state_update(
            r.insert(mac_text(m.bytes()), refreshed_entry(file, mac_text(m.bytes()), a, now)),
            file,
            s.insert(m, a),
            now,
        ),
{
    let t = mac_text(m.bytes());
    let r2 = r.insert(t, refreshed_entry(file, t, a, now));
    let s2 = s.insert(m, a);
    assert(!(exists|w: MacAddress| s.contains_key(w) && #[trigger] mac_text(w.bytes()) == t)) by {
        if exists|w: MacAddress| s.contains_key(w) && #[trigger] mac_text(w.bytes()) == t {
            let w = choose|w: MacAddress| s.contains_key(w) && #[trigger] mac_text(w.bytes()) == t;
            lemma_mac_text_injective(w, m);
        }
    }
    assert forall|k: Seq<char>| #[trigger] r2.contains_key(k) <==> file.contains_key(k) || exists|
        w: MacAddress,
    | s2.contains_key(w) && #[trigger] mac_text(w.bytes()) == k by {
        if k == t {
            assert(s2.contains_key(m) && mac_text(m.bytes()) == k);
        } else if exists|w: MacAddress| s2.contains_key(w) && #[trigger] mac_text(w.bytes()) == k {
            let w = choose|w: MacAddress| s2.contains_key(w) && #[trigger] mac_text(w.bytes()) == k;
            assert(s.contains_key(w));
        }
    }
    assert forall|w: MacAddress| #[trigger] s2.contains_key(w) implies r2[mac_text(w.bytes())]
        == refreshed_entry(file, mac_text(w.bytes()), s2[w], now) by {
        if w != m {
            if mac_text(w.bytes()) == t {
                lemma_mac_text_injective(w, m);
            }
        }
    }
    assert forall|k: Seq<char>| #[trigger]
        file.contains_key(k) && !(exists|w: MacAddress|
            s2.contains_key(w) && #[trigger] mac_text(w.bytes()) == k) implies r2[k] == file[k] by {
        if k == t {
            assert(s2.contains_key(m) && mac_text(m.bytes()) == k);
        } else {
            if exists|w: MacAddress| s.contains_key(w) && #[trigger] mac_text(w.bytes()) == k {
                let w = choose|w: MacAddress| s.contains_key(w) && #[trigger] mac_text(w.bytes()) == k;
                assert(s2.contains_key(w));
            }
        }
    }
}

proof fn lemma_app_state_start(result: Map<MacAddress, DiscordUserAssociation>)
    requires
        result == Map::<MacAddress, DiscordUserAssociation>::empty(),
    ensures
        is_app_state_of(result, Map::<Seq<char>, AssociationEntry>::empty()),
{
}

proof fn lemma_app_state_step(
    result: Map<MacAddress, DiscordUserAssociation>,
    file: EntryMap,
    k: Seq<char>,
    e: AssociationEntry,
    parsed: Option<MacAddress>,
)
    requires
        is_app_state_of(result, file),
        !file.contains_key(k),
        match parsed {
            Some(m) => parse_mac_spec(k) == Some(m.bytes()),
            None => parse_mac_spec(k) is None,
        },
    ensures
        is_app_state_of(
            match parsed {
                Some(m) => result.insert(m, e.association),
                None => result,
            },
            file.insert(k, e),
        ),
{
    let f2 = file.insert(k, e);
    match parsed {
        Some(m) => {
            let r2 = result.insert(m, e.association);
            assert forall|w: MacAddress| #[trigger] r2.contains_key(w) implies exists|kk: Seq<char>|
                f2.contains_key(kk) && #[trigger] parse_mac_spec(kk) == Some(w.bytes()) && r2[w]
                    == f2[kk].association by {
                if w == m {
                    assert(f2.contains_key(k) && parse_mac_spec(k) == Some(w.bytes()));
                } else {
                    let kk = choose|kk: Seq<char>|
                        file.contains_key(kk) && #[trigger] parse_mac_spec(kk) == Some(w.bytes())
                            && result[w] == file[kk].association;
                    assert(f2.contains_key(kk) && f2[kk] == file[kk]);
                }
            }
            assert forall|w: MacAddress|
                (exists|kk: Seq<char>|
                    f2.contains_key(kk) && #[trigger] parse_mac_spec(kk) == Some(w.bytes()))
                    implies #[trigger] r2.contains_key(w) by {
                let kk = choose|kk: Seq<char>|
                    f2.contains_key(kk) && #[trigger] parse_mac_spec(kk) == Some(w.bytes());
                if kk == k {
                    broadcast use vstd::array::group_array_axioms;

                    assert forall|i: int| 0 <= i < 6 implies w.0[i] == m.0[i] by {
                        assert(w.0@[i] == m.0@[i]);
                    }
                    assert(w.0 =~= m.0);
                } else {
                    assert(file.contains_key(kk));
                }
            }
        },
        None => {
            assert forall|w: MacAddress| #[trigger] result.contains_key(w) implies exists|
                kk: Seq<char>,
            | f2.contains_key(kk) && #[trigger] parse_mac_spec(kk) == Some(w.bytes()) && result[w]
                == f2[kk].association by {
                let kk = choose|kk: Seq<char>|
                    file.contains_key(kk) && #[trigger] parse_mac_spec(kk) == Some(w.bytes())
                        && result[w] == file[kk].association;
                assert(f2.contains_key(kk) && f2[kk] == file[kk]);
            }
            assert forall|w: MacAddress|
                (exists|kk: Seq<char>|
                    f2.contains_key(kk) && #[trigger] parse_mac_spec(kk) == Some(w.bytes()))
                    implies #[trigger] result.contains_key(w) by {
                let kk = choose|kk: Seq<char>|
                    f2.contains_key(kk) && #[trigger] parse_mac_spec(kk) == Some(w.bytes());
                assert(kk != k);
                assert(file.contains_key(kk));
            }
        },
    }
}

impl AssociationsFile {
    /// An empty file.
    pub fn new() -> (r: AssociationsFile)
        ensures
            r.associations@ == Map::<Seq<char>, AssociationEntry>::empty(),
    {
        AssociationsFile { associations: TextTable::new() }
    }

    /// The app state: each key that reads as a MAC address, with its association. Keys that
    /// are no MAC address are skipped.
    pub fn to_app_state(&self) -> (r: Associations)
        ensures
            is_app_state_of(r@, self.associations@),
    {
        let entries = self.associations.entries();
        let ghost file = self.associations@;
        let mut r: Associations = MacTable::new();
        let mut i: usize = 0;
        proof {
            lemma_text_keys_before_start(entries@, file);
            lemma_app_state_start(r@);
        }
        while i < entries.len()
            invariant
                i <= entries@.len(),
                lists_text_map(entries@, file),
                is_app_state_of(r@, file.restrict(text_keys_before(entries@, i as int))),
            decreases entries.len() - i,
        {
            proof {
                lemma_text_keys_before_step(entries@, file, i as int);
            }
            let parsed = MacAddress::parse(entries[i].0.as_str());
            proof {
                lemma_app_state_step(
                    r@,
                    file.restrict(text_keys_before(entries@, i as int)),
                    entries@[i as int].0@,
                    entries@[i as int].1,
                    parsed,
                );
            }
            match parsed {
                Some(mac) => {
                    r.insert(mac, entries[i].1.association);
                },
                None => {},
            }
            i = i + 1;
        }
        proof {
            lemma_text_keys_before_all(entries@, file);
        }
        r
    }

    /// Merges using the last-write-wins strategy: for a key on both sides the later entry
    /// wins, and on equal times the entry of `self`.
    pub fn merge(&self, other: &AssociationsFile) -> (r: AssociationsFile)
        ensures
            r.associations@ == lww_merge(self.associations@, other.associations@),
    {
        let ghost a = self.associations@;
        let ghost b = other.associations@;
        let mut merged = self.associations.clone();
        let entries = other.associations.entries();
        let mut i: usize = 0;
        proof {
            lemma_text_keys_before_start(entries@, b);
            assert(lww_merge(a, b.restrict(text_keys_before(entries@, 0))) =~= a);
        }
        while i < entries.len()
            invariant
                i <= entries@.len(),
                lists_text_map(entries@, b),
                merged@ == lww_merge(a, b.restrict(text_keys_before(entries@, i as int))),
            decreases entries.len() - i,
        {
            let ghost bi = b.restrict(text_keys_before(entries@, i as int));
            proof {
                lemma_text_keys_before_step(entries@, b, i as int);
                lemma_lww_merge_step(a, bi, entries@[i as int].0@, entries@[i as int].1);
            }
            let other_entry = entries[i].1;
            let keep_ours = match merged.get(&entries[i].0) {
                Some(our_entry) => our_entry.updated_at.is_at_or_after(&other_entry.updated_at),
                None => false,
            };
            if !keep_ours {
                merged.insert(entries[i].0.clone(), other_entry);
            } else {
                assert(merged@.insert(entries@[i as int].0@, a[entries@[i as int].0@]) =~= merged@);
            }
            i = i + 1;
        }
        proof {
            lemma_text_keys_before_all(entries@, b);
        }
        AssociationsFile { associations: merged }
    }

    /// Updates from the app state at time `now`, preserving the entries (and their times) of
    /// addresses whose association did not change.
    pub fn update_from_app_state_at(&self, state: &Associations, now: Timestamp) -> (r:
        AssociationsFile)
        ensures
            is_state_update(r.associations@, self.associations@, state@, now),
    {
        let ghost file = self.associations@;
        let ghost st = state@;
        let mut associations = self.associations.clone();
        let entries = state.entries();
        let mut i: usize = 0;
        proof {
            lemma_keys_before_start(entries@, st);
            lemma_state_update_start(file, now);
        }
        while i < entries.len()
            invariant
                i <= entries@.len(),
                lists_map(entries@, st),
                is_state_update(
                    associations@,
                    file,
                    st.restrict(keys_before(entries@, i as int)),
                    now,
                ),
            decreases entries.len() - i,
        {
            let (mac, assoc) = entries[i];
            proof {
                lemma_keys_before_step(entries@, st, i as int);
                lemma_state_update_step(
                    associations@,
                    file,
                    st.restrict(keys_before(entries@, i as int)),
                    now,
                    mac,
                    assoc,
                );
            }
            let mac_str = mac.to_string();
            let entry = match associations.get(&mac_str) {
                Some(existing) => if existing.association == assoc {
                    existing
                } else {
                    AssociationEntry { association: assoc, updated_at: now }
                },
                None => AssociationEntry { association: assoc, updated_at: now },
            };
            associations.insert(mac_str, entry);
            i = i + 1;
        }
        proof {
            lemma_keys_before_all(entries@, st);
        }
        AssociationsFile { associations }
    }

    /// Updates from the app state at the current time, preserving the entries (and their
    /// times) of addresses whose association did not change.
    pub fn update_from_app_state(&self, state: &Associations) -> (r: AssociationsFile)
        ensures
            exists|now: Timestamp|
                #![trigger is_state_update(r.associations@, self.associations@, state@, now)]
                now.seconds >= 0 && now.nanos < 1_000_000_000 && is_state_update(
                    r.associations@,
                    self.associations@,
                    state@,
                    now,
                ),
    {
        let now = current_time();
        let r = self.update_from_app_state_at(state, now);
        assert(is_state_update(r.associations@, self.associations@, state@, now));
        r
    }
}

// ---------------------------------------------------------------------------
// Laws of the associations file
// ---------------------------------------------------------------------------

/// Reading the app state back from a file updated from an app state gives every association
/// of that state, provided the file's keys were written as `to_string` writes addresses.
pub proof fn lemma_update_then_read(
    file: EntryMap,
    state: Map<MacAddress, DiscordUserAssociation>,
    now: Timestamp,
    updated: EntryMap,
    read: Map<MacAddress, DiscordUserAssociation>,
)
    requires
        canonical_keys(file),
        is_state_update(updated, file, state, now),
        is_app_state_of(read, updated),
    ensures
        forall|m: MacAddress| #[trigger]
            state.contains_key(m) ==> read.contains_key(m) && read[m] == state[m],
{
    assert forall|m: MacAddress| #[trigger] state.contains_key(m) implies read.contains_key(m)
        && read[m] == state[m] by {
        let t = mac_text(m.bytes());
        lemma_parse_mac_text(m.bytes());
        assert(updated.contains_key(t));
        assert(parse_mac_spec(t) == Some(m.bytes()));
        assert(read.contains_key(m));
        let k = choose|k: Seq<char>|
            updated.contains_key(k) && #[trigger] parse_mac_spec(k) == Some(m.bytes()) && read[m]
                == updated[k].association;
        if exists|w: MacAddress| state.contains_key(w) && #[trigger] mac_text(w.bytes()) == k {
            let w = choose|w: MacAddress| state.contains_key(w) && #[trigger] mac_text(w.bytes()) == k;
            lemma_parse_mac_text(w.bytes());
            assert(k == t);
        } else {
            assert(file.contains_key(k));
            assert(k == t);
        }
    }
}

/// An update from the app state keeps the entry of an address whose association did not
/// change exactly as it was, its time included, whatever the association is; an address whose
/// association changed, or that the file did not hold, gets a new entry made at `now`.
pub proof fn lemma_update_keeps_unchanged_entries(
    file: EntryMap,
    state: Map<MacAddress, DiscordUserAssociation>,
    now: Timestamp,
    updated: EntryMap,
    m: MacAddress,
)
    requires
        is_state_update(updated, file, state, now),
        state.contains_key(m),
    ensures
        updated.contains_key(mac_text(m.bytes())),
        file.contains_key(mac_text(m.bytes())) && file[mac_text(m.bytes())].association
            == state[m] ==> updated[mac_text(m.bytes())] == file[mac_text(m.bytes())],
        !(file.contains_key(mac_text(m.bytes())) && file[mac_text(m.bytes())].association
            == state[m]) ==> updated[mac_text(m.bytes())] == (AssociationEntry {
            association: state[m],
            updated_at: now,
        }),
{
    assert(updated.contains_key(mac_text(m.bytes())));
}

/// Updating a file whose keys are written as `to_string` writes addresses keeps them so.
pub proof fn lemma_update_keeps_canonical_keys(
    file: EntryMap,
    state: Map<MacAddress, DiscordUserAssociation>,
    now: Timestamp,
    updated: EntryMap,
)
    requires
        canonical_keys(file),
        is_state_update(updated, file, state, now),
    ensures
        canonical_keys(updated),
{
    assert forall|k: Seq<char>| #[trigger]
        updated.contains_key(k) && parse_mac_spec(k) is Some implies k == mac_text(
            parse_mac_spec(k).unwrap(),
        ) by {
        if exists|w: MacAddress| state.contains_key(w) && #[trigger] mac_text(w.bytes()) == k {
            let w = choose|w: MacAddress| state.contains_key(w) && #[trigger] mac_text(w.bytes()) == k;
            lemma_parse_mac_text(w.bytes());
        }
    }
}

/// Merging a file with itself changes nothing.
pub proof fn lemma_lww_merge_idempotent(a: EntryMap)
    ensures
        lww_merge(a, a) == a,
{
    assert(lww_merge(a, a) =~= a);
}

/// A merge keeps every key of both sides, and the entry it keeps for a key is one of the two
/// entries, the latest of them.
pub proof fn lemma_lww_merge_keeps_latest(a: EntryMap, b: EntryMap, k: Seq<char>)
    requires
        a.contains_key(k) || b.contains_key(k),
    ensures
        lww_merge(a, b).contains_key(k),
        lww_merge(a, b)[k] == a[k] || lww_merge(a, b)[k] == b[k],
        a.contains_key(k) ==> at_or_after(lww_merge(a, b)[k].updated_at, a[k].updated_at),
        b.contains_key(k) ==> at_or_after(lww_merge(a, b)[k].updated_at, b[k].updated_at),
{
}

/// Merging is associative: the order in which three files are merged does not matter.
pub proof fn lemma_lww_merge_associative(a: EntryMap, b: EntryMap, c: EntryMap)
    ensures
        lww_merge(lww_merge(a, b), c) == lww_merge(a, lww_merge(b, c)),
{
    assert(lww_merge(lww_merge(a, b), c) =~= lww_merge(a, lww_merge(b, c)));
}

/// Where no key has the same time on both sides, merging is commutative.
pub proof fn lemma_lww_merge_commutative(a: EntryMap, b: EntryMap)
    requires
        forall|k: Seq<char>| #[trigger]
            a.contains_key(k) && b.contains_key(k) ==> a[k].updated_at != b[k].updated_at,
    ensures
        lww_merge(a, b) == lww_merge(b, a),
{
    assert(lww_merge(a, b) =~= lww_merge(b, a));
}

} // verus!
