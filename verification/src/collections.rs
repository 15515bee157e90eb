//! Finite sets of MAC addresses and finite maps keyed by MAC address or by text.
//! Each keeps its items in a vector in which no key occurs twice.
use vstd::prelude::*;

use crate::mac::MacAddress;

verus! {

// ---------------------------------------------------------------------------
// Sets of MAC addresses
// ---------------------------------------------------------------------------

/// A finite set of MAC addresses.
#[derive(Debug)]
pub struct MacSet {
    items: Vec<MacAddress>,
}

impl View for MacSet {
    type V = Set<MacAddress>;

    closed spec fn view(&self) -> Set<MacAddress> {
        self.items@.to_set()
    }
}

impl Clone for MacSet {
    fn clone(&self) -> (r: MacSet)
        ensures
            r@ == self@,
    {
        proof {
            use_type_invariant(self);
        }
        MacSet::from_vec(&self.items)
    }
}

impl MacSet {
    #[verifier::type_invariant]
    closed spec fn inv(self) -> bool {
        self.items@.no_duplicates()
    }

    /// The empty set.
    pub fn new() -> (r: MacSet)
        ensures
            r@ == Set::<MacAddress>::empty(),
    {
        let r = MacSet { items: Vec::new() };
        assert(r.items@.to_set() =~= Set::<MacAddress>::empty());
        r
    }

    /// The members, each once, in the order in which they were added.
    pub fn items(&self) -> (r: &Vec<MacAddress>)
        ensures
            r@.no_duplicates(),
            r@.to_set() == self@,
    {
        proof {
            use_type_invariant(self);
        }
        &self.items
    }

    /// Whether `m` is a member.
    pub fn contains(&self, m: &MacAddress) -> (r: bool)
        ensures
            r == self@.contains(*m),
    {
        let mut i: usize = 0;
        while i < self.items.len()
            invariant
                i <= self.items@.len(),
                forall|j: int| 0 <= j < i ==> self.items@[j] != *m,
            decreases self.items.len() - i,
        {
            if self.items[i].same_as(m) {
                assert(self.items@.contains(*m));
                return true;
            }
            i = i + 1;
        }
        false
    }

    /// Adds `m`; says whether it was new.
    pub fn insert(&mut self, m: MacAddress) -> (added: bool)
        ensures
            final(self)@ == old(self)@.insert(m),
            added == !old(self)@.contains(m),
    {
        proof {
            use_type_invariant(&*self);
        }
        if self.contains(&m) {
            assert(self@.insert(m) =~= self@);
            false
        } else {
            let ghost before = self.items@;
            let mut taken = MacSet { items: Vec::new() };
            std::mem::swap(&mut taken, self);
            let mut items = taken.items;
            items.push(m);
            *self = MacSet { items };
            proof {
                before.lemma_push_to_set_commute(m);
                assert(self.items@ == before.push(m));
                assert(self.items@.no_duplicates()) by {
                    assert forall|a: int, b: int|
                        0 <= a < self.items@.len() && 0 <= b < self.items@.len() && a != b
                            implies self.items@[a] != self.items@[b] by {
                        if a == before.len() as int {
                            assert(before.contains(self.items@[b]));
                        } else if b == before.len() as int {
                            assert(before.contains(self.items@[a]));
                        }
                    }
                }
            }
            true
        }
    }

    /// The set of the addresses in `v`.
    pub fn from_vec(v: &Vec<MacAddress>) -> (r: MacSet)
        ensures
            r@ == v@.to_set(),
    {
        let mut r = MacSet::new();
        let mut i: usize = 0;
        while i < v.len()
            invariant
                i <= v@.len(),
                r@ == v@.take(i as int).to_set(),
            decreases v.len() - i,
        {
            proof {
                v@.take(i as int).lemma_push_to_set_commute(v@[i as int]);
                assert(v@.take(i as int).push(v@[i as int]) =~= v@.take(i + 1));
            }
            r.insert(v[i]);
            i = i + 1;
        }
        assert(v@.take(v@.len() as int) =~= v@);
        r
    }

    /// The members of `self` that are not members of `other`, in the order of `self`.
    pub fn difference(&self, other: &MacSet) -> (r: MacSet)
        ensures
            r@ == self@.difference(other@),
    {
        let items = self.items();
        let mut r = MacSet::new();
        let mut i: usize = 0;
        while i < items.len()
            invariant
                i <= items@.len(),
                r@ == items@.take(i as int).to_set().difference(other@),
            decreases items.len() - i,
        {
            proof {
                items@.take(i as int).lemma_push_to_set_commute(items@[i as int]);
                assert(items@.take(i as int).push(items@[i as int]) =~= items@.take(i + 1));
            }
            if !other.contains(&items[i]) {
                r.insert(items[i]);
            }
            assert(r@ =~= items@.take(i + 1).to_set().difference(other@));
            i = i + 1;
        }
        assert(items@.take(items@.len() as int) =~= items@);
        r
    }

    /// The number of members.
    pub fn len(&self) -> (n: usize)
        ensures
            n == self@.len(),
    {
        proof {
            use_type_invariant(self);
            self.items@.unique_seq_to_set();
        }
        self.items.len()
    }
}

// ---------------------------------------------------------------------------
// Maps keyed by MAC address
// ---------------------------------------------------------------------------

/// The map that a list of key-value pairs describes, a later pair overriding an earlier one.
pub open spec fn pairs_to_map<K, V>(s: Seq<(K, V)>) -> Map<K, V>
    decreases s.len(),
{
    if s.len() == 0 {
        Map::empty()
    } else {
        pairs_to_map(s.drop_last()).insert(s.last().0, s.last().1)
    }
}

/// A finite map from MAC addresses.
pub struct MacTable<V: Copy> {
    entries: Vec<(MacAddress, V)>,
    map: Ghost<Map<MacAddress, V>>,
}

impl<V: Copy> View for MacTable<V> {
    type V = Map<MacAddress, V>;

    closed spec fn view(&self) -> Map<MacAddress, V> {
        self.map@
    }
}

/// The entries of `s` list each key of `m` once, with its value.
pub open spec fn lists_map<K, V>(s: Seq<(K, V)>, m: Map<K, V>) -> bool {
    &&& forall|i: int, j: int|
        0 <= i < s.len() && 0 <= j < s.len() && i != j ==> #[trigger] s[i].0 != #[trigger] s[j].0
    &&& forall|i: int| 0 <= i < s.len() ==> #[trigger] m.contains_key(s[i].0) && m[s[i].0] == s[i].1
    &&& forall|k: K| #[trigger] m.contains_key(k) ==> exists|i: int| 0 <= i < s.len() && s[i].0 == k
}

impl<V: Copy> Clone for MacTable<V> {
    fn clone(&self) -> (r: MacTable<V>)
        ensures
            r@ == self@,
    {
        proof {
            use_type_invariant(self);
        }
        let mut entries: Vec<(MacAddress, V)> = Vec::new();
        let mut i: usize = 0;
        while i < self.entries.len()
            invariant
                i <= self.entries@.len(),
                entries@ =~= self.entries@.take(i as int),
            decreases self.entries.len() - i,
        {
            entries.push(self.entries[i]);
            i = i + 1;
        }
        assert(entries@ =~= self.entries@);
        MacTable { entries, map: Ghost(self.map@) }
    }
}

impl<V: Copy> MacTable<V> {
    #[verifier::type_invariant]
    closed spec fn inv(self) -> bool {
        lists_map(self.entries@, self.map@)
    }

    /// The empty map.
    pub fn new() -> (r: MacTable<V>)
        ensures
            r@ == Map::<MacAddress, V>::empty(),
    {
        MacTable { entries: Vec::new(), map: Ghost(Map::empty()) }
    }

    /// The entries, each key once.
    pub fn entries(&self) -> (r: &Vec<(MacAddress, V)>)
        ensures
            lists_map(r@, self@),
    {
        proof {
            use_type_invariant(self);
        }
        &self.entries
    }

    /// The position of `k` among the entries.
    fn find(&self, k: &MacAddress) -> (r: Option<usize>)
        ensures
            match r {
                Some(i) => i < self.entries@.len() && self.entries@[i as int].0 == *k,
                None => !self@.contains_key(*k),
            },
    {
        proof {
            use_type_invariant(self);
        }
        let mut i: usize = 0;
        while i < self.entries.len()
            invariant
                i <= self.entries@.len(),
                forall|j: int| 0 <= j < i ==> self.entries@[j].0 != *k,
            decreases self.entries.len() - i,
        {
            if self.entries[i].0.same_as(k) {
                return Some(i);
            }
            i = i + 1;
        }
        None
    }

    /// The value at `k`, if any.
    pub fn get(&self, k: &MacAddress) -> (r: Option<V>)
        ensures
            r == (if self@.contains_key(*k) {
                Some(self@[*k])
            } else {
                None::<V>
            }),
    {
        proof {
            use_type_invariant(self);
        }
        match self.find(k) {
            Some(i) => Some(self.entries[i].1),
            None => None,
        }
    }

    /// Whether `k` has a value.
    pub fn contains_key(&self, k: &MacAddress) -> (r: bool)
        ensures
            r == self@.contains_key(*k),
    {
        proof {
            use_type_invariant(self);
        }
        self.find(k).is_some()
    }

    /// Sets the value at `k` to `v`.
    pub fn insert(&mut self, k: MacAddress, v: V)
        ensures
            final(self)@ == old(self)@.insert(k, v),
    {
        proof {
            use_type_invariant(&*self);
        }
        let ghost old_entries = self.entries@;
        let ghost old_map = self.map@;
        let ghost new_map = self.map@.insert(k, v);
        match self.find(&k) {
            Some(i) => {
                let mut taken = Self::new();
                std::mem::swap(&mut taken, self);
                let mut entries = taken.entries;
                entries.set(i, (k, v));
                proof {
                    assert forall|kk: MacAddress| #[trigger]
                        new_map.contains_key(kk) implies exists|j: int|
                        0 <= j < entries@.len() && entries@[j].0 == kk by {
                        if kk != k {
                            let j = choose|j: int| 0 <= j < old_entries.len() && old_entries[j].0 == kk;
                            assert(entries@[j].0 == kk);
                        } else {
                            assert(entries@[i as int].0 == kk);
                        }
                    }
                }
                *self = MacTable { entries, map: Ghost(new_map) };
            },
            None => {
                let mut taken = Self::new();
                std::mem::swap(&mut taken, self);
                let mut entries = taken.entries;
                entries.push((k, v));
                proof {
                    assert forall|kk: MacAddress| #[trigger]
                        new_map.contains_key(kk) implies exists|j: int|
                        0 <= j < entries@.len() && entries@[j].0 == kk by {
                        if kk != k {
                            let j = choose|j: int| 0 <= j < old_entries.len() && old_entries[j].0 == kk;
                            assert(entries@[j].0 == kk);
                        } else {
                            assert(entries@[old_entries.len() as int].0 == kk);
                        }
                    }
                    assert forall|a: int, b: int|
                        0 <= a < entries@.len() && 0 <= b < entries@.len() && a != b
                            implies #[trigger] entries@[a].0 != #[trigger] entries@[b].0 by {
                        if a == old_entries.len() as int {
                            assert(old_map.contains_key(entries@[b].0));
                        } else if b == old_entries.len() as int {
                            assert(old_map.contains_key(entries@[a].0));
                        }
                    }
                }
                *self = MacTable { entries, map: Ghost(new_map) };
            },
        }
    }

    /// The map that `pairs` describes, a later pair overriding an earlier one.
    pub fn from_pairs(pairs: &Vec<(MacAddress, V)>) -> (r: MacTable<V>)
        ensures
            r@ == pairs_to_map(pairs@),
    {
        let mut r = MacTable::new();
        let mut i: usize = 0;
        while i < pairs.len()
            invariant
                i <= pairs@.len(),
                r@ == pairs_to_map(pairs@.take(i as int)),
            decreases pairs.len() - i,
        {
            assert(pairs@.take(i + 1).drop_last() =~= pairs@.take(i as int));
            let (k, v) = pairs[i];
            r.insert(k, v);
            i = i + 1;
        }
        assert(pairs@.take(pairs@.len() as int) =~= pairs@);
        r
    }

    /// The number of keys.
    pub fn len(&self) -> (n: usize)
        ensures
            n == self@.len(),
    {
        proof {
            use_type_invariant(self);
            lemma_lists_map_len(self.entries@, self.map@);
        }
        self.entries.len()
    }
}

/// A list that names each key of a map once is as long as the map.
pub proof fn lemma_lists_map_len<K, V>(s: Seq<(K, V)>, m: Map<K, V>)
    requires
        lists_map(s, m),
    ensures
        m.dom().finite(),
        m.len() == s.len(),
{
    let keys = s.map_values(|e: (K, V)| e.0);
    assert(keys.no_duplicates()) by {
        assert forall|a: int, b: int|
            0 <= a < keys.len() && 0 <= b < keys.len() && a != b implies keys[a] != keys[b] by {
            assert(s[a].0 != s[b].0);
        }
    }
    assert(keys.to_set() =~= m.dom()) by {
        assert forall|k: K| m.dom().contains(k) implies keys.to_set().contains(k) by {
            let i = choose|i: int| 0 <= i < s.len() && s[i].0 == k;
            assert(keys[i] == k);
        }
        assert forall|k: K| keys.to_set().contains(k) implies m.dom().contains(k) by {
            let i = choose|i: int| 0 <= i < keys.len() && keys[i] == k;
            assert(s[i].0 == k);
        }
    }
    keys.unique_seq_to_set();
}

// ---------------------------------------------------------------------------
// Maps keyed by text
// ---------------------------------------------------------------------------

/// A finite map from strings, keyed by their characters.
pub struct TextTable<V: Copy> {
    entries: Vec<(String, V)>,
    map: Ghost<Map<Seq<char>, V>>,
}

impl<V: Copy> View for TextTable<V> {
    type V = Map<Seq<char>, V>;

    closed spec fn view(&self) -> Map<Seq<char>, V> {
        self.map@
    }
}

/// The entries of `s` list each key of `m` once (by its characters), with its value.
pub open spec fn lists_text_map<V>(s: Seq<(String, V)>, m: Map<Seq<char>, V>) -> bool {
    &&& forall|i: int, j: int|
        0 <= i < s.len() && 0 <= j < s.len() && i != j ==> #[trigger] s[i].0@ != #[trigger] s[j].0@
    &&& forall|i: int|
        0 <= i < s.len() ==> #[trigger] m.contains_key(s[i].0@) && m[s[i].0@] == s[i].1
    &&& forall|k: Seq<char>| #[trigger]
        m.contains_key(k) ==> exists|i: int| 0 <= i < s.len() && s[i].0@ == k
}

impl<V: Copy> Clone for TextTable<V> {
    fn clone(&self) -> (r: TextTable<V>)
        ensures
            r@ == self@,
    {
        proof {
            use_type_invariant(self);
        }
        let mut entries: Vec<(String, V)> = Vec::new();
        let mut i: usize = 0;
        while i < self.entries.len()
            invariant
                i <= self.entries@.len(),
                entries@.len() == i,
                forall|j: int|
                    0 <= j < i ==> #[trigger] entries@[j].0@ == self.entries@[j].0@
                        && entries@[j].1 == self.entries@[j].1,
            decreases self.entries.len() - i,
        {
            let key = self.entries[i].0.clone();
            entries.push((key, self.entries[i].1));
            i = i + 1;
        }
        assert(lists_text_map(entries@, self.map@)) by {
            assert forall|k: Seq<char>| #[trigger] self.map@.contains_key(k) implies exists|j: int|
                0 <= j < entries@.len() && entries@[j].0@ == k by {
                let j = choose|j: int| 0 <= j < self.entries@.len() && self.entries@[j].0@ == k;
                assert(entries@[j].0@ == k);
            }
        }
        TextTable { entries, map: Ghost(self.map@) }
    }
}

impl<V: Copy> TextTable<V> {
    #[verifier::type_invariant]
    closed spec fn inv(self) -> bool {
        lists_text_map(self.entries@, self.map@)
    }

    /// The empty map.
    pub fn new() -> (r: TextTable<V>)
        ensures
            r@ == Map::<Seq<char>, V>::empty(),
    {
        TextTable { entries: Vec::new(), map: Ghost(Map::empty()) }
    }

    /// The entries, each key once.
    pub fn entries(&self) -> (r: &Vec<(String, V)>)
        ensures
            lists_text_map(r@, self@),
    {
        proof {
            use_type_invariant(self);
        }
        &self.entries
    }

    fn find(&self, k: &String) -> (r: Option<usize>)
        ensures
            match r {
                Some(i) => i < self.entries@.len() && self.entries@[i as int].0@ == k@,
                None => !self@.contains_key(k@),
            },
    {
        proof {
            use_type_invariant(self);
        }
        let mut i: usize = 0;
        while i < self.entries.len()
            invariant
                i <= self.entries@.len(),
                forall|j: int| 0 <= j < i ==> self.entries@[j].0@ != k@,
            decreases self.entries.len() - i,
        {
            if self.entries[i].0 == *k {
                return Some(i);
            }
            i = i + 1;
        }
        None
    }

    /// The value at `k`, if any.
    pub fn get(&self, k: &String) -> (r: Option<V>)
        ensures
            r == (if self@.contains_key(k@) {
                Some(self@[k@])
            } else {
                None::<V>
            }),
    {
        proof {
            use_type_invariant(self);
        }
        match self.find(k) {
            Some(i) => Some(self.entries[i].1),
            None => None,
        }
    }

    /// Sets the value at `k` to `v`.
    pub fn insert(&mut self, k: String, v: V)
        ensures
            final(self)@ == old(self)@.insert(k@, v),
    {
        proof {
            use_type_invariant(&*self);
        }
        let ghost old_entries = self.entries@;
        let ghost old_map = self.map@;
        let ghost kv = k@;
        let ghost new_map = self.map@.insert(k@, v);
        match self.find(&k) {
            Some(i) => {
                let mut taken = Self::new();
                std::mem::swap(&mut taken, self);
                let mut entries = taken.entries;
                entries.set(i, (k, v));
                proof {
                    assert forall|kk: Seq<char>| #[trigger]
                        new_map.contains_key(kk) implies exists|j: int|
                        0 <= j < entries@.len() && entries@[j].0@ == kk by {
                        if kk != kv {
                            let j = choose|j: int|
                                0 <= j < old_entries.len() && old_entries[j].0@ == kk;
                            assert(entries@[j].0@ == kk);
                        } else {
                            assert(entries@[i as int].0@ == kk);
                        }
                    }
                }
                *self = TextTable { entries, map: Ghost(new_map) };
            },
            None => {
                let mut taken = Self::new();
                std::mem::swap(&mut taken, self);
                let mut entries = taken.entries;
                entries.push((k, v));
                proof {
                    assert forall|kk: Seq<char>| #[trigger]
                        new_map.contains_key(kk) implies exists|j: int|
                        0 <= j < entries@.len() && entries@[j].0@ == kk by {
                        if kk != kv {
                            let j = choose|j: int|
                                0 <= j < old_entries.len() && old_entries[j].0@ == kk;
                            assert(entries@[j].0@ == kk);
                        } else {
                            assert(entries@[old_entries.len() as int].0@ == kk);
                        }
                    }
                    assert forall|a: int, b: int|
                        0 <= a < entries@.len() && 0 <= b < entries@.len() && a != b
                            implies #[trigger] entries@[a].0@ != #[trigger] entries@[b].0@ by {
                        if a == old_entries.len() as int {
                            assert(old_map.contains_key(entries@[b].0@));
                        } else if b == old_entries.len() as int {
                            assert(old_map.contains_key(entries@[a].0@));
                        }
                    }
                }
                *self = TextTable { entries, map: Ghost(new_map) };
            },
        }
    }

    /// The number of keys.
    pub fn len(&self) -> (n: usize)
        ensures
            n == self@.len(),
    {
        proof {
            use_type_invariant(self);
            lemma_lists_text_map_len(self.entries@, self.map@);
        }
        self.entries.len()
    }
}

/// A list that names each key of a map once is as long as the map.
pub proof fn lemma_lists_text_map_len<V>(s: Seq<(String, V)>, m: Map<Seq<char>, V>)
    requires
        lists_text_map(s, m),
    ensures
        m.dom().finite(),
        m.len() == s.len(),
{
    let keys = s.map_values(|e: (String, V)| e.0@);
    assert(keys.no_duplicates()) by {
        assert forall|a: int, b: int|
            0 <= a < keys.len() && 0 <= b < keys.len() && a != b implies keys[a] != keys[b] by {
            assert(s[a].0@ != s[b].0@);
        }
    }
    assert(keys.to_set() =~= m.dom()) by {
        assert forall|k: Seq<char>| m.dom().contains(k) implies keys.to_set().contains(k) by {
            let i = choose|i: int| 0 <= i < s.len() && s[i].0@ == k;
            assert(keys[i] == k);
        }
        assert forall|k: Seq<char>| keys.to_set().contains(k) implies m.dom().contains(k) by {
            let i = choose|i: int| 0 <= i < keys.len() && keys[i] == k;
            assert(s[i].0@ == k);
        }
    }
    keys.unique_seq_to_set();
}

// ---------------------------------------------------------------------------
// Walking the entries of a map in order
// ---------------------------------------------------------------------------

/// The keys of the first `i` entries of `s`.
pub open spec fn keys_before<K, V>(s: Seq<(K, V)>, i: int) -> Set<K> {
    Set::new(|k: K| exists|j: int| 0 <= j < i && s[j].0 == k)
}

/// The keys (by their characters) of the first `i` entries of `s`.
pub open spec fn text_keys_before<V>(s: Seq<(String, V)>, i: int) -> Set<Seq<char>> {
    Set::new(|k: Seq<char>| exists|j: int| 0 <= j < i && s[j].0@ == k)
}

pub proof fn lemma_keys_before_start<K, V>(s: Seq<(K, V)>, m: Map<K, V>)
    ensures
        m.restrict(keys_before(s, 0)) =~= Map::<K, V>::empty(),
{
}

pub proof fn lemma_keys_before_step<K, V>(s: Seq<(K, V)>, m: Map<K, V>, i: int)
    requires
        lists_map(s, m),
        0 <= i < s.len(),
    ensures
        !m.restrict(keys_before(s, i)).contains_key(s[i].0),
        m.restrict(keys_before(s, i + 1)) =~= m.restrict(keys_before(s, i)).insert(s[i].0, s[i].1),
{
    if keys_before(s, i).contains(s[i].0) {
        let j = choose|j: int| 0 <= j < i && s[j].0 == s[i].0;
        assert(s[j].0 != s[i].0);
    }
    assert(keys_before(s, i + 1).contains(s[i].0));
    assert forall|k: K| #[trigger] keys_before(s, i + 1).contains(k) implies k == s[i].0
        || keys_before(s, i).contains(k) by {
        let j = choose|j: int| 0 <= j < i + 1 && s[j].0 == k;
        if j < i {
            assert(keys_before(s, i).contains(k));
        }
    }
    assert forall|k: K| #[trigger] keys_before(s, i).contains(k) implies keys_before(
        s,
        i + 1,
    ).contains(k) by {
        let j = choose|j: int| 0 <= j < i && s[j].0 == k;
        assert(0 <= j < i + 1 && s[j].0 == k);
    }
}

pub proof fn lemma_keys_before_all<K, V>(s: Seq<(K, V)>, m: Map<K, V>)
    requires
        lists_map(s, m),
    ensures
        m.restrict(keys_before(s, s.len() as int)) =~= m,
{
    assert forall|k: K| m.contains_key(k) implies #[trigger] keys_before(s, s.len() as int).contains(
        k,
    ) by {
        let j = choose|j: int| 0 <= j < s.len() && s[j].0 == k;
    }
}

pub proof fn lemma_text_keys_before_start<V>(s: Seq<(String, V)>, m: Map<Seq<char>, V>)
    ensures
        m.restrict(text_keys_before(s, 0)) =~= Map::<Seq<char>, V>::empty(),
{
}

pub proof fn lemma_text_keys_before_step<V>(s: Seq<(String, V)>, m: Map<Seq<char>, V>, i: int)
    requires
        lists_text_map(s, m),
        0 <= i < s.len(),
    ensures
        !m.restrict(text_keys_before(s, i)).contains_key(s[i].0@),
        m.restrict(text_keys_before(s, i + 1)) =~= m.restrict(text_keys_before(s, i)).insert(
            s[i].0@,
            s[i].1,
        ),
{
    if text_keys_before(s, i).contains(s[i].0@) {
        let j = choose|j: int| 0 <= j < i && s[j].0@ == s[i].0@;
        assert(s[j].0@ != s[i].0@);
    }
    assert(text_keys_before(s, i + 1).contains(s[i].0@));
    assert forall|k: Seq<char>| #[trigger] text_keys_before(s, i + 1).contains(k) implies k
        == s[i].0@ || text_keys_before(s, i).contains(k) by {
        let j = choose|j: int| 0 <= j < i + 1 && s[j].0@ == k;
        if j < i {
            assert(text_keys_before(s, i).contains(k));
        }
    }
    assert forall|k: Seq<char>| #[trigger] text_keys_before(s, i).contains(k) implies text_keys_before(
        s,
        i + 1,
    ).contains(k) by {
        let j = choose|j: int| 0 <= j < i && s[j].0@ == k;
        assert(0 <= j < i + 1 && s[j].0@ == k);
    }
}

pub proof fn lemma_text_keys_before_all<V>(s: Seq<(String, V)>, m: Map<Seq<char>, V>)
    requires
        lists_text_map(s, m),
    ensures
        m.restrict(text_keys_before(s, s.len() as int)) =~= m,
{
    assert forall|k: Seq<char>| m.contains_key(k) implies #[trigger] text_keys_before(
        s,
        s.len() as int,
    ).contains(k) by {
        let j = choose|j: int| 0 <= j < s.len() && s[j].0@ == k;
    }
}

} // verus!
