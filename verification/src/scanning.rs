//! Finding the devices on the network: reading the output of `arp-scan` and the kernel's
//! ARP table, and turning successive scans into arrivals and departures.
use vstd::prelude::*;

use crate::collections::MacSet;
use crate::mac::{parse_mac_spec, MacAddress};
use crate::text::{
    chars_of, decimal_text, lines_chars, lines_spec, push_decimal, push_str,
    split_whitespace_chars, whitespace_fields,
};

verus! {

// ---------------------------------------------------------------------------
// arp-scan
// ---------------------------------------------------------------------------

/// The `--timeout` argument of `arp-scan` for a scan interval: 300 ms per second of interval,
/// so that with two retries and a back-off of 1.5 most of the interval is spent waiting for
/// replies (some devices answer ARP requests late, in batches).
pub fn arp_scan_timeout_arg(scan_interval_secs: u16) -> (r: String)
    ensures
        r@ == "--timeout="@ + decimal_text(scan_interval_secs as nat * 300),
{
    let mut s = String::new();
    push_str(&mut s, "--timeout=");
    let millis: u32 = (scan_interval_secs as u32) * 300;
    push_decimal(&mut s, millis as u64);
    s
}

/// The address that a line of `arp-scan --plain` output names: the line must have exactly two
/// fields separated by white space, and the second must read as a MAC address.
pub open spec fn arp_scan_line_spec(line: Seq<char>) -> Option<Seq<u8>> {
    let fields = whitespace_fields(line);
    if fields.len() == 2 {
        parse_mac_spec(fields[1])
    } else {
        None
    }
}

fn parse_arp_scan_line_chars(line: &Vec<char>) -> (r: Option<MacAddress>)
    ensures
        match r {
            Some(m) => arp_scan_line_spec(line@) == Some(m.bytes()),
            None => arp_scan_line_spec(line@) is None,
        },
{
    let fields = split_whitespace_chars(line);
    if fields.len() != 2 {
        return None;
    }
    MacAddress::parse_chars(&fields[1])
}

/// The address that a line of `arp-scan --plain` output names, if the line is as expected.
pub fn parse_arp_scan_line(line: &str) -> (r: Option<MacAddress>)
    ensures
        match r {
            Some(m) => arp_scan_line_spec(line@) == Some(m.bytes()),
            None => arp_scan_line_spec(line@) is None,
        },
{
    let chars = chars_of(line);
    parse_arp_scan_line_chars(&chars)
}

/// The addresses that the lines of `arp-scan` output name; lines of another form are ignored.
pub open spec fn arp_scan_output_spec(stdout: Seq<char>) -> Set<MacAddress> {
    Set::new(
        |m: MacAddress|
            exists|i: int|
                0 <= i < lines_spec(stdout).len() && #[trigger] arp_scan_line_spec(
                    lines_spec(stdout)[i],
                ) == Some(m.bytes()),
    )
}

/// The set of addresses found in the output of `arp-scan`.
pub fn parse_arp_scan_output(stdout: &str) -> (r: MacSet)
    ensures
        r@ == arp_scan_output_spec(stdout@),
{
    let chars = chars_of(stdout);
    let lines = lines_chars(&chars);
    let ghost ls = lines_spec(stdout@);
    let mut r = MacSet::new();
    let mut i: usize = 0;
    while i < lines.len()
        invariant
            i <= lines@.len(),
            lines@.len() == ls.len(),
            ls == lines_spec(stdout@),
            forall|j: int| 0 <= j < lines@.len() ==> #[trigger] lines@[j]@ == ls[j],
            r@ == Set::new(
                |m: MacAddress|
                    exists|j: int|
                        0 <= j < i && #[trigger] arp_scan_line_spec(ls[j]) == Some(m.bytes()),
            ),
        decreases lines.len() - i,
    {
        let parsed = parse_arp_scan_line_chars(&lines[i]);
        let ghost before = r@;
        match parsed {
            Some(m) => {
                r.insert(m);
            },
            None => {},
        }
        proof {
            let target = Set::new(
                |w: MacAddress|
                    exists|j: int|
                        0 <= j < i + 1 && #[trigger] arp_scan_line_spec(ls[j]) == Some(w.bytes()),
            );
            assert forall|w: MacAddress| target.contains(w) implies r@.contains(w) by {
                let j = choose|j: int|
                    0 <= j < i + 1 && #[trigger] arp_scan_line_spec(ls[j]) == Some(w.bytes());
                if j == i as int {
                    let m = parsed.unwrap();
                    broadcast use vstd::array::group_array_axioms;

                    assert forall|k: int| 0 <= k < 6 implies w.0[k] == m.0[k] by {
                        assert(w.0@[k] == m.0@[k]);
                    }
                    assert(w.0 =~= m.0);
                } else {
                    assert(before.contains(w));
                }
            }
            assert forall|w: MacAddress| r@.contains(w) implies target.contains(w) by {
                if before.contains(w) {
                    let j = choose|j: int|
                        0 <= j < i && #[trigger] arp_scan_line_spec(ls[j]) == Some(w.bytes());
                    assert(0 <= j < i + 1 && arp_scan_line_spec(ls[j]) == Some(w.bytes()));
                } else {
                    assert(arp_scan_line_spec(ls[i as int]) == Some(w.bytes()));
                }
            }
            assert(r@ =~= target);
        }
        i = i + 1;
    }
    r
}

// ---------------------------------------------------------------------------
// The kernel's ARP table
// ---------------------------------------------------------------------------

/// What the scanner reads of an entry of the kernel's ARP table.
#[derive(Debug, Clone, Copy)]
pub struct ArpEntry {
    /// Whether the entry is complete (its `COM` flag is set).
    pub complete: bool,
    /// The hardware address, if the entry has one.
    pub hw_address: Option<[u8; 6]>,
}

/// Whether all six bytes are `b`.
pub open spec fn all_bytes(a: [u8; 6], b: u8) -> bool {
    forall|i: int| 0 <= i < 6 ==> #[trigger] a@[i] == b
}

/// The devices that the ARP table shows: the hardware addresses of complete entries, except
/// the broadcast address and the zero address.
pub open spec fn arp_table_addresses(entries: Seq<ArpEntry>) -> Set<MacAddress> {
    Set::new(
        |m: MacAddress|
            exists|i: int|
                0 <= i < entries.len() && #[trigger] entries[i].complete && entries[i].hw_address
                    == Some(m.0) && !all_bytes(m.0, 0xff) && !all_bytes(m.0, 0),
    )
}

fn is_all(a: &[u8; 6], b: u8) -> (r: bool)
    ensures
        r == all_bytes(*a, b),
{
    let mut i: usize = 0;
    while i < 6
        invariant
            i <= 6,
            forall|j: int| 0 <= j < i ==> a@[j] == b,
        decreases 6 - i,
    {
        if a[i] != b {
            assert(a@[i as int] != b);
            return false;
        }
        i = i + 1;
    }
    true
}

/// The devices that the entries of the ARP table show.
pub fn arp_entries_to_addresses(entries: &Vec<ArpEntry>) -> (r: MacSet)
    ensures
        r@ == arp_table_addresses(entries@),
{
    let mut r = MacSet::new();
    let mut i: usize = 0;
    while i < entries.len()
        invariant
            i <= entries@.len(),
            r@ == arp_table_addresses(entries@.take(i as int)),
        decreases entries.len() - i,
    {
        let entry = entries[i];
        let ghost before = r@;
        let ghost prev = entries@.take(i as int);
        let ghost next = entries@.take(i + 1);
        if entry.complete {
            match entry.hw_address {
                Some(hw_bytes) => {
                    if !is_all(&hw_bytes, 0xff) && !is_all(&hw_bytes, 0) {
                        r.insert(MacAddress(hw_bytes));
                    }
                },
                None => {},
            }
        }
        proof {
            let target = arp_table_addresses(next);
            assert forall|w: MacAddress| target.contains(w) implies r@.contains(w) by {
                let j = choose|j: int|
                    0 <= j < next.len() && #[trigger] next[j].complete && next[j].hw_address
                        == Some(w.0) && !all_bytes(w.0, 0xff) && !all_bytes(w.0, 0);
                if j < i {
                    assert(prev[j] == next[j]);
                    assert(before.contains(w));
                }
            }
            assert forall|w: MacAddress| r@.contains(w) implies target.contains(w) by {
                if before.contains(w) {
                    let j = choose|j: int|
                        0 <= j < prev.len() && #[trigger] prev[j].complete && prev[j].hw_address
                            == Some(w.0) && !all_bytes(w.0, 0xff) && !all_bytes(w.0, 0);
                    assert(next[j] == prev[j]);
                } else {
                    assert(next[i as int] == entry);
                }
            }
            assert(r@ =~= target);
        }
        i = i + 1;
    }
    assert(entries@.take(entries@.len() as int) =~= entries@);
    r
}

// ---------------------------------------------------------------------------
// Successive scans
// ---------------------------------------------------------------------------

/// A scanner that reads the ARP table at a fixed interval and sends arrivals and departures
/// through a queue of the given capacity.
pub struct NetworkScanner {
    pub scan_interval_secs: u64,
    pub channel_capacity: usize,
}

impl NetworkScanner {
    /// A scanner that scans every `scan_interval_secs` seconds.
    pub fn new(scan_interval_secs: u64, channel_capacity: usize) -> (r: NetworkScanner)
        ensures
            r.scan_interval_secs == scan_interval_secs,
            r.channel_capacity == channel_capacity,
    {
        NetworkScanner { scan_interval_secs, channel_capacity }
    }
}

/// The devices that arrived and the devices that left between two scans.
pub struct ScanChanges {
    pub connected: Vec<MacAddress>,
    pub disconnected: Vec<MacAddress>,
}

/// What the scanner remembers between scans: the devices seen at the last successful scan,
/// and whether no scan has succeeded yet (the first successful one only sets what was seen).
pub struct ScannerState {
    seen: MacSet,
    pending_initial_scan: bool,
}

impl ScannerState {
    /// The devices seen at the last successful scan.
    pub closed spec fn seen_view(self) -> Set<MacAddress> {
        self.seen@
    }

    /// Whether no scan has succeeded yet.
    pub closed spec fn pending_view(self) -> bool {
        self.pending_initial_scan
    }

    /// The state after the first scan, which found `initial` or failed.
    pub fn start(initial: Option<MacSet>) -> (r: ScannerState)
        ensures
            match initial {
                Some(s) => r.seen_view() == s@ && !r.pending_view(),
                None => r.seen_view() == Set::<MacAddress>::empty() && r.pending_view(),
            },
    {
        match initial {
            Some(macs) => ScannerState { seen: macs, pending_initial_scan: false },
            None => ScannerState { seen: MacSet::new(), pending_initial_scan: true },
        }
    }

    /// A scan found `result` (or failed): the arrivals and departures to send. A failed scan
    /// changes nothing; the first successful scan after a failed start only records the devices.
    pub fn on_scan(&mut self, result: Option<MacSet>) -> (r: ScanChanges)
        ensures
            match result {
                None => {
                    &&& r.connected@.len() == 0
                    &&& r.disconnected@.len() == 0
                    &&& final(self).seen_view() == old(self).seen_view()
                    &&& final(self).pending_view() == old(self).pending_view()
                },
                Some(current) => {
                    &&& final(self).seen_view() == current@
                    &&& !final(self).pending_view()
                    &&& if old(self).pending_view() {
                        r.connected@.len() == 0 && r.disconnected@.len() == 0
                    } else {
                        &&& r.connected@.no_duplicates()
                        &&& r.connected@.to_set() == current@.difference(old(self).seen_view())
                        &&& r.disconnected@.no_duplicates()
                        &&& r.disconnected@.to_set() == old(self).seen_view().difference(current@)
                    }
                },
            },
    {
        match result {
            None => ScanChanges { connected: Vec::new(), disconnected: Vec::new() },
            Some(current) => {
                if self.pending_initial_scan {
                    self.seen = current;
                    self.pending_initial_scan = false;
                    return ScanChanges { connected: Vec::new(), disconnected: Vec::new() };
                }
                let arrived = current.difference(&self.seen);
                let left = self.seen.difference(&current);
                let connected = copy_items(&arrived);
                let disconnected = copy_items(&left);
                self.seen = current;
                ScanChanges { connected, disconnected }
            },
        }
    }
}

/// The members of `s`, each once.
fn copy_items(s: &MacSet) -> (r: Vec<MacAddress>)
    ensures
        r@.no_duplicates(),
        r@.to_set() == s@,
{
    let items = s.items();
    let mut r: Vec<MacAddress> = Vec::new();
    let mut i: usize = 0;
    while i < items.len()
        invariant
            i <= items@.len(),
            r@ =~= items@.take(i as int),
        decreases items.len() - i,
    {
        r.push(items[i]);
        i = i + 1;
    }
    assert(items@.take(items@.len() as int) =~= items@);
    r
}

/// Scanning twice in a row finds nothing new: after a successful scan, a scan that finds
/// the same devices reports no arrival and no departure.
pub proof fn lemma_same_scan_no_changes(seen: Set<MacAddress>, r: ScanChanges)
    requires
        r.connected@.to_set() == seen.difference(seen),
        r.disconnected@.to_set() == seen.difference(seen),
    ensures
        r.connected@.len() == 0,
        r.disconnected@.len() == 0,
{
    if r.connected@.len() > 0 {
        assert(r.connected@.to_set().contains(r.connected@[0]));
    }
    if r.disconnected@.len() > 0 {
        assert(r.disconnected@.to_set().contains(r.disconnected@[0]));
    }
}

} // verus!
