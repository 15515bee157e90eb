use std::collections::HashSet;

use ianvs::collections::MacSet;
use ianvs::mac::MacAddress;
use ianvs::scanning::{
    arp_entries_to_addresses, arp_scan_timeout_arg, parse_arp_scan_line, parse_arp_scan_output,
    ArpEntry, NetworkScanner, ScannerState,
};

fn members(s: &MacSet) -> HashSet<MacAddress> {
    s.items().iter().copied().collect()
}

#[test]
fn timeout_argument() {
    assert_eq!(arp_scan_timeout_arg(600), "--timeout=180000");
    assert_eq!(arp_scan_timeout_arg(0), "--timeout=0");
    assert_eq!(arp_scan_timeout_arg(u16::MAX), "--timeout=19660500");
}

#[test]
fn arp_scan_lines() {
    assert_eq!(
        parse_arp_scan_line("192.168.1.10\taa:bb:cc:dd:ee:ff"),
        Some(MacAddress([0xaa, 0xbb, 0xcc, 0xdd, 0xee, 0xff]))
    );
    assert_eq!(
        parse_arp_scan_line("  192.168.1.10   aa:bb:cc:dd:ee:ff  "),
        Some(MacAddress([0xaa, 0xbb, 0xcc, 0xdd, 0xee, 0xff]))
    );
    assert_eq!(parse_arp_scan_line("192.168.1.10\taa:bb:cc:dd:ee:ff\tVendor"), None);
    assert_eq!(parse_arp_scan_line("aa:bb:cc:dd:ee:ff"), None);
    assert_eq!(parse_arp_scan_line("192.168.1.10 zz"), None);
    assert_eq!(parse_arp_scan_line(""), None);
}

#[test]
fn arp_scan_output() {
    let out = "192.168.1.1\t00:11:22:33:44:55\r\n\
               garbage\n\
               192.168.1.2\t66:77:88:99:aa:bb\n\
               192.168.1.3\t00:11:22:33:44:55\n\
               192.168.1.4\tcc:dd:ee:ff:00:11";
    let found = parse_arp_scan_output(out);
    let expected: HashSet<MacAddress> = [
        MacAddress([0x00, 0x11, 0x22, 0x33, 0x44, 0x55]),
        MacAddress([0x66, 0x77, 0x88, 0x99, 0xaa, 0xbb]),
        MacAddress([0xcc, 0xdd, 0xee, 0xff, 0x00, 0x11]),
    ]
    .into_iter()
    .collect();
    assert_eq!(members(&found), expected);
    assert_eq!(found.len(), 3);
    assert_eq!(parse_arp_scan_output("").len(), 0);
}

#[test]
fn arp_table_filtering() {
    let entries = vec![
        ArpEntry { complete: true, hw_address: Some([1, 2, 3, 4, 5, 6]) },
        ArpEntry { complete: false, hw_address: Some([7, 7, 7, 7, 7, 7]) },
        ArpEntry { complete: true, hw_address: None },
        ArpEntry { complete: true, hw_address: Some([0xff; 6]) },
        ArpEntry { complete: true, hw_address: Some([0; 6]) },
        ArpEntry { complete: true, hw_address: Some([0xff, 0xff, 0xff, 0xff, 0xff, 0xfe]) },
        ArpEntry { complete: true, hw_address: Some([1, 2, 3, 4, 5, 6]) },
    ];
    let found = arp_entries_to_addresses(&entries);
    let expected: HashSet<MacAddress> = [
        MacAddress([1, 2, 3, 4, 5, 6]),
        MacAddress([0xff, 0xff, 0xff, 0xff, 0xff, 0xfe]),
    ]
    .into_iter()
    .collect();
    assert_eq!(members(&found), expected);
}

#[test]
fn scanner_reports_changes_between_scans() {
    let a = MacAddress([1; 6]);
    let b = MacAddress([2; 6]);
    let c = MacAddress([3; 6]);
    let mut state = ScannerState::start(Some(MacSet::from_vec(&vec![a, b])));
    let changes = state.on_scan(Some(MacSet::from_vec(&vec![b, c])));
    assert_eq!(changes.connected, vec![c]);
    assert_eq!(changes.disconnected, vec![a]);
    let changes = state.on_scan(None);
    assert!(changes.connected.is_empty() && changes.disconnected.is_empty());
    let changes = state.on_scan(Some(MacSet::from_vec(&vec![c, b])));
    assert!(changes.connected.is_empty() && changes.disconnected.is_empty());
}

#[test]
fn first_successful_scan_after_failed_start_only_records() {
    let a = MacAddress([1; 6]);
    let mut state = ScannerState::start(None);
    let changes = state.on_scan(None);
    assert!(changes.connected.is_empty() && changes.disconnected.is_empty());
    let changes = state.on_scan(Some(MacSet::from_vec(&vec![a])));
    assert!(changes.connected.is_empty() && changes.disconnected.is_empty());
    let changes = state.on_scan(Some(MacSet::new()));
    assert_eq!(changes.disconnected, vec![a]);
}

#[test]
fn network_scanner_settings() {
    let s = NetworkScanner::new(30, 8);
    assert_eq!(s.scan_interval_secs, 30);
    assert_eq!(s.channel_capacity, 8);
}
