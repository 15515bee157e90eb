use std::collections::HashSet;

use ianvs::collections::{MacSet, MacTable};
use ianvs::mac::{DiscordUserAssociation, DiscordUserId, MacAddress, UserAssociationRequest};
use ianvs::monitor::{plan_connected_addresses_change, AppState, Associations};

fn mac(n: u8) -> MacAddress {
    MacAddress([0x02, 0, 0, 0, 0, n])
}

fn set(ns: &[u8]) -> MacSet {
    let v: Vec<MacAddress> = ns.iter().map(|n| mac(*n)).collect();
    MacSet::from_vec(&v)
}

fn as_set(v: &[MacAddress]) -> HashSet<MacAddress> {
    v.iter().copied().collect()
}

fn associations() -> Associations {
    let mut a = MacTable::new();
    // user 1 owns devices 1 and 2; user 2 owns device 3; device 4 is muted
    a.insert(mac(1), DiscordUserAssociation::Associated(DiscordUserId(1)));
    a.insert(mac(2), DiscordUserAssociation::Associated(DiscordUserId(1)));
    a.insert(mac(3), DiscordUserAssociation::Associated(DiscordUserId(2)));
    a.insert(mac(4), DiscordUserAssociation::AskedNotToAssociateUser);
    a
}

#[test]
fn unknown_devices_are_reported_both_ways() {
    let r = plan_connected_addresses_change(&set(&[5, 6]), &set(&[6, 7]), &associations());
    assert_eq!(as_set(&r.unknown_disconnected), as_set(&[mac(5)]));
    assert_eq!(as_set(&r.unknown_connected), as_set(&[mac(7)]));
    assert!(r.users_connected.is_empty());
    assert!(r.users_disconnected.is_empty());
}

#[test]
fn muted_devices_are_never_reported() {
    let r = plan_connected_addresses_change(&set(&[]), &set(&[4]), &associations());
    assert!(r.unknown_connected.is_empty());
    assert!(r.users_connected.is_empty());
    let r = plan_connected_addresses_change(&set(&[4]), &set(&[]), &associations());
    assert!(r.unknown_disconnected.is_empty());
    assert!(r.users_disconnected.is_empty());
}

#[test]
fn a_user_arrives_with_the_first_device_and_leaves_with_the_last() {
    let a = associations();
    let r = plan_connected_addresses_change(&set(&[]), &set(&[1]), &a);
    assert_eq!(r.users_connected, vec![(DiscordUserId(1), mac(1))]);
    // a second device of the same user: no new arrival
    let r = plan_connected_addresses_change(&set(&[1]), &set(&[1, 2]), &a);
    assert!(r.users_connected.is_empty());
    assert!(r.unknown_connected.is_empty());
    // one of two devices leaves: the user is still there
    let r = plan_connected_addresses_change(&set(&[1, 2]), &set(&[2]), &a);
    assert!(r.users_disconnected.is_empty());
    // the last device leaves
    let r = plan_connected_addresses_change(&set(&[2]), &set(&[]), &a);
    assert_eq!(r.users_disconnected, vec![(DiscordUserId(1), mac(2))]);
}

#[test]
fn two_devices_of_one_user_arriving_report_the_user_once() {
    let r = plan_connected_addresses_change(&set(&[3]), &set(&[1, 2, 3]), &associations());
    assert_eq!(r.users_connected.len(), 1);
    let (user, device) = r.users_connected[0];
    assert_eq!(user, DiscordUserId(1));
    assert!(device == mac(1) || device == mac(2));
    assert!(r.users_disconnected.is_empty());
}

#[test]
fn no_change_reports_nothing() {
    let r = plan_connected_addresses_change(&set(&[1, 3, 4, 9]), &set(&[9, 4, 3, 1]), &associations());
    assert!(r.unknown_disconnected.is_empty());
    assert!(r.unknown_connected.is_empty());
    assert!(r.users_connected.is_empty());
    assert!(r.users_disconnected.is_empty());
}

#[test]
fn reversed_change_swaps_arrivals_and_departures() {
    let a = associations();
    let forth = plan_connected_addresses_change(&set(&[1, 5]), &set(&[3, 6]), &a);
    let back = plan_connected_addresses_change(&set(&[3, 6]), &set(&[1, 5]), &a);
    assert_eq!(as_set(&forth.unknown_connected), as_set(&back.unknown_disconnected));
    assert_eq!(as_set(&forth.unknown_disconnected), as_set(&back.unknown_connected));
    assert_eq!(forth.users_connected, back.users_disconnected);
    assert_eq!(forth.users_disconnected, back.users_connected);
}

#[test]
fn app_state_follows_scans_and_requests() {
    let mut state = AppState::new(MacTable::new(), set(&[]));
    let r = state.on_connected_addresses_update(set(&[8]));
    assert_eq!(r.unknown_connected, vec![mac(8)]);
    assert!(state.connected().contains(&mac(8)));

    state.on_association_request(UserAssociationRequest::AssociateRequest(mac(8), DiscordUserId(11)));
    assert_eq!(
        state.association().get(&mac(8)),
        Some(DiscordUserAssociation::Associated(DiscordUserId(11)))
    );
    // the claimed device leaves: its owner is reported, not an unknown device
    let r = state.on_connected_addresses_update(set(&[]));
    assert!(r.unknown_disconnected.is_empty());
    assert_eq!(r.users_disconnected, vec![(DiscordUserId(11), mac(8))]);

    state.on_association_request(UserAssociationRequest::NeverAskForAssociationInFutureRequest(mac(8)));
    assert_eq!(
        state.association().get(&mac(8)),
        Some(DiscordUserAssociation::AskedNotToAssociateUser)
    );
    let r = state.on_connected_addresses_update(set(&[8]));
    assert!(r.unknown_connected.is_empty());
    assert!(r.users_connected.is_empty());

    let mut replacement = MacTable::new();
    replacement.insert(mac(1), DiscordUserAssociation::Associated(DiscordUserId(1)));
    state.on_association_state_reconciled(replacement);
    assert_eq!(state.association().len(), 1);
    assert!(state.connected().contains(&mac(8)));
}

#[test]
fn claimed_device_announces_its_owner_when_it_returns() {
    let mut state = AppState::new(MacTable::new(), set(&[9]));
    state.on_association_request(UserAssociationRequest::AssociateRequest(mac(9), DiscordUserId(77)));
    let r = state.on_connected_addresses_update(set(&[]));
    assert_eq!(r.users_disconnected, vec![(DiscordUserId(77), mac(9))]);
    let r = state.on_connected_addresses_update(set(&[9]));
    assert_eq!(r.users_connected, vec![(DiscordUserId(77), mac(9))]);
    assert!(r.unknown_connected.is_empty());
}
