use chrono::{DateTime, Utc};
use ianvs::collections::{MacTable, TextTable};
use ianvs::mac::{DiscordUserAssociation, DiscordUserId, MacAddress};
use ianvs::persistence::{AssociationEntry, AssociationsFile, Timestamp};

fn timestamp(rfc3339: &str) -> Timestamp {
    let dt = DateTime::parse_from_rfc3339(rfc3339)
        .unwrap()
        .with_timezone(&Utc);
    Timestamp {
        seconds: dt.timestamp(),
        nanos: dt.timestamp_subsec_nanos(),
    }
}

fn file_with(entries: &[(&str, DiscordUserAssociation, Timestamp)]) -> AssociationsFile {
    let mut associations = TextTable::new();
    for (key, association, updated_at) in entries {
        associations.insert(
            key.to_string(),
            AssociationEntry {
                association: *association,
                updated_at: *updated_at,
            },
        );
    }
    AssociationsFile { associations }
}

#[test]
fn test_lww_merge() {
    let mac = "aa:bb:cc:dd:ee:ff".to_string();

    let older = file_with(&[(
        mac.as_str(),
        DiscordUserAssociation::Associated(DiscordUserId(123)),
        timestamp("2024-01-01T00:00:00Z"),
    )]);

    let newer = file_with(&[(
        mac.as_str(),
        DiscordUserAssociation::Associated(DiscordUserId(456)),
        timestamp("2024-01-02T00:00:00Z"),
    )]);

    let merged = older.merge(&newer);
    let entry = merged.associations.get(&mac).unwrap();
    assert!(matches!(
        entry.association,
        DiscordUserAssociation::Associated(DiscordUserId(456))
    ));
}

#[test]
fn test_mac_parsing() {
    let mac = MacAddress::parse("aa:bb:cc:dd:ee:ff").unwrap();
    assert_eq!(mac.to_string(), "aa:bb:cc:dd:ee:ff");
}

#[test]
fn merge_keeps_own_entry_on_equal_time() {
    let key = "aa:bb:cc:dd:ee:ff".to_string();
    let t = timestamp("2024-01-01T00:00:00Z");
    let ours = file_with(&[(key.as_str(), DiscordUserAssociation::Associated(DiscordUserId(1)), t)]);
    let theirs = file_with(&[(key.as_str(), DiscordUserAssociation::Associated(DiscordUserId(2)), t)]);
    let merged = ours.merge(&theirs);
    assert_eq!(
        merged.associations.get(&key).unwrap().association,
        DiscordUserAssociation::Associated(DiscordUserId(1))
    );
}

#[test]
fn merge_keeps_newer_own_entry_and_adds_missing_keys() {
    let a = "aa:bb:cc:dd:ee:ff".to_string();
    let b = "11:22:33:44:55:66".to_string();
    let ours = file_with(&[(
        a.as_str(),
        DiscordUserAssociation::Associated(DiscordUserId(1)),
        timestamp("2024-01-03T00:00:00Z"),
    )]);
    let theirs = file_with(&[
        (
            a.as_str(),
            DiscordUserAssociation::AskedNotToAssociateUser,
            timestamp("2024-01-02T00:00:00Z"),
        ),
        (
            b.as_str(),
            DiscordUserAssociation::Associated(DiscordUserId(7)),
            timestamp("2024-01-01T00:00:00Z"),
        ),
    ]);
    let merged = ours.merge(&theirs);
    assert_eq!(merged.associations.len(), 2);
    assert_eq!(
        merged.associations.get(&a).unwrap().association,
        DiscordUserAssociation::Associated(DiscordUserId(1))
    );
    assert_eq!(
        merged.associations.get(&b).unwrap().association,
        DiscordUserAssociation::Associated(DiscordUserId(7))
    );
}

#[test]
fn merge_with_itself_changes_nothing() {
    let key = "aa:bb:cc:dd:ee:ff".to_string();
    let t = timestamp("2024-05-01T12:00:00.5Z");
    let file = file_with(&[(key.as_str(), DiscordUserAssociation::AskedNotToAssociateUser, t)]);
    let merged = file.merge(&file);
    assert_eq!(merged.associations.len(), 1);
    assert_eq!(merged.associations.get(&key).unwrap().updated_at, t);
}

#[test]
fn to_app_state_skips_invalid_keys() {
    let file = file_with(&[
        (
            "aa:bb:cc:dd:ee:ff",
            DiscordUserAssociation::Associated(DiscordUserId(5)),
            timestamp("2024-01-01T00:00:00Z"),
        ),
        (
            "not a mac",
            DiscordUserAssociation::Associated(DiscordUserId(6)),
            timestamp("2024-01-01T00:00:00Z"),
        ),
    ]);
    let state = file.to_app_state();
    assert_eq!(state.len(), 1);
    assert_eq!(
        state.get(&MacAddress([0xaa, 0xbb, 0xcc, 0xdd, 0xee, 0xff])),
        Some(DiscordUserAssociation::Associated(DiscordUserId(5)))
    );
}

#[test]
fn update_preserves_time_of_unchanged_entries() {
    let old_time = timestamp("2024-01-01T00:00:00Z");
    let now = timestamp("2024-06-01T00:00:00Z");
    let file = file_with(&[
        ("aa:bb:cc:dd:ee:ff", DiscordUserAssociation::Associated(DiscordUserId(1)), old_time),
        ("11:22:33:44:55:66", DiscordUserAssociation::Associated(DiscordUserId(2)), old_time),
    ]);
    let mut state = MacTable::new();
    state.insert(
        MacAddress([0xaa, 0xbb, 0xcc, 0xdd, 0xee, 0xff]),
        DiscordUserAssociation::Associated(DiscordUserId(1)),
    );
    state.insert(
        MacAddress([0x11, 0x22, 0x33, 0x44, 0x55, 0x66]),
        DiscordUserAssociation::AskedNotToAssociateUser,
    );
    state.insert(
        MacAddress([0, 1, 2, 3, 4, 5]),
        DiscordUserAssociation::Associated(DiscordUserId(3)),
    );
    let updated = file.update_from_app_state_at(&state, now);
    assert_eq!(updated.associations.len(), 3);
    let unchanged = updated.associations.get(&"aa:bb:cc:dd:ee:ff".to_string()).unwrap();
    assert_eq!(unchanged.updated_at, old_time);
    let changed = updated.associations.get(&"11:22:33:44:55:66".to_string()).unwrap();
    assert_eq!(changed.association, DiscordUserAssociation::AskedNotToAssociateUser);
    assert_eq!(changed.updated_at, now);
    let added = updated.associations.get(&"00:01:02:03:04:05".to_string()).unwrap();
    assert_eq!(added.association, DiscordUserAssociation::Associated(DiscordUserId(3)));
    assert_eq!(added.updated_at, now);
}

#[test]
fn update_then_read_gives_back_the_state() {
    let mut state = MacTable::new();
    state.insert(
        MacAddress([0xde, 0xad, 0xbe, 0xef, 0x00, 0x01]),
        DiscordUserAssociation::Associated(DiscordUserId(42)),
    );
    state.insert(
        MacAddress([0x02, 0x00, 0x00, 0x00, 0x00, 0x09]),
        DiscordUserAssociation::AskedNotToAssociateUser,
    );
    let updated = AssociationsFile::new().update_from_app_state(&state);
    let read = updated.to_app_state();
    assert_eq!(read.len(), 2);
    assert_eq!(
        read.get(&MacAddress([0xde, 0xad, 0xbe, 0xef, 0x00, 0x01])),
        Some(DiscordUserAssociation::Associated(DiscordUserId(42)))
    );
    assert_eq!(
        read.get(&MacAddress([0x02, 0x00, 0x00, 0x00, 0x00, 0x09])),
        Some(DiscordUserAssociation::AskedNotToAssociateUser)
    );
}

#[test]
fn update_from_app_state_stamps_the_current_time() {
    let before = Utc::now().timestamp();
    let mut state = MacTable::new();
    state.insert(
        MacAddress([1, 2, 3, 4, 5, 6]),
        DiscordUserAssociation::Associated(DiscordUserId(9)),
    );
    let updated = AssociationsFile::new().update_from_app_state(&state);
    let entry = updated.associations.get(&"01:02:03:04:05:06".to_string()).unwrap();
    let after = Utc::now().timestamp();
    assert!(entry.updated_at.seconds >= before && entry.updated_at.seconds <= after);
}

#[test]
fn timestamps_order_by_seconds_then_nanoseconds() {
    let a = Timestamp { seconds: 10, nanos: 5 };
    let b = Timestamp { seconds: 10, nanos: 6 };
    let c = Timestamp { seconds: 9, nanos: 999_999_999 };
    assert!(b.is_at_or_after(&a));
    assert!(!a.is_at_or_after(&b));
    assert!(a.is_at_or_after(&c));
    assert!(a.is_at_or_after(&a));
}

fn association_at(file: &AssociationsFile, key: &str) -> Option<DiscordUserAssociation> {
    file.associations.get(&key.to_string()).map(|e| e.association)
}

#[test]
fn merge_order_does_not_matter() {
    let k = "aa:bb:cc:dd:ee:ff";
    let a = file_with(&[(k, DiscordUserAssociation::Associated(DiscordUserId(1)), timestamp("2024-01-01T00:00:00Z"))]);
    let b = file_with(&[(k, DiscordUserAssociation::Associated(DiscordUserId(2)), timestamp("2024-01-03T00:00:00Z"))]);
    let c = file_with(&[(k, DiscordUserAssociation::Associated(DiscordUserId(3)), timestamp("2024-01-02T00:00:00Z"))]);
    let left = a.merge(&b).merge(&c);
    let right = a.merge(&b.merge(&c));
    assert_eq!(association_at(&left, k), association_at(&right, k));
    assert_eq!(association_at(&left, k), Some(DiscordUserAssociation::Associated(DiscordUserId(2))));
    assert_eq!(association_at(&a.merge(&c), k), association_at(&c.merge(&a), k));
}
