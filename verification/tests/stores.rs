use ianvs::stores::{fetched_file_source, FetchedFileSource};
use ianvs::collections::{MacTable, TextTable};
use ianvs::mac::{DiscordUserAssociation, DiscordUserId, MacAddress};
use ianvs::persistence::{AssociationEntry, AssociationsFile, Timestamp};
use ianvs::stores::{
    choose_credentials, merge_current_association_state, parsed_mac_addr_map_to_unparsed_map,
    reconcile_association_files, unparsed_mac_addr_map_to_parsed_map, CredentialChoice, GitStore,
    JsonFileAssociationPersistence, PersistenceError, persisted_state_or_fallback,
};

fn state(pairs: &[(MacAddress, DiscordUserAssociation)]) -> MacTable<DiscordUserAssociation> {
    let mut t = MacTable::new();
    for (m, a) in pairs {
        t.insert(*m, *a);
    }
    t
}

const A: MacAddress = MacAddress([0xaa, 0, 0, 0, 0, 1]);
const B: MacAddress = MacAddress([0xbb, 0, 0, 0, 0, 2]);

#[test]
fn text_keyed_map_round_trip() {
    let s = state(&[
        (A, DiscordUserAssociation::Associated(DiscordUserId(1))),
        (B, DiscordUserAssociation::AskedNotToAssociateUser),
    ]);
    let text = parsed_mac_addr_map_to_unparsed_map(&s);
    assert_eq!(text.len(), 2);
    assert_eq!(
        text.get(&"aa:00:00:00:00:01".to_string()),
        Some(DiscordUserAssociation::Associated(DiscordUserId(1)))
    );
    let back = unparsed_mac_addr_map_to_parsed_map(&text).unwrap();
    assert_eq!(back.len(), 2);
    assert_eq!(back.get(&B), Some(DiscordUserAssociation::AskedNotToAssociateUser));
}

#[test]
fn invalid_key_is_an_error() {
    let mut text = TextTable::new();
    text.insert("aa:00:00:00:00:01".to_string(), DiscordUserAssociation::AskedNotToAssociateUser);
    text.insert("bogus".to_string(), DiscordUserAssociation::AskedNotToAssociateUser);
    assert_eq!(
        unparsed_mac_addr_map_to_parsed_map(&text).err(),
        Some(PersistenceError::InvalidMacAddress("bogus".to_string()))
    );
}

#[test]
fn current_state_overrides_persisted() {
    let persisted = state(&[
        (A, DiscordUserAssociation::Associated(DiscordUserId(1))),
        (B, DiscordUserAssociation::Associated(DiscordUserId(2))),
    ]);
    let current = state(&[(B, DiscordUserAssociation::AskedNotToAssociateUser)]);
    let merged = merge_current_association_state(persisted.clone(), Some(current));
    assert_eq!(merged.len(), 2);
    assert_eq!(merged.get(&A), Some(DiscordUserAssociation::Associated(DiscordUserId(1))));
    assert_eq!(merged.get(&B), Some(DiscordUserAssociation::AskedNotToAssociateUser));
    let kept = merge_current_association_state(persisted, None);
    assert_eq!(kept.get(&B), Some(DiscordUserAssociation::Associated(DiscordUserId(2))));
}

#[test]
fn git_store_paths_and_refs() {
    let store = GitStore::new(
        "/srv/repo".to_string(),
        "associations.json".to_string(),
        "origin".to_string(),
        "main".to_string(),
        None,
    );
    assert_eq!(store.file_path(), "/srv/repo/associations.json");
    assert_eq!(store.local_branch_ref(), "refs/heads/main");
    assert_eq!(store.remote_branch_ref(), "refs/remotes/origin/main");
    assert_eq!(store.push_refspec(), "refs/heads/main:refs/heads/main");
    let absolute = GitStore::new(
        "/srv/repo".to_string(),
        "/etc/other.json".to_string(),
        "origin".to_string(),
        "main".to_string(),
        Some("/root/.ssh/id".to_string()),
    );
    assert_eq!(absolute.file_path(), "/etc/other.json");
}

#[test]
fn json_store_path() {
    assert_eq!(JsonFileAssociationPersistence::new("a.json".to_string()).path, "a.json");
}

#[test]
fn credentials() {
    assert_eq!(
        choose_credentials(true, true, Some("alice"), true),
        CredentialChoice::SshKeyFile("alice".to_string())
    );
    assert_eq!(
        choose_credentials(true, false, None, false),
        CredentialChoice::SshAgent("git".to_string())
    );
    assert_eq!(choose_credentials(false, true, Some("x"), true), CredentialChoice::DefaultCredentials);
    assert_eq!(choose_credentials(false, false, None, false), CredentialChoice::NoneAvailable);
}

#[test]
fn reconciliation_merges_then_updates() {
    let t1 = Timestamp { seconds: 100, nanos: 0 };
    let t2 = Timestamp { seconds: 200, nanos: 0 };
    let mut local = TextTable::new();
    local.insert(
        "aa:00:00:00:00:01".to_string(),
        AssociationEntry { association: DiscordUserAssociation::Associated(DiscordUserId(1)), updated_at: t1 },
    );
    let mut remote = TextTable::new();
    remote.insert(
        "aa:00:00:00:00:01".to_string(),
        AssociationEntry { association: DiscordUserAssociation::Associated(DiscordUserId(2)), updated_at: t2 },
    );
    let local = AssociationsFile { associations: local };
    let remote = AssociationsFile { associations: remote };

    let r = reconcile_association_files(&local, Some(&remote), None);
    assert!(r.updated.is_none());
    assert_eq!(r.app_state.get(&A), Some(DiscordUserAssociation::Associated(DiscordUserId(2))));

    let current = state(&[(B, DiscordUserAssociation::AskedNotToAssociateUser)]);
    let r = reconcile_association_files(&local, Some(&remote), Some(&current));
    let updated = r.updated.unwrap();
    assert_eq!(updated.associations.len(), 2);
    assert_eq!(r.merged.associations.len(), 1);
    assert_eq!(r.app_state.get(&A), Some(DiscordUserAssociation::Associated(DiscordUserId(2))));
    assert_eq!(r.app_state.get(&B), Some(DiscordUserAssociation::AskedNotToAssociateUser));
}

#[test]
fn fetched_file_sources() {
    assert_eq!(fetched_file_source(false, false, true), FetchedFileSource::Nothing);
    assert_eq!(fetched_file_source(true, true, true), FetchedFileSource::Nothing);
    assert_eq!(fetched_file_source(true, false, true), FetchedFileSource::FastForwardedWorkTree);
    assert_eq!(fetched_file_source(true, false, false), FetchedFileSource::FetchedCommit);
}

#[test]
fn reconciliation_result_or_fallback() {
    let synced = state(&[(A, DiscordUserAssociation::Associated(DiscordUserId(1)))]);
    let current = state(&[(B, DiscordUserAssociation::AskedNotToAssociateUser)]);

    let r = persisted_state_or_fallback(Some(synced.clone()), Some(current.clone()));
    assert_eq!(r.len(), 1);
    assert_eq!(r.get(&A), Some(DiscordUserAssociation::Associated(DiscordUserId(1))));
    assert_eq!(r.get(&B), None);

    let r = persisted_state_or_fallback(None, Some(current.clone()));
    assert_eq!(r.len(), 1);
    assert_eq!(r.get(&B), Some(DiscordUserAssociation::AskedNotToAssociateUser));

    let r = persisted_state_or_fallback(None, None);
    assert_eq!(r.len(), 0);
}
