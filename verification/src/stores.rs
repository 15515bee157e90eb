//! The two stores of the associations: a JSON file of MAC address text to association, and a
//! git repository that holds an associations file. Their reading and writing is done by the
//! caller; here is what they compute.
use vstd::prelude::*;

use crate::collections::{
    keys_before, lemma_keys_before_all, lemma_keys_before_start, lemma_keys_before_step,
    lemma_text_keys_before_all, lemma_text_keys_before_start, lemma_text_keys_before_step,
    lists_map, lists_text_map, text_keys_before, MacTable, TextTable,
};
use crate::mac::{
    lemma_mac_text_injective, lemma_parse_mac_text, mac_text, parse_mac_spec,
    DiscordUserAssociation, MacAddress,
};
use crate::monitor::Associations;
use crate::text::push_str;
use crate::persistence::{is_app_state_of, is_state_update, lww_merge, AssociationsFile, Timestamp};

verus! {

/// Why a persisted map could not be read.
#[derive(Debug, PartialEq, Eq)]
pub enum PersistenceError {
    /// A key of the map is no MAC address.
    InvalidMacAddress(String),
}

/// `text_map` holds the associations of `map`, each under the text of its address.
pub open spec fn keyed_by_text(
    text_map: Map<Seq<char>, DiscordUserAssociation>,
    map: Map<MacAddress, DiscordUserAssociation>,
) -> bool {
    &&& forall|k: Seq<char>| #[trigger]
        text_map.contains_key(k) <==> exists|m: MacAddress|
            map.contains_key(m) && #[trigger] mac_text(m.bytes()) == k
    &&& forall|m: MacAddress| #[trigger]
        map.contains_key(m) ==> text_map[mac_text(m.bytes())] == map[m]
}

/// `map` holds, for each key of `text_map` (each of which reads as a MAC address), that
/// address with the key's association. Where two keys read as the same address, the
/// association of either may be the one kept.
pub open spec fn is_parsed_map_of(
    map: Map<MacAddress, DiscordUserAssociation>,
    text_map: Map<Seq<char>, DiscordUserAssociation>,
) -> bool {
    &&& forall|m: MacAddress| #[trigger]
        map.contains_key(m) <==> exists|k: Seq<char>|
            text_map.contains_key(k) && #[trigger] parse_mac_spec(k) == Some(m.bytes())
    &&& forall|m: MacAddress| #[trigger]
        map.contains_key(m) ==> exists|k: Seq<char>|
            text_map.contains_key(k) && #[trigger] parse_mac_spec(k) == Some(m.bytes()) && map[m]
                == text_map[k]
}

proof fn lemma_keyed_by_text_step(
    t: Map<Seq<char>, DiscordUserAssociation>,
    s: Map<MacAddress, DiscordUserAssociation>,
    m: MacAddress,
    a: DiscordUserAssociation,
)
    requires
        keyed_by_text(t, s),
        !s.contains_key(m),
    ensures
        keyed_by_text(t.insert(mac_text(m.bytes()), a), s.insert(m, a)),
{
    let k0 = mac_text(m.bytes());
    let t2 = t.insert(k0, a);
    let s2 = s.insert(m, a);
    assert forall|k: Seq<char>| #[trigger] t2.contains_key(k) <==> exists|w: MacAddress|
        s2.contains_key(w) && #[trigger] mac_text(w.bytes()) == k by {
        if k == k0 {
            assert(s2.contains_key(m) && mac_text(m.bytes()) == k);
        } else if exists|w: MacAddress| s2.contains_key(w) && #[trigger] mac_text(w.bytes()) == k {
            let w = choose|w: MacAddress| s2.contains_key(w) && #[trigger] mac_text(w.bytes()) == k;
            assert(s.contains_key(w));
        }
    }
    assert forall|w: MacAddress| #[trigger] s2.contains_key(w) implies t2[mac_text(w.bytes())]
        == s2[w] by {
        if w != m && mac_text(w.bytes()) == k0 {
            lemma_mac_text_injective(w, m);
        }
    }
}

proof fn lemma_parsed_map_step(
    map: Map<MacAddress, DiscordUserAssociation>,
    text_map: Map<Seq<char>, DiscordUserAssociation>,
    k: Seq<char>,
    a: DiscordUserAssociation,
    m: MacAddress,
)
    requires
        is_parsed_map_of(map, text_map),
        !text_map.contains_key(k),
        parse_mac_spec(k) == Some(m.bytes()),
    ensures
        is_parsed_map_of(map.insert(m, a), text_map.insert(k, a)),
{
    let f2 = text_map.insert(k, a);
    let r2 = map.insert(m, a);
    assert forall|w: MacAddress| #[trigger] r2.contains_key(w) implies exists|kk: Seq<char>|
        f2.contains_key(kk) && #[trigger] parse_mac_spec(kk) == Some(w.bytes()) && r2[w] == f2[kk] by {
        if w == m {
            assert(f2.contains_key(k) && parse_mac_spec(k) == Some(w.bytes()));
        } else {
            let kk = choose|kk: Seq<char>|
                text_map.contains_key(kk) && #[trigger] parse_mac_spec(kk) == Some(w.bytes())
                    && map[w] == text_map[kk];
            assert(f2.contains_key(kk) && f2[kk] == text_map[kk]);
        }
    }
    assert forall|w: MacAddress|
        (exists|kk: Seq<char>|
            f2.contains_key(kk) && #[trigger] parse_mac_spec(kk) == Some(w.bytes())) implies #[trigger] r2.contains_key(
        w,
    ) by {
        let kk = choose|kk: Seq<char>|
            f2.contains_key(kk) && #[trigger] parse_mac_spec(kk) == Some(w.bytes());
        if kk == k {
            broadcast use vstd::array::group_array_axioms;

            assert forall|i: int| 0 <= i < 6 implies w.0[i] == m.0[i] by {
                assert(w.0@[i] == m.0@[i]);
            }
            assert(w.0 =~= m.0);
        } else {
            assert(text_map.contains_key(kk));
        }
    }
}

/// The associations keyed by the text of each address, as the JSON file stores them.
pub fn parsed_mac_addr_map_to_unparsed_map(map: &Associations) -> (r: TextTable<
    DiscordUserAssociation,
>)
    ensures
        keyed_by_text(r@, map@),
{
    let ghost st = map@;
    let entries = map.entries();
    let mut r: TextTable<DiscordUserAssociation> = TextTable::new();
    let mut i: usize = 0;
    proof {
        lemma_keys_before_start(entries@, st);
    }
    while i < entries.len()
        invariant
            i <= entries@.len(),
            lists_map(entries@, st),
            keyed_by_text(r@, st.restrict(keys_before(entries@, i as int))),
        decreases entries.len() - i,
    {
        let (mac, association) = entries[i];
        proof {
            lemma_keys_before_step(entries@, st, i as int);
            lemma_keyed_by_text_step(
                r@,
                st.restrict(keys_before(entries@, i as int)),
                mac,
                association,
            );
        }
        r.insert(mac.to_string(), association);
        i = i + 1;
    }
    proof {
        lemma_keys_before_all(entries@, st);
    }
    r
}

/// The associations read from the text-keyed map of the JSON file; fails, naming the key,
/// when a key is no MAC address.
pub fn unparsed_mac_addr_map_to_parsed_map(map: &TextTable<DiscordUserAssociation>) -> (r: Result<
    Associations,
    PersistenceError,
>)
    ensures
        r is Ok <==> forall|k: Seq<char>| #[trigger]
            map@.contains_key(k) ==> parse_mac_spec(k) is Some,
        match r {
            Ok(t) => is_parsed_map_of(t@, map@),
            Err(PersistenceError::InvalidMacAddress(key)) => map@.contains_key(key@)
                && parse_mac_spec(key@) is None,
        },
{
    let ghost text_map = map@;
    let entries = map.entries();
    let mut r: Associations = MacTable::new();
    let mut i: usize = 0;
    proof {
        lemma_text_keys_before_start(entries@, text_map);
    }
    while i < entries.len()
        invariant
            i <= entries@.len(),
            lists_text_map(entries@, text_map),
            text_map == map@,
            is_parsed_map_of(r@, text_map.restrict(text_keys_before(entries@, i as int))),
            forall|j: int| 0 <= j < i ==> #[trigger] parse_mac_spec(entries@[j].0@) is Some,
        decreases entries.len() - i,
    {
        proof {
            lemma_text_keys_before_step(entries@, text_map, i as int);
        }
        match MacAddress::parse(entries[i].0.as_str()) {
            Some(mac) => {
                proof {
                    lemma_parsed_map_step(
                        r@,
                        text_map.restrict(text_keys_before(entries@, i as int)),
                        entries@[i as int].0@,
                        entries@[i as int].1,
                        mac,
                    );
                }
                r.insert(mac, entries[i].1);
            },
            None => {
                let key = entries[i].0.clone();
                assert(text_map.contains_key(entries@[i as int].0@));
                assert(key@ == entries@[i as int].0@);
                assert(map@.contains_key(key@));
                assert(parse_mac_spec(key@) is None);
                return Err(PersistenceError::InvalidMacAddress(key));
            },
        }
        i = i + 1;
    }
    proof {
        lemma_text_keys_before_all(entries@, text_map);
        assert forall|k: Seq<char>| #[trigger] text_map.contains_key(k) implies parse_mac_spec(
            k,
        ) is Some by {
            let j = choose|j: int| 0 <= j < entries@.len() && entries@[j].0@ == k;
            assert(parse_mac_spec(entries@[j].0@) is Some);
        }
    }
    Ok(r)
}

/// Writing the associations keyed by text and reading them back gives the same associations.
pub proof fn lemma_text_keyed_roundtrip(
    map: Map<MacAddress, DiscordUserAssociation>,
    text_map: Map<Seq<char>, DiscordUserAssociation>,
    read: Map<MacAddress, DiscordUserAssociation>,
)
    requires
        keyed_by_text(text_map, map),
        is_parsed_map_of(read, text_map),
    ensures
        forall|k: Seq<char>| #[trigger] text_map.contains_key(k) ==> parse_mac_spec(k) is Some,
        read == map,
{
    assert forall|k: Seq<char>| #[trigger] text_map.contains_key(k) implies parse_mac_spec(
        k,
    ) is Some by {
        let w = choose|w: MacAddress| map.contains_key(w) && #[trigger] mac_text(w.bytes()) == k;
        lemma_parse_mac_text(w.bytes());
    }
    assert forall|m: MacAddress| #[trigger] read.contains_key(m) <==> map.contains_key(m) by {
        if map.contains_key(m) {
            lemma_parse_mac_text(m.bytes());
            assert(text_map.contains_key(mac_text(m.bytes())));
            assert(parse_mac_spec(mac_text(m.bytes())) == Some(m.bytes()));
        }
        if read.contains_key(m) {
            let k = choose|k: Seq<char>|
                text_map.contains_key(k) && #[trigger] parse_mac_spec(k) == Some(m.bytes());
            let w = choose|w: MacAddress| map.contains_key(w) && #[trigger] mac_text(w.bytes()) == k;
            lemma_parse_mac_text(w.bytes());
            lemma_parse_mac_text(m.bytes());
            lemma_mac_text_injective(w, m);
        }
    }
    assert forall|m: MacAddress| #[trigger] read.contains_key(m) implies read[m] == map[m] by {
        let k = choose|k: Seq<char>|
            text_map.contains_key(k) && #[trigger] parse_mac_spec(k) == Some(m.bytes()) && read[m]
                == text_map[k];
        let w = choose|w: MacAddress| map.contains_key(w) && #[trigger] mac_text(w.bytes()) == k;
        lemma_parse_mac_text(w.bytes());
        lemma_parse_mac_text(m.bytes());
        lemma_mac_text_injective(w, m);
    }
    assert(read =~= map);
}

/// The persisted associations with the current ones laid over them: an address of the
/// current state keeps its current association.
pub fn merge_current_association_state(persisted: Associations, current: Option<Associations>) -> (r:
    Associations)
    ensures
        r@ == match current {
            Some(c) => persisted@.union_prefer_right(c@),
            None => persisted@,
        },
{
    match current {
        None => persisted,
        Some(current) => {
            let ghost base = persisted@;
            let ghost cur = current@;
            let mut result = persisted;
            let entries = current.entries();
            let mut i: usize = 0;
            proof {
                lemma_keys_before_start(entries@, cur);
                assert(base.union_prefer_right(cur.restrict(keys_before(entries@, 0))) =~= base);
            }
            while i < entries.len()
                invariant
                    i <= entries@.len(),
                    lists_map(entries@, cur),
                    result@ == base.union_prefer_right(cur.restrict(keys_before(entries@, i as int))),
                decreases entries.len() - i,
            {
                let (mac, association) = entries[i];
                proof {
                    lemma_keys_before_step(entries@, cur, i as int);
                    assert(base.union_prefer_right(cur.restrict(keys_before(entries@, i + 1)))
                        =~= result@.insert(mac, association));
                }
                result.insert(mac, association);
                i = i + 1;
            }
            proof {
                lemma_keys_before_all(entries@, cur);
            }
            result
        },
    }
}

/// A store of the associations in a JSON file.
pub struct JsonFileAssociationPersistence {
    pub path: String,
}

impl JsonFileAssociationPersistence {
    /// A store that keeps the associations in the file at `path`.
    pub fn new(path: String) -> (r: JsonFileAssociationPersistence)
        ensures
            r.path@ == path@,
    {
        JsonFileAssociationPersistence { path }
    }
}

/// The path that std's `Path::join` makes of `base` and `name`.
pub uninterp spec fn joined_path(base: Seq<char>, name: Seq<char>) -> Seq<char>;

/// std's `Path::new(base).join(name)`, as text. The documentation of `PathBuf::push` says
/// that an absolute `name` (on Unix, one that starts at the root `/`) replaces `base`; how a
/// relative `name` is joined (where a separator goes) is left to the name `joined_path`.
#[verifier::external_body]
fn join_path(base: &str, name: &str) -> (r: String)
    ensures
        r@ == joined_path(base@, name@),
        name@.len() > 0 && name@[0] == '/' ==> r@ == name@,
{
    std::path::Path::new(base).join(name).to_string_lossy().into_owned()
}

/// A store of the associations file in a git repository, synchronised with a remote branch.
pub struct GitStore {
    pub repo_path: String,
    pub file_name: String,
    pub remote_name: String,
    pub branch_name: String,
    pub ssh_key_path: Option<String>,
}

impl GitStore {
    /// A store of the file `file_name` in the repository at `repo_path`, synchronised with
    /// `branch_name` of `remote_name`, authenticating with the SSH key at `ssh_key_path`
    /// (or the SSH agent where there is none).
    pub fn new(
        repo_path: String,
        file_name: String,
        remote_name: String,
        branch_name: String,
        ssh_key_path: Option<String>,
    ) -> (r: GitStore)
        ensures
            r.repo_path@ == repo_path@,
            r.file_name@ == file_name@,
            r.remote_name@ == remote_name@,
            r.branch_name@ == branch_name@,
            r.ssh_key_path == ssh_key_path,
    {
        GitStore { repo_path, file_name, remote_name, branch_name, ssh_key_path }
    }

    /// The path of the associations file: the file name joined to the repository path.
    pub fn file_path(&self) -> (r: String)
        ensures
            r@ == joined_path(self.repo_path@, self.file_name@),
            self.file_name@.len() > 0 && self.file_name@[0] == '/' ==> r@ == self.file_name@,
    {
        join_path(self.repo_path.as_str(), self.file_name.as_str())
    }

    /// The local branch's reference: `refs/heads/<branch>`.
    pub fn local_branch_ref(&self) -> (r: String)
        ensures
            r@ == "refs/heads/"@ + self.branch_name@,
    {
        let mut s = String::new();
        push_str(&mut s, "refs/heads/");
        push_str(&mut s, self.branch_name.as_str());
        s
    }

    /// The remote-tracking branch's reference: `refs/remotes/<remote>/<branch>`.
    pub fn remote_branch_ref(&self) -> (r: String)
        ensures
            r@ == "refs/remotes/"@ + self.remote_name@ + "/"@ + self.branch_name@,
    {
        let mut s = String::new();
        push_str(&mut s, "refs/remotes/");
        push_str(&mut s, self.remote_name.as_str());
        push_str(&mut s, "/");
        push_str(&mut s, self.branch_name.as_str());
        s
    }

    /// The refspec that pushes the local branch to the same branch of the remote.
    pub fn push_refspec(&self) -> (r: String)
        ensures
            r@ == "refs/heads/"@ + self.branch_name@ + ":refs/heads/"@ + self.branch_name@,
    {
        let mut s = String::new();
        push_str(&mut s, "refs/heads/");
        push_str(&mut s, self.branch_name.as_str());
        push_str(&mut s, ":refs/heads/");
        push_str(&mut s, self.branch_name.as_str());
        s
    }
}

/// The credentials to offer the remote.
#[derive(Debug, PartialEq, Eq)]
pub enum CredentialChoice {
    /// The SSH key at the configured path, for this user name.
    SshKeyFile(String),
    /// A key from the SSH agent, for this user name.
    SshAgent(String),
    /// The default credentials.
    DefaultCredentials,
    /// None of the allowed kinds can be offered.
    NoneAvailable,
}

/// Which credentials to offer, given which kinds the remote allows: an SSH key (from the
/// configured file, else from the agent) for the user name in the URL or `git`; else the
/// default credentials; else none.
pub fn choose_credentials(
    allows_ssh_key: bool,
    allows_default: bool,
    username_from_url: Option<&str>,
    has_ssh_key_path: bool,
) -> (r: CredentialChoice)
    ensures
        allows_ssh_key ==> ({
            let user = match username_from_url {
                Some(u) => u@,
                None => "git"@,
            };
            if has_ssh_key_path {
                r matches CredentialChoice::SshKeyFile(n) && n@ == user
            } else {
                r matches CredentialChoice::SshAgent(n) && n@ == user
            }
        }),
        !allows_ssh_key && allows_default ==> r == CredentialChoice::DefaultCredentials,
        !allows_ssh_key && !allows_default ==> r == CredentialChoice::NoneAvailable,
{
    if allows_ssh_key {
        let mut username = String::new();
        match username_from_url {
            Some(u) => push_str(&mut username, u),
            None => push_str(&mut username, "git"),
        }
        if has_ssh_key_path {
            CredentialChoice::SshKeyFile(username)
        } else {
            CredentialChoice::SshAgent(username)
        }
    } else if allows_default {
        CredentialChoice::DefaultCredentials
    } else {
        CredentialChoice::NoneAvailable
    }
}

/// Where, after fetching the remote branch, the remote's associations file is read from.
#[derive(Debug, Clone, Copy, PartialEq, Eq, Structural)]
pub enum FetchedFileSource {
    /// Nothing is read: the fetch failed, or the local branch is up to date.
    Nothing,
    /// The local branch is fast-forwarded to the fetched commit, then the file is read from
    /// the work tree.
    FastForwardedWorkTree,
    /// The branches diverged: the file is read from the fetched commit.
    FetchedCommit,
}

/// What to read after a fetch, by whether it succeeded and by the merge analysis of the
/// fetched commit against the local branch.
pub fn fetched_file_source(fetch_ok: bool, up_to_date: bool, fast_forward: bool) -> (r:
    FetchedFileSource)
    ensures
        r == (if !fetch_ok || up_to_date {
            FetchedFileSource::Nothing
        } else if fast_forward {
            FetchedFileSource::FastForwardedWorkTree
        } else {
            FetchedFileSource::FetchedCommit
        }),
{
    if !fetch_ok || up_to_date {
        FetchedFileSource::Nothing
    } else if fast_forward {
        FetchedFileSource::FastForwardedWorkTree
    } else {
        FetchedFileSource::FetchedCommit
    }
}

/// What a reconciliation of the git store computes.
pub struct Reconciliation {
    /// The local file merged with the remote one, if there is one.
    pub merged: AssociationsFile,
    /// The merged file updated from the app state, if there is one; it is committed when it
    /// differs from `merged`.
    pub updated: Option<AssociationsFile>,
    /// The app state read back from the final file.
    pub app_state: Associations,
}

/// The reconciliation of the git store: merge the local file with the remote one (last write
/// wins), update the result from the current app state if there is one (at the current time),
/// and read the app state back from the final file.
pub fn reconcile_association_files(
    local: &AssociationsFile,
    remote: Option<&AssociationsFile>,
    current: Option<&Associations>,
) -> (r: Reconciliation)
    ensures
        r.merged.associations@ == match remote {
            Some(f) => lww_merge(local.associations@, f.associations@),
            None => local.associations@,
        },
        match current {
            Some(c) => {
                &&& r.updated is Some
                &&& exists|now: Timestamp|
                    #![trigger is_state_update(r.updated.unwrap().associations@, r.merged.associations@, c@, now)]
                    now.seconds >= 0 && now.nanos < 1_000_000_000 && is_state_update(
                        r.updated.unwrap().associations@,
                        r.merged.associations@,
                        c@,
                        now,
                    )
                &&& is_app_state_of(r.app_state@, r.updated.unwrap().associations@)
            },
            None => r.updated is None && is_app_state_of(r.app_state@, r.merged.associations@),
        },
{
    let merged = match remote {
        Some(remote_file) => local.merge(remote_file),
        None => AssociationsFile { associations: local.associations.clone() },
    };
    match current {
        Some(app_state) => {
            let updated = merged.update_from_app_state(app_state);
            let read = updated.to_app_state();
            let ghost now = choose|now: Timestamp|
                #![trigger is_state_update(updated.associations@, merged.associations@, app_state@, now)]
                now.seconds >= 0 && now.nanos < 1_000_000_000 && is_state_update(
                    updated.associations@,
                    merged.associations@,
                    app_state@,
                    now,
                );
            let r = Reconciliation { merged, updated: Some(updated), app_state: read };
            assert(is_state_update(
                r.updated.unwrap().associations@,
                r.merged.associations@,
                app_state@,
                now,
            ));
            r
        },
        None => {
            let read = merged.to_app_state();
            Reconciliation { merged, updated: None, app_state: read }
        },
    }
}

/// The state that the git store hands back after a reconciliation: the state read back from
/// the store when the reconciliation went through (`synced`), else the caller's current
/// state, else no associations at all.
pub fn persisted_state_or_fallback(
    synced: Option<Associations>,
    current: Option<Associations>,
) -> (r: Associations)
    ensures
        r@ == match synced {
            Some(s) => s@,
            None => match current {
                Some(c) => c@,
                None => Map::<MacAddress, DiscordUserAssociation>::empty(),
            },
        },
{
    match synced {
        Some(state) => state,
        None => match current {
            Some(state) => state,
            None => MacTable::new(),
        },
    }
}

} // verus!
