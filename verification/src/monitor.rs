//! The monitor's decisions: which arrivals and departures to report when the set of
//! connected devices changes, and how user requests change the associations.
use vstd::prelude::*;

use crate::collections::{MacSet, MacTable};
use crate::mac::{DiscordUserAssociation, DiscordUserId, MacAddress, UserAssociationRequest};

verus! {

/// The association table of the monitor: MAC address to owner.
pub type Associations = MacTable<DiscordUserAssociation>;

/// Whether `m` is associated with user `u`.
pub open spec fn associated_with(
    assoc: Map<MacAddress, DiscordUserAssociation>,
    m: MacAddress,
    u: DiscordUserId,
) -> bool {
    assoc.contains_key(m) && assoc[m] == DiscordUserAssociation::Associated(u)
}

/// The users that own at least one of `devices`.
pub open spec fn users_of(
    devices: Set<MacAddress>,
    assoc: Map<MacAddress, DiscordUserAssociation>,
) -> Set<DiscordUserId> {
    Set::new(
        |u: DiscordUserId|
            exists|m: MacAddress| devices.contains(m) && #[trigger] associated_with(assoc, m, u),
    )
}

/// The devices of `devices` of which nothing is known: no association at all.
/// (A device whose owner asked never to be asked is known, and muted.)
pub open spec fn unknown_of(
    devices: Set<MacAddress>,
    assoc: Map<MacAddress, DiscordUserAssociation>,
) -> Set<MacAddress> {
    devices.filter(|m: MacAddress| !assoc.contains_key(m))
}

/// `r` lists each user of `users` once, each beside one of `devices` that belongs to that user.
pub open spec fn lists_users_with_device(
    r: Seq<(DiscordUserId, MacAddress)>,
    users: Set<DiscordUserId>,
    devices: Set<MacAddress>,
    assoc: Map<MacAddress, DiscordUserAssociation>,
) -> bool {
    &&& forall|i: int, j: int|
        0 <= i < r.len() && 0 <= j < r.len() && i != j ==> #[trigger] r[i].0 != #[trigger] r[j].0
    &&& forall|i: int|
        #![trigger r[i]]
        0 <= i < r.len() ==> users.contains(r[i].0) && devices.contains(r[i].1) && associated_with(
            assoc,
            r[i].1,
            r[i].0,
        )
    &&& forall|u: DiscordUserId| #[trigger]
        users.contains(u) ==> exists|i: int| 0 <= i < r.len() && r[i].0 == u
}

/// What to report when the connected devices change, in the order in which it is reported:
/// unknown devices that left, unknown devices that arrived, users that arrived, users that left.
pub struct ConnectionChangeReport {
    pub unknown_disconnected: Vec<MacAddress>,
    pub unknown_connected: Vec<MacAddress>,
    pub users_connected: Vec<(DiscordUserId, MacAddress)>,
    pub users_disconnected: Vec<(DiscordUserId, MacAddress)>,
}

/// `r` is what is to be reported when the connected devices change from `prev` to `cur`:
/// each unknown device that left or arrived once; each user that owns an arrived device and
/// owned none before, once, with such a device; each user that owned a device that left and
/// owns none now, once, with such a device.
pub open spec fn is_change_report(
    r: ConnectionChangeReport,
    prev: Set<MacAddress>,
    cur: Set<MacAddress>,
    assoc: Map<MacAddress, DiscordUserAssociation>,
) -> bool {
    &&& r.unknown_disconnected@.no_duplicates()
    &&& r.unknown_disconnected@.to_set() == unknown_of(prev.difference(cur), assoc)
    &&& r.unknown_connected@.no_duplicates()
    &&& r.unknown_connected@.to_set() == unknown_of(cur.difference(prev), assoc)
    &&& lists_users_with_device(
        r.users_connected@,
        users_of(cur, assoc).difference(users_of(prev, assoc)),
        cur.difference(prev),
        assoc,
    )
    &&& lists_users_with_device(
        r.users_disconnected@,
        users_of(prev, assoc).difference(users_of(cur, assoc)),
        prev.difference(cur),
        assoc,
    )
}

/// The members of `devices` with no association.
fn unknown_devices(devices: &MacSet, assoc: &Associations) -> (r: Vec<MacAddress>)
    ensures
        r@.no_duplicates(),
        r@.to_set() == unknown_of(devices@, assoc@),
{
    let items = devices.items();
    let mut r: Vec<MacAddress> = Vec::new();
    let mut i: usize = 0;
    while i < items.len()
        invariant
            i <= items@.len(),
            items@.no_duplicates(),
            items@.to_set() == devices@,
            r@.no_duplicates(),
            forall|k: int|
                #![trigger r@[k]]
                0 <= k < r@.len() ==> exists|j: int| 0 <= j < i && #[trigger] items@[j] == r@[k],
            r@.to_set() == unknown_of(items@.take(i as int).to_set(), assoc@),
        decreases items.len() - i,
    {
        let m = items[i];
        proof {
            items@.take(i as int).lemma_push_to_set_commute(m);
            assert(items@.take(i as int).push(m) =~= items@.take(i + 1));
        }
        if !assoc.contains_key(&m) {
            let ghost before = r@;
            r.push(m);
            proof {
                before.lemma_push_to_set_commute(m);
                assert forall|a: int, b: int|
                    0 <= a < r@.len() && 0 <= b < r@.len() && a != b implies r@[a] != r@[b] by {
                    if a == before.len() as int {
                        let j = choose|j: int| 0 <= j < i && items@[j] == r@[b];
                        assert(items@[j] != items@[i as int]);
                    } else if b == before.len() as int {
                        let j = choose|j: int| 0 <= j < i && items@[j] == r@[a];
                        assert(items@[j] != items@[i as int]);
                    }
                }
                assert forall|k: int| #![trigger r@[k]] 0 <= k < r@.len() implies exists|j: int|
                    0 <= j < i + 1 && #[trigger] items@[j] == r@[k] by {
                    if k == before.len() as int {
                        assert(items@[i as int] == r@[k]);
                    } else {
                        let j = choose|j: int| 0 <= j < i && items@[j] == before[k];
                        assert(items@[j] == r@[k]);
                    }
                }
            }
        }
        assert(r@.to_set() =~= unknown_of(items@.take(i + 1).to_set(), assoc@));
        i = i + 1;
    }
    assert(items@.take(items@.len() as int) =~= items@);
    r
}

/// Whether `u` occurs in `users`.
fn has_user(users: &Vec<DiscordUserId>, u: DiscordUserId) -> (r: bool)
    ensures
        r == users@.contains(u),
{
    let mut i: usize = 0;
    while i < users.len()
        invariant
            i <= users@.len(),
            forall|j: int| 0 <= j < i ==> users@[j] != u,
        decreases users.len() - i,
    {
        if users[i] == u {
            assert(users@[i as int] == u);
            return true;
        }
        i = i + 1;
    }
    false
}

/// Adding a device adds its owner, if it has one.
proof fn lemma_users_of_insert(
    s: Set<MacAddress>,
    m: MacAddress,
    assoc: Map<MacAddress, DiscordUserAssociation>,
)
    ensures
        users_of(s.insert(m), assoc) == (if assoc.contains_key(m)
            && assoc[m] is Associated {
            users_of(s, assoc).insert(assoc[m]->Associated_0)
        } else {
            users_of(s, assoc)
        }),
{
    let lhs = users_of(s.insert(m), assoc);
    let rhs = if assoc.contains_key(m) && assoc[m] is Associated {
        users_of(s, assoc).insert(assoc[m]->Associated_0)
    } else {
        users_of(s, assoc)
    };
    assert forall|u: DiscordUserId| lhs.contains(u) implies rhs.contains(u) by {
        let w = choose|w: MacAddress| s.insert(m).contains(w) && associated_with(assoc, w, u);
        if w != m {
            assert(s.contains(w) && associated_with(assoc, w, u));
        }
    }
    assert forall|u: DiscordUserId| rhs.contains(u) implies lhs.contains(u) by {
        if users_of(s, assoc).contains(u) {
            let w = choose|w: MacAddress| s.contains(w) && associated_with(assoc, w, u);
            assert(s.insert(m).contains(w) && associated_with(assoc, w, u));
        } else {
            assert(s.insert(m).contains(m) && associated_with(assoc, m, u));
        }
    }
    assert(lhs =~= rhs);
}

proof fn lemma_users_of_empty(assoc: Map<MacAddress, DiscordUserAssociation>)
    ensures
        users_of(Set::<MacAddress>::empty(), assoc) == Set::<DiscordUserId>::empty(),
{
    assert(users_of(Set::<MacAddress>::empty(), assoc) =~= Set::<DiscordUserId>::empty());
}

/// The owners of `devices`, each once.
fn owners(devices: &MacSet, assoc: &Associations) -> (r: Vec<DiscordUserId>)
    ensures
        r@.no_duplicates(),
        r@.to_set() == users_of(devices@, assoc@),
{
    let items = devices.items();
    let mut r: Vec<DiscordUserId> = Vec::new();
    let mut i: usize = 0;
    proof {
        assert(items@.take(0).to_set() =~= Set::<MacAddress>::empty());
        lemma_users_of_empty(assoc@);
        assert(r@.to_set() =~= Set::<DiscordUserId>::empty());
    }
    while i < items.len()
        invariant
            i <= items@.len(),
            items@.to_set() == devices@,
            r@.no_duplicates(),
            r@.to_set() == users_of(items@.take(i as int).to_set(), assoc@),
        decreases items.len() - i,
    {
        let m = items[i];
        proof {
            items@.take(i as int).lemma_push_to_set_commute(m);
            assert(items@.take(i as int).push(m) =~= items@.take(i + 1));
            lemma_users_of_insert(items@.take(i as int).to_set(), m, assoc@);
        }
        match assoc.get(&m) {
            Some(DiscordUserAssociation::Associated(u)) => {
                if !has_user(&r, u) {
                    let ghost before = r@;
                    r.push(u);
                    proof {
                        before.lemma_push_to_set_commute(u);
                        assert forall|a: int, b: int|
                            0 <= a < r@.len() && 0 <= b < r@.len() && a != b implies r@[a]
                            != r@[b] by {
                            if a == before.len() as int {
                                assert(before.contains(r@[b]));
                            } else if b == before.len() as int {
                                assert(before.contains(r@[a]));
                            }
                        }
                    }
                } else {
                    assert(r@.to_set().insert(u) =~= r@.to_set());
                }
            },
            _ => {},
        }
        i = i + 1;
    }
    assert(items@.take(items@.len() as int) =~= items@);
    r
}

/// A member of `devices` that belongs to `u`, if there is one.
fn device_of(devices: &MacSet, u: DiscordUserId, assoc: &Associations) -> (r: Option<MacAddress>)
    ensures
        match r {
            Some(m) => devices@.contains(m) && associated_with(assoc@, m, u),
            None => forall|m: MacAddress| devices@.contains(m) ==> !associated_with(assoc@, m, u),
        },
{
    let items = devices.items();
    let mut i: usize = 0;
    while i < items.len()
        invariant
            i <= items@.len(),
            items@.to_set() == devices@,
            forall|j: int| 0 <= j < i ==> !associated_with(assoc@, #[trigger] items@[j], u),
        decreases items.len() - i,
    {
        let m = items[i];
        match assoc.get(&m) {
            Some(DiscordUserAssociation::Associated(v)) => {
                if v == u {
                    assert(items@.contains(m));
                    return Some(m);
                }
            },
            _ => {},
        }
        i = i + 1;
    }
    proof {
        assert forall|m: MacAddress| devices@.contains(m) implies !associated_with(assoc@, m, u) by {
            let j = choose|j: int| 0 <= j < items@.len() && items@[j] == m;
            assert(!associated_with(assoc@, items@[j], u));
        }
    }
    None
}

/// The users among `now_users` that are not among `before_users`, each with one of
/// `arrived` that belongs to them. Such a device always exists when every device of
/// `now_devices` that is not in `arrived` is also a device of `before_devices`.
fn changed_users(
    now_users: &Vec<DiscordUserId>,
    before_users: &Vec<DiscordUserId>,
    arrived: &MacSet,
    Ghost(now_devices): Ghost<Set<MacAddress>>,
    Ghost(before_devices): Ghost<Set<MacAddress>>,
    assoc: &Associations,
) -> (r: Vec<(DiscordUserId, MacAddress)>)
    requires
        now_users@.no_duplicates(),
        now_users@.to_set() == users_of(now_devices, assoc@),
        before_users@.to_set() == users_of(before_devices, assoc@),
        arrived@ == now_devices.difference(before_devices),
    ensures
        lists_users_with_device(
            r@,
            users_of(now_devices, assoc@).difference(users_of(before_devices, assoc@)),
            arrived@,
            assoc@,
        ),
{
    let ghost target = users_of(now_devices, assoc@).difference(users_of(before_devices, assoc@));
    let mut r: Vec<(DiscordUserId, MacAddress)> = Vec::new();
    let mut i: usize = 0;
    while i < now_users.len()
        invariant
            i <= now_users@.len(),
            now_users@.no_duplicates(),
            now_users@.to_set() == users_of(now_devices, assoc@),
            before_users@.to_set() == users_of(before_devices, assoc@),
            arrived@ == now_devices.difference(before_devices),
            target == users_of(now_devices, assoc@).difference(users_of(before_devices, assoc@)),
            forall|k: int|
                0 <= k < r@.len() ==> exists|j: int| 0 <= j < i && now_users@[j] == #[trigger] r@[k].0,
            forall|a: int, b: int|
                0 <= a < r@.len() && 0 <= b < r@.len() && a != b ==> #[trigger] r@[a].0
                    != #[trigger] r@[b].0,
            forall|k: int|
                0 <= k < r@.len() ==> #[trigger] target.contains(r@[k].0) && arrived@.contains(
                    r@[k].1,
                ) && associated_with(assoc@, r@[k].1, r@[k].0),
            forall|j: int|
                0 <= j < i && #[trigger] target.contains(now_users@[j]) ==> exists|k: int|
                    0 <= k < r@.len() && r@[k].0 == now_users@[j],
        decreases now_users.len() - i,
    {
        let u = now_users[i];
        assert(now_users@.contains(u));
        if !has_user(before_users, u) {
            assert(target.contains(u));
            let found = device_of(arrived, u, assoc);
            match found {
                Some(m) => {
                    let ghost before = r@;
                    r.push((u, m));
                    proof {
                        assert forall|a: int, b: int|
                            0 <= a < r@.len() && 0 <= b < r@.len() && a != b implies #[trigger] r@[a].0
                            != #[trigger] r@[b].0 by {
                            if a == before.len() as int {
                                let j = choose|j: int| 0 <= j < i && now_users@[j] == r@[b].0;
                                assert(now_users@[j] != now_users@[i as int]);
                            } else if b == before.len() as int {
                                let j = choose|j: int| 0 <= j < i && now_users@[j] == r@[a].0;
                                assert(now_users@[j] != now_users@[i as int]);
                            }
                        }
                        assert forall|k: int| 0 <= k < r@.len() implies exists|j: int|
                            0 <= j < i + 1 && now_users@[j] == #[trigger] r@[k].0 by {
                            if k == before.len() as int {
                                assert(now_users@[i as int] == r@[k].0);
                            } else {
                                let j = choose|j: int| 0 <= j < i && now_users@[j] == before[k].0;
                                assert(now_users@[j] == r@[k].0);
                            }
                        }
                        assert forall|j: int|
                            0 <= j < i + 1 && #[trigger] target.contains(now_users@[j]) implies exists|k: int|
                            0 <= k < r@.len() && r@[k].0 == now_users@[j] by {
                            if j == i as int {
                                assert(r@[before.len() as int].0 == now_users@[j]);
                            } else {
                                let k = choose|k: int| 0 <= k < before.len() && before[k].0 == now_users@[j];
                                assert(r@[k].0 == now_users@[j]);
                            }
                        }
                    }
                },
                None => {
                    proof {
                        // The user owns a connected device; it did not own a device before,
                        // so that device arrived.
                        let w = choose|w: MacAddress|
                            now_devices.contains(w) && associated_with(assoc@, w, u);
                        if before_devices.contains(w) {
                            assert(users_of(before_devices, assoc@).contains(u));
                            assert(before_users@.to_set().contains(u));
                        }
                        assert(arrived@.contains(w));
                    }
                },
            }
        }
        i = i + 1;
    }
    proof {
        assert forall|u: DiscordUserId| #[trigger] target.contains(u) implies exists|k: int|
            0 <= k < r@.len() && r@[k].0 == u by {
            assert(now_users@.to_set().contains(u));
            let j = choose|j: int| 0 <= j < now_users@.len() && now_users@[j] == u;
            assert(target.contains(now_users@[j]));
        }
    }
    r
}

/// What to report when the connected devices change from `previously_connected` to
/// `currently_connected`. Every user that arrives (or leaves) is reported beside a device of
/// theirs that arrived (or left): such a device always exists.
pub fn plan_connected_addresses_change(
    previously_connected: &MacSet,
    currently_connected: &MacSet,
    association: &Associations,
) -> (r: ConnectionChangeReport)
    ensures
        is_change_report(r, previously_connected@, currently_connected@, association@),
{
    let newly_connected = currently_connected.difference(previously_connected);
    let disconnected = previously_connected.difference(currently_connected);
    let unknown_disconnected = unknown_devices(&disconnected, association);
    let unknown_connected = unknown_devices(&newly_connected, association);
    let previous_users = owners(previously_connected, association);
    let current_users = owners(currently_connected, association);
    let users_connected = changed_users(
        &current_users,
        &previous_users,
        &newly_connected,
        Ghost(currently_connected@),
        Ghost(previously_connected@),
        association,
    );
    let users_disconnected = changed_users(
        &previous_users,
        &current_users,
        &disconnected,
        Ghost(previously_connected@),
        Ghost(currently_connected@),
        association,
    );
    ConnectionChangeReport {
        unknown_disconnected,
        unknown_connected,
        users_connected,
        users_disconnected,
    }
}

/// The associations after `request`: the device is the user's, or is muted.
pub open spec fn apply_request_spec(
    assoc: Map<MacAddress, DiscordUserAssociation>,
    request: UserAssociationRequest,
) -> Map<MacAddress, DiscordUserAssociation> {
    match request {
        UserAssociationRequest::AssociateRequest(m, u) => assoc.insert(
            m,
            DiscordUserAssociation::Associated(u),
        ),
        UserAssociationRequest::NeverAskForAssociationInFutureRequest(m) => assoc.insert(
            m,
            DiscordUserAssociation::AskedNotToAssociateUser,
        ),
    }
}

/// The state that the monitor's main loop keeps: the associations and the devices connected
/// at the last scan. Each event of the loop is one method; what it returns is to be reported.
pub struct AppState {
    association: Associations,
    connected: MacSet,
}

impl AppState {
    /// The associations.
    pub closed spec fn association_view(self) -> Map<MacAddress, DiscordUserAssociation> {
        self.association@
    }

    /// The devices connected at the last scan.
    pub closed spec fn connected_view(self) -> Set<MacAddress> {
        self.connected@
    }

    /// The state at start-up.
    pub fn new(association: Associations, initial_connected: MacSet) -> (r: AppState)
        ensures
            r.association_view() == association@,
            r.connected_view() == initial_connected@,
    {
        AppState { association, connected: initial_connected }
    }

    /// The associations.
    pub fn association(&self) -> (r: &Associations)
        ensures
            r@ == self.association_view(),
    {
        &self.association
    }

    /// The devices connected at the last scan.
    pub fn connected(&self) -> (r: &MacSet)
        ensures
            r@ == self.connected_view(),
    {
        &self.connected
    }

    /// A new scan found `latest` connected: returns what to report, and remembers `latest`.
    pub fn on_connected_addresses_update(&mut self, latest: MacSet) -> (r: ConnectionChangeReport)
        ensures
            is_change_report(
                r,
                old(self).connected_view(),
                latest@,
                old(self).association_view(),
            ),
            final(self).connected_view() == latest@,
            final(self).association_view() == old(self).association_view(),
    {
        let r = plan_connected_addresses_change(&self.connected, &latest, &self.association);
        self.connected = latest;
        r
    }

    /// A user asked to claim or to mute a device.
    pub fn on_association_request(&mut self, request: UserAssociationRequest)
        ensures
            final(self).association_view() == apply_request_spec(
                old(self).association_view(),
                request,
            ),
            final(self).connected_view() == old(self).connected_view(),
    {
        match request {
            UserAssociationRequest::AssociateRequest(mac_address, discord_user_id) => {
                self.association.insert(
                    mac_address,
                    DiscordUserAssociation::Associated(discord_user_id),
                );
            },
            UserAssociationRequest::NeverAskForAssociationInFutureRequest(mac_address) => {
                self.association.insert(
                    mac_address,
                    DiscordUserAssociation::AskedNotToAssociateUser,
                );
            },
        }
    }

    /// The persisted associations were reconciled with the current ones into `state`.
    pub fn on_association_state_reconciled(&mut self, state: Associations)
        ensures
            final(self).association_view() == state@,
            final(self).connected_view() == old(self).connected_view(),
    {
        self.association = state;
    }
}

/// A device whose owner asked never to be asked again is never reported, neither as an
/// unknown device nor beside a user.
pub proof fn lemma_muted_device_never_reported(
    r: ConnectionChangeReport,
    prev: Set<MacAddress>,
    cur: Set<MacAddress>,
    assoc: Map<MacAddress, DiscordUserAssociation>,
    m: MacAddress,
)
    requires
        is_change_report(r, prev, cur, assoc),
        assoc.contains_key(m),
        assoc[m] == DiscordUserAssociation::AskedNotToAssociateUser,
    ensures
        !r.unknown_disconnected@.contains(m),
        !r.unknown_connected@.contains(m),
        forall|i: int| 0 <= i < r.users_connected@.len() ==> #[trigger] r.users_connected@[i].1 != m,
        forall|i: int|
            0 <= i < r.users_disconnected@.len() ==> #[trigger] r.users_disconnected@[i].1 != m,
{
    if r.unknown_disconnected@.contains(m) {
        assert(r.unknown_disconnected@.to_set().contains(m));
    }
    if r.unknown_connected@.contains(m) {
        assert(r.unknown_connected@.to_set().contains(m));
    }
}

/// When the connected devices do not change, nothing is reported.
pub proof fn lemma_no_change_no_report(
    r: ConnectionChangeReport,
    devices: Set<MacAddress>,
    assoc: Map<MacAddress, DiscordUserAssociation>,
)
    requires
        is_change_report(r, devices, devices, assoc),
    ensures
        r.unknown_disconnected@.len() == 0,
        r.unknown_connected@.len() == 0,
        r.users_connected@.len() == 0,
        r.users_disconnected@.len() == 0,
{
    if r.unknown_disconnected@.len() > 0 {
        assert(r.unknown_disconnected@.to_set().contains(r.unknown_disconnected@[0]));
    }
    if r.unknown_connected@.len() > 0 {
        assert(r.unknown_connected@.to_set().contains(r.unknown_connected@[0]));
    }
    if r.users_connected@.len() > 0 {
        assert(devices.difference(devices).contains(r.users_connected@[0].1));
    }
    if r.users_disconnected@.len() > 0 {
        assert(devices.difference(devices).contains(r.users_disconnected@[0].1));
    }
}

/// What is reported going from `prev` to `cur` is, with arrivals and departures exchanged,
/// what is reported going back from `cur` to `prev`.
pub proof fn lemma_change_report_reversed(
    r: ConnectionChangeReport,
    prev: Set<MacAddress>,
    cur: Set<MacAddress>,
    assoc: Map<MacAddress, DiscordUserAssociation>,
)
    requires
        is_change_report(r, prev, cur, assoc),
    ensures
        is_change_report(
            ConnectionChangeReport {
                unknown_disconnected: r.unknown_connected,
                unknown_connected: r.unknown_disconnected,
                users_connected: r.users_disconnected,
                users_disconnected: r.users_connected,
            },
            cur,
            prev,
            assoc,
        ),
{
}

/// Once a user has claimed a device, or asked never to be asked about it, that device is
/// never again reported as an unknown device.
pub proof fn lemma_answered_device_not_unknown(
    r: ConnectionChangeReport,
    prev: Set<MacAddress>,
    cur: Set<MacAddress>,
    assoc: Map<MacAddress, DiscordUserAssociation>,
    request: UserAssociationRequest,
)
    requires
        is_change_report(r, prev, cur, apply_request_spec(assoc, request)),
    ensures
        ({
            let m = match request {
                UserAssociationRequest::AssociateRequest(m, _) => m,
                UserAssociationRequest::NeverAskForAssociationInFutureRequest(m) => m,
            };
            !r.unknown_disconnected@.contains(m) && !r.unknown_connected@.contains(m)
        }),
{
    let m = match request {
        UserAssociationRequest::AssociateRequest(m, _) => m,
        UserAssociationRequest::NeverAskForAssociationInFutureRequest(m) => m,
    };
    if r.unknown_disconnected@.contains(m) {
        assert(r.unknown_disconnected@.to_set().contains(m));
    }
    if r.unknown_connected@.contains(m) {
        assert(r.unknown_connected@.to_set().contains(m));
    }
}

/// Once a user has claimed a device, the arrival of that device while none of the user's
/// devices was connected is reported as the user's arrival.
pub proof fn lemma_claimed_device_announces_owner(
    r: ConnectionChangeReport,
    prev: Set<MacAddress>,
    cur: Set<MacAddress>,
    assoc: Map<MacAddress, DiscordUserAssociation>,
    m: MacAddress,
    u: DiscordUserId,
)
    requires
        is_change_report(
            r,
            prev,
            cur,
            apply_request_spec(assoc, UserAssociationRequest::AssociateRequest(m, u)),
        ),
        cur.contains(m),
        !users_of(
            prev,
            apply_request_spec(assoc, UserAssociationRequest::AssociateRequest(m, u)),
        ).contains(u),
    ensures
        exists|i: int| 0 <= i < r.users_connected@.len() && r.users_connected@[i].0 == u,
{
    let a = apply_request_spec(assoc, UserAssociationRequest::AssociateRequest(m, u));
    assert(associated_with(a, m, u));
    assert(users_of(cur, a).contains(u));
    assert(users_of(cur, a).difference(users_of(prev, a)).contains(u));
}

/// A request changes the association of its own address only: that address becomes the
/// user's (a claim) or muted (a mute), and every other address keeps what it had, present
/// or absent.
pub proof fn lemma_request_changes_only_its_address(
    assoc: Map<MacAddress, DiscordUserAssociation>,
    request: UserAssociationRequest,
)
    ensures
        ({
            let (m, a) = match request {
                UserAssociationRequest::AssociateRequest(m, u) => (
                    m,
                    DiscordUserAssociation::Associated(u),
                ),
                UserAssociationRequest::NeverAskForAssociationInFutureRequest(m) => (
                    m,
                    DiscordUserAssociation::AskedNotToAssociateUser,
                ),
            };
            let after = apply_request_spec(assoc, request);
            &&& after.contains_key(m)
            &&& after[m] == a
            &&& after.remove(m) == assoc.remove(m)
            &&& forall|k: MacAddress| k != m ==> (#[trigger] after.contains_key(k) <==> assoc.contains_key(k))
            &&& forall|k: MacAddress| k != m && assoc.contains_key(k) ==> #[trigger] after[k] == assoc[k]
        }),
{
    let m = match request {
        UserAssociationRequest::AssociateRequest(m, _) => m,
        UserAssociationRequest::NeverAskForAssociationInFutureRequest(m) => m,
    };
    assert(apply_request_spec(assoc, request).remove(m) =~= assoc.remove(m));
}

} // verus!
