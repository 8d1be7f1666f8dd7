//! The entity store: an in-memory, transactional store of the five tables.
//!
//! Each table is a vector in insertion order, and every record carries a
//! unique identifier; [`MemoryStore::inv`] captures that uniqueness. The
//! store provides the read/write contract the delivery service depends on:
//! get/list/insert/update per entity, a "not found" signal distinct from
//! "query failed", indivisible key-package consumption, and paired writes
//! for commit acceptance (see the service layer).
//!
//! Insertion order doubles as creation order: records are appended at the
//! end, and a group is moved to the end whenever it is updated. "Newest
//! first" and "most recently updated first" are therefore reverse insertion
//! order, and "oldest first" is insertion order.

use crate::entities::Client;
use crate::entities::ClientModel;
use crate::entities::Group;
use crate::entities::GroupModel;
use crate::entities::KeyPackage;
use crate::entities::KeyPackageModel;
use crate::entities::Membership;
use crate::entities::MembershipModel;
use crate::entities::Message;
use crate::entities::MessageModel;
use crate::errors::DbError;
use crate::seqs::keep;
use crate::seqs::keep_rev;
use crate::seqs::lemma_keep_push;
use crate::seqs::lemma_keep_rev_drop_first;
use vstd::prelude::*;

verus! {

/// The store's mathematical state: one model sequence per table, in
/// insertion order.
#[verifier::ext_equal]
pub struct StoreModel {
    pub clients: Seq<ClientModel>,
    pub key_packages: Seq<KeyPackageModel>,
    pub groups: Seq<GroupModel>,
    pub memberships: Seq<MembershipModel>,
    pub messages: Seq<MessageModel>,
}

// ---------------------------------------------------------------------------
// Lookups and uniqueness, one set per table
// ---------------------------------------------------------------------------

pub open spec fn has_client(s: Seq<ClientModel>, id: u128) -> bool {
    exists|i: int| 0 <= i < s.len() && (#[trigger] s[i]).id == id
}

pub open spec fn client_index(s: Seq<ClientModel>, id: u128) -> int {
    choose|i: int| 0 <= i < s.len() && (#[trigger] s[i]).id == id
}

pub open spec fn client_at(s: Seq<ClientModel>, id: u128) -> ClientModel {
    s[client_index(s, id)]
}

pub open spec fn distinct_client_ids(s: Seq<ClientModel>) -> bool {
    forall|i: int, j: int|
        0 <= i < j < s.len() ==> (#[trigger] s[i]).id != (#[trigger] s[j]).id
}

/// With distinct ids, any position holding `id` is the position `client_index`
/// chooses.
pub proof fn lemma_client_index_is(s: Seq<ClientModel>, id: u128, i: int)
    requires
        distinct_client_ids(s),
        0 <= i < s.len(),
        s[i].id == id,
    ensures
        has_client(s, id),
        client_index(s, id) == i,
{
    assert(has_client(s, id));
    let k = client_index(s, id);
    assert(0 <= k < s.len() && s[k].id == id);
    if k < i {
        assert(s[k].id != s[i].id);
    } else if i < k {
        assert(s[i].id != s[k].id);
    }
}

pub open spec fn has_key_package(s: Seq<KeyPackageModel>, id: u128) -> bool {
    exists|i: int| 0 <= i < s.len() && (#[trigger] s[i]).id == id
}

pub open spec fn key_package_index(s: Seq<KeyPackageModel>, id: u128) -> int {
    choose|i: int| 0 <= i < s.len() && (#[trigger] s[i]).id == id
}

pub open spec fn key_package_at(s: Seq<KeyPackageModel>, id: u128) -> KeyPackageModel {
    s[key_package_index(s, id)]
}

pub open spec fn distinct_key_package_ids(s: Seq<KeyPackageModel>) -> bool {
    forall|i: int, j: int|
        0 <= i < j < s.len() ==> (#[trigger] s[i]).id != (#[trigger] s[j]).id
}

pub proof fn lemma_key_package_index_is(s: Seq<KeyPackageModel>, id: u128, i: int)
    requires
        distinct_key_package_ids(s),
        0 <= i < s.len(),
        s[i].id == id,
    ensures
        has_key_package(s, id),
        key_package_index(s, id) == i,
{
    assert(has_key_package(s, id));
    let k = key_package_index(s, id);
    assert(0 <= k < s.len() && s[k].id == id);
    if k < i {
        assert(s[k].id != s[i].id);
    } else if i < k {
        assert(s[i].id != s[k].id);
    }
}

pub open spec fn has_group(s: Seq<GroupModel>, id: u128) -> bool {
    exists|i: int| 0 <= i < s.len() && (#[trigger] s[i]).id == id
}

pub open spec fn group_index(s: Seq<GroupModel>, id: u128) -> int {
    choose|i: int| 0 <= i < s.len() && (#[trigger] s[i]).id == id
}

pub open spec fn group_at(s: Seq<GroupModel>, id: u128) -> GroupModel {
    s[group_index(s, id)]
}

pub open spec fn distinct_group_ids(s: Seq<GroupModel>) -> bool {
    forall|i: int, j: int|
        0 <= i < j < s.len() ==> (#[trigger] s[i]).id != (#[trigger] s[j]).id
}

pub proof fn lemma_group_index_is(s: Seq<GroupModel>, id: u128, i: int)
    requires
        distinct_group_ids(s),
        0 <= i < s.len(),
        s[i].id == id,
    ensures
        has_group(s, id),
        group_index(s, id) == i,
{
    assert(has_group(s, id));
    let k = group_index(s, id);
    assert(0 <= k < s.len() && s[k].id == id);
    if k < i {
        assert(s[k].id != s[i].id);
    } else if i < k {
        assert(s[i].id != s[k].id);
    }
}

pub open spec fn has_membership(s: Seq<MembershipModel>, id: u128) -> bool {
    exists|i: int| 0 <= i < s.len() && (#[trigger] s[i]).id == id
}

pub open spec fn membership_index(s: Seq<MembershipModel>, id: u128) -> int {
    choose|i: int| 0 <= i < s.len() && (#[trigger] s[i]).id == id
}

pub open spec fn membership_at(s: Seq<MembershipModel>, id: u128) -> MembershipModel {
    s[membership_index(s, id)]
}

pub open spec fn distinct_membership_ids(s: Seq<MembershipModel>) -> bool {
    forall|i: int, j: int|
        0 <= i < j < s.len() ==> (#[trigger] s[i]).id != (#[trigger] s[j]).id
}

pub proof fn lemma_membership_index_is(s: Seq<MembershipModel>, id: u128, i: int)
    requires
        distinct_membership_ids(s),
        0 <= i < s.len(),
        s[i].id == id,
    ensures
        has_membership(s, id),
        membership_index(s, id) == i,
{
    assert(has_membership(s, id));
    let k = membership_index(s, id);
    assert(0 <= k < s.len() && s[k].id == id);
    if k < i {
        assert(s[k].id != s[i].id);
    } else if i < k {
        assert(s[i].id != s[k].id);
    }
}

pub open spec fn has_message(s: Seq<MessageModel>, id: u128) -> bool {
    exists|i: int| 0 <= i < s.len() && (#[trigger] s[i]).id == id
}

pub open spec fn distinct_message_ids(s: Seq<MessageModel>) -> bool {
    forall|i: int, j: int|
        0 <= i < j < s.len() ==> (#[trigger] s[i]).id != (#[trigger] s[j]).id
}

// ---------------------------------------------------------------------------
// Query predicates
// ---------------------------------------------------------------------------

/// The clients owned by a user.
pub open spec fn client_of_user(user_id: u128) -> spec_fn(ClientModel) -> bool {
    |c: ClientModel| c.user_id == user_id
}

/// The key packages of a client that are still unused: callers must never
/// receive an already-consumed package.
pub open spec fn unused_key_package_of(client_id: u128) -> spec_fn(KeyPackageModel) -> bool {
    |k: KeyPackageModel| k.client_id == client_id && !k.used
}

/// A client is active in a group iff some membership row binds the two with
/// `removed_at` unset.
pub open spec fn is_active_member(
    ms: Seq<MembershipModel>,
    client_id: u128,
    group_id: u128,
) -> bool {
    exists|i: int|
        0 <= i < ms.len() && (#[trigger] ms[i]).client_id == client_id && ms[i].group_id
            == group_id && ms[i].removed_at is None
}

/// The groups a client sees: the group is active and the client holds an
/// active membership in it.
pub open spec fn group_visible_to(ms: Seq<MembershipModel>, client_id: u128) -> spec_fn(
    GroupModel,
) -> bool {
    |g: GroupModel| g.is_active && is_active_member(ms, client_id, g.id)
}

/// The membership rows of a group, removed ones included (history visible).
pub open spec fn membership_of_group(group_id: u128) -> spec_fn(MembershipModel) -> bool {
    |m: MembershipModel| m.group_id == group_id
}

/// The membership rows of a client, removed ones included.
pub open spec fn membership_of_client(client_id: u128) -> spec_fn(MembershipModel) -> bool {
    |m: MembershipModel| m.client_id == client_id
}

/// A message a client may fetch. With an explicit group filter, membership
/// is not re-verified: the filter alone scopes the messages. Without one, the
/// client must hold an active membership in the message's group. Read
/// messages are excluded unless `include_read` is set.
pub open spec fn message_visible_to(
    ms: Seq<MembershipModel>,
    client_id: u128,
    group_filter: Option<u128>,
    include_read: bool,
) -> spec_fn(MessageModel) -> bool {
    |m: MessageModel|
        (match group_filter {
            Some(g) => m.group_id == g,
            None => is_active_member(ms, client_id, m.group_id),
        }) && (include_read || !m.read)
}

// ---------------------------------------------------------------------------
// The store
// ---------------------------------------------------------------------------

/// In-memory entity store. Records are only ever appended or updated in
/// place; nothing is hard-deleted.
pub struct MemoryStore {
    clients: Vec<Client>,
    key_packages: Vec<KeyPackage>,
    groups: Vec<Group>,
    memberships: Vec<Membership>,
    messages: Vec<Message>,
}

impl View for MemoryStore {
    type V = StoreModel;

    closed spec fn view(&self) -> StoreModel {
        StoreModel {
            clients: self.clients.deep_view(),
            key_packages: self.key_packages.deep_view(),
            groups: self.groups.deep_view(),
            memberships: self.memberships.deep_view(),
            messages: self.messages.deep_view(),
        }
    }
}

impl MemoryStore {
    /// Every identifier is unique within its table.
    pub open spec fn inv(&self) -> bool {
        &&& distinct_client_ids(self@.clients)
        &&& distinct_key_package_ids(self@.key_packages)
        &&& distinct_group_ids(self@.groups)
        &&& distinct_membership_ids(self@.memberships)
        &&& distinct_message_ids(self@.messages)
    }

    /// An empty store.
    pub fn new() -> (r: Self)
        ensures
            r.inv(),
            r@ == (StoreModel {
                clients: Seq::empty(),
                key_packages: Seq::empty(),
                groups: Seq::empty(),
                memberships: Seq::empty(),
                messages: Seq::empty(),
            }),
    {
        let r = MemoryStore {
            clients: Vec::new(),
            key_packages: Vec::new(),
            groups: Vec::new(),
            memberships: Vec::new(),
            messages: Vec::new(),
        };
        proof {
            assert(r@ =~= StoreModel {
                clients: Seq::empty(),
                key_packages: Seq::empty(),
                groups: Seq::empty(),
                memberships: Seq::empty(),
                messages: Seq::empty(),
            });
        }
        r
    }

    // -----------------------------------------------------------------------
    // Clients
    // -----------------------------------------------------------------------

    /// Inserts a new client record; refuses a duplicate identifier.
    pub fn register_client(&mut self, client: Client) -> (r: Result<(), DbError>)
        requires
            old(self).inv(),
        ensures
            final(self).inv(),
            has_client(old(self)@.clients, client@.id) ==> (r matches Err(e) && e is QueryError
                && final(self)@ == old(self)@),
            !has_client(old(self)@.clients, client@.id) ==> r is Ok && final(self)@
                == (StoreModel { clients: old(self)@.clients.push(client@), ..old(self)@ }),
    {
        match find_client_pos(&self.clients, client.id) {
            Some(_) => Err(DbError::QueryError("duplicate identifier".to_owned())),
            None => {
                self.clients.push(client);
                proof {
                    assert(self@.clients =~= old(self)@.clients.push(client@));
                    assert(self@ =~= (StoreModel {
                        clients: old(self)@.clients.push(client@),
                        ..old(self)@
                    }));
                }
                Ok(())
            },
        }
    }

    /// Returns the client with the given identifier, or `NotFound`.
    pub fn get_client(&self, client_id: u128) -> (r: Result<Client, DbError>)
        requires
            self.inv(),
        ensures
            r is Ok <==> has_client(self@.clients, client_id),
            r matches Ok(c) ==> c@ == client_at(self@.clients, client_id),
            r matches Err(e) ==> e is NotFound,
    {
        match find_client_pos(&self.clients, client_id) {
            Some(i) => {
                let c = self.clients[i].clone();
                proof {
                    lemma_client_index_is(self@.clients, client_id, i as int);
                }
                Ok(c)
            },
            None => Err(DbError::NotFound),
        }
    }

    /// All clients of a user, newest first.
    pub fn list_clients_by_user(&self, user_id: u128) -> (r: Vec<Client>)
        ensures
            r.deep_view() == keep_rev(self@.clients, client_of_user(user_id)),
    {
        let mut r: Vec<Client> = Vec::new();
        let mut i: usize = self.clients.len();
        proof {
            assert(self@.clients.skip(i as int) =~= Seq::<ClientModel>::empty());
            assert(r.deep_view() =~= Seq::<ClientModel>::empty());
        }
        while i > 0
            invariant
                i <= self.clients.len(),
                r.deep_view() == keep_rev(self@.clients.skip(i as int), client_of_user(user_id)),
            decreases i,
        {
            i = i - 1;
            proof {
                let s = self@.clients.skip(i as int);
                lemma_keep_rev_drop_first(s, client_of_user(user_id));
                assert(s.drop_first() =~= self@.clients.skip(i as int + 1));
                assert(s.first() == self@.clients[i as int]);
            }
            if self.clients[i].user_id == user_id {
                let ghost pre = r.deep_view();
                r.push(self.clients[i].clone());
                proof {
                    assert(r.deep_view() =~= pre.push(self@.clients[i as int]));
                }
            }
        }
        proof {
            assert(self@.clients.skip(0) =~= self@.clients);
        }
        r
    }

    /// Sets a client's `last_seen` to the given time.
    pub fn update_client_last_seen(&mut self, client_id: u128, now: i64) -> (r: Result<
        (),
        DbError,
    >)
        requires
            old(self).inv(),
        ensures
            final(self).inv(),
            r is Ok <==> has_client(old(self)@.clients, client_id),
            r matches Err(e) ==> e is NotFound && final(self)@ == old(self)@,
            r is Ok ==> final(self)@ == (StoreModel {
                clients: old(self)@.clients.update(
                    client_index(old(self)@.clients, client_id),
                    ClientModel {
                        last_seen: now,
                        ..client_at(old(self)@.clients, client_id)
                    },
                ),
                ..old(self)@
            }),
    {
        match find_client_pos(&self.clients, client_id) {
            Some(i) => {
                proof {
                    lemma_client_index_is(self@.clients, client_id, i as int);
                }
                let mut c = self.clients.remove(i);
                c.last_seen = now;
                self.clients.insert(i, c);
                proof {
                    let j = i as int;
                    let os = old(self)@.clients;
                    assert(self@.clients =~= os.update(
                        j,
                        ClientModel { last_seen: now, ..os[j] },
                    ));
                    assert(self@ =~= (StoreModel {
                        clients: os.update(j, ClientModel { last_seen: now, ..os[j] }),
                        ..old(self)@
                    }));
                }
                Ok(())
            },
            None => Err(DbError::NotFound),
        }
    }
}

impl MemoryStore {
    // -----------------------------------------------------------------------
    // Key packages
    // -----------------------------------------------------------------------

    /// Inserts a new key-package record; refuses a duplicate identifier.
    pub fn store_key_package(&mut self, key_package: KeyPackage) -> (r: Result<(), DbError>)
        requires
            old(self).inv(),
        ensures
            final(self).inv(),
            has_key_package(old(self)@.key_packages, key_package@.id) ==> (r matches Err(e)
                && e is QueryError && final(self)@ == old(self)@),
            !has_key_package(old(self)@.key_packages, key_package@.id) ==> r is Ok
                && final(self)@ == (StoreModel {
                key_packages: old(self)@.key_packages.push(key_package@),
                ..old(self)@
            }),
    {
        match find_key_package_pos(&self.key_packages, key_package.id) {
            Some(_) => Err(DbError::QueryError("duplicate identifier".to_owned())),
            None => {
                self.key_packages.push(key_package);
                proof {
                    assert(self@.key_packages =~= old(self)@.key_packages.push(key_package@));
                    assert(self@ =~= (StoreModel {
                        key_packages: old(self)@.key_packages.push(key_package@),
                        ..old(self)@
                    }));
                }
                Ok(())
            },
        }
    }

    /// Returns the key package with the given identifier, or `NotFound`.
    pub fn get_key_package(&self, key_package_id: u128) -> (r: Result<KeyPackage, DbError>)
        requires
            self.inv(),
        ensures
            r is Ok <==> has_key_package(self@.key_packages, key_package_id),
            r matches Ok(k) ==> k@ == key_package_at(self@.key_packages, key_package_id),
            r matches Err(e) ==> e is NotFound,
    {
        match find_key_package_pos(&self.key_packages, key_package_id) {
            Some(i) => {
                let k = self.key_packages[i].clone();
                proof {
                    lemma_key_package_index_is(self@.key_packages, key_package_id, i as int);
                }
                Ok(k)
            },
            None => Err(DbError::NotFound),
        }
    }

    /// The still-unused key packages of a client, newest first.
    pub fn list_key_packages_by_client(&self, client_id: u128) -> (r: Vec<KeyPackage>)
        ensures
            r.deep_view() == keep_rev(self@.key_packages, unused_key_package_of(client_id)),
    {
        let mut r: Vec<KeyPackage> = Vec::new();
        let mut i: usize = self.key_packages.len();
        proof {
            assert(self@.key_packages.skip(i as int) =~= Seq::<KeyPackageModel>::empty());
            assert(r.deep_view() =~= Seq::<KeyPackageModel>::empty());
        }
        while i > 0
            invariant
                i <= self.key_packages.len(),
                r.deep_view() == keep_rev(
                    self@.key_packages.skip(i as int),
                    unused_key_package_of(client_id),
                ),
            decreases i,
        {
            i = i - 1;
            proof {
                let s = self@.key_packages.skip(i as int);
                lemma_keep_rev_drop_first(s, unused_key_package_of(client_id));
                assert(s.drop_first() =~= self@.key_packages.skip(i as int + 1));
                assert(s.first() == self@.key_packages[i as int]);
            }
            if self.key_packages[i].client_id == client_id && !self.key_packages[i].used {
                let ghost pre = r.deep_view();
                r.push(self.key_packages[i].clone());
                proof {
                    assert(r.deep_view() =~= pre.push(self@.key_packages[i as int]));
                }
            }
        }
        proof {
            assert(self@.key_packages.skip(0) =~= self@.key_packages);
        }
        r
    }

    /// Marks a key package used and reports whether this call made the
    /// transition: `Ok(true)` exactly when the package was still unused, so
    /// at most one consumer ever observes the package as fresh. The flag
    /// never reverts.
    pub fn mark_key_package_used(&mut self, key_package_id: u128) -> (r: Result<bool, DbError>)
        requires
            old(self).inv(),
        ensures
            final(self).inv(),
            r is Ok <==> has_key_package(old(self)@.key_packages, key_package_id),
            r matches Err(e) ==> e is NotFound && final(self)@ == old(self)@,
            r matches Ok(fresh) ==> fresh == !key_package_at(
                old(self)@.key_packages,
                key_package_id,
            ).used && final(self)@ == (StoreModel {
                key_packages: old(self)@.key_packages.update(
                    key_package_index(old(self)@.key_packages, key_package_id),
                    KeyPackageModel {
                        used: true,
                        ..key_package_at(old(self)@.key_packages, key_package_id)
                    },
                ),
                ..old(self)@
            }),
    {
        match find_key_package_pos(&self.key_packages, key_package_id) {
            Some(i) => {
                proof {
                    lemma_key_package_index_is(self@.key_packages, key_package_id, i as int);
                }
                let fresh = !self.key_packages[i].used;
                let mut k = self.key_packages.remove(i);
                k.used = true;
                self.key_packages.insert(i, k);
                proof {
                    let j = i as int;
                    let os = old(self)@.key_packages;
                    assert(self@.key_packages =~= os.update(
                        j,
                        KeyPackageModel { used: true, ..os[j] },
                    ));
                    assert(self@ =~= (StoreModel {
                        key_packages: os.update(j, KeyPackageModel { used: true, ..os[j] }),
                        ..old(self)@
                    }));
                }
                Ok(fresh)
            },
            None => Err(DbError::NotFound),
        }
    }

    // -----------------------------------------------------------------------
    // Groups
    // -----------------------------------------------------------------------

    /// Inserts a new group record; refuses a duplicate identifier.
    pub fn create_group(&mut self, group: Group) -> (r: Result<(), DbError>)
        requires
            old(self).inv(),
        ensures
            final(self).inv(),
            has_group(old(self)@.groups, group@.id) ==> (r matches Err(e) && e is QueryError
                && final(self)@ == old(self)@),
            !has_group(old(self)@.groups, group@.id) ==> r is Ok && final(self)@ == (StoreModel {
                groups: old(self)@.groups.push(group@),
                ..old(self)@
            }),
    {
        match find_group_pos(&self.groups, group.id) {
            Some(_) => Err(DbError::QueryError("duplicate identifier".to_owned())),
            None => {
                self.groups.push(group);
                proof {
                    assert(self@.groups =~= old(self)@.groups.push(group@));
                    assert(self@ =~= (StoreModel {
                        groups: old(self)@.groups.push(group@),
                        ..old(self)@
                    }));
                }
                Ok(())
            },
        }
    }

    /// Returns the group with the given identifier, or `NotFound`.
    pub fn get_group(&self, group_id: u128) -> (r: Result<Group, DbError>)
        requires
            self.inv(),
        ensures
            r is Ok <==> has_group(self@.groups, group_id),
            r matches Ok(g) ==> g@ == group_at(self@.groups, group_id),
            r matches Err(e) ==> e is NotFound,
    {
        match find_group_pos(&self.groups, group_id) {
            Some(i) => {
                let g = self.groups[i].clone();
                proof {
                    lemma_group_index_is(self@.groups, group_id, i as int);
                }
                Ok(g)
            },
            None => Err(DbError::NotFound),
        }
    }

    /// The active groups in which the client holds an active membership,
    /// most recently updated first.
    pub fn list_groups_by_client(&self, client_id: u128) -> (r: Vec<Group>)
        ensures
            r.deep_view() == keep_rev(
                self@.groups,
                group_visible_to(self@.memberships, client_id),
            ),
    {
        let mut r: Vec<Group> = Vec::new();
        let mut i: usize = self.groups.len();
        proof {
            assert(self@.groups.skip(i as int) =~= Seq::<GroupModel>::empty());
            assert(r.deep_view() =~= Seq::<GroupModel>::empty());
        }
        while i > 0
            invariant
                i <= self.groups.len(),
                r.deep_view() == keep_rev(
                    self@.groups.skip(i as int),
                    group_visible_to(self@.memberships, client_id),
                ),
            decreases i,
        {
            i = i - 1;
            proof {
                let s = self@.groups.skip(i as int);
                lemma_keep_rev_drop_first(s, group_visible_to(self@.memberships, client_id));
                assert(s.drop_first() =~= self@.groups.skip(i as int + 1));
                assert(s.first() == self@.groups[i as int]);
            }
            let visible = self.groups[i].is_active && is_active_member_exec(
                &self.memberships,
                client_id,
                self.groups[i].id,
            );
            if visible {
                let ghost pre = r.deep_view();
                r.push(self.groups[i].clone());
                proof {
                    assert(r.deep_view() =~= pre.push(self@.groups[i as int]));
                }
            }
        }
        proof {
            assert(self@.groups.skip(0) =~= self@.groups);
        }
        r
    }

    /// Sets a group's epoch and `updated_at`, and moves the record to the
    /// end of the table so that insertion order stays update order.
    pub fn update_group_epoch(&mut self, group_id: u128, epoch: u64, now: i64) -> (r: Result<
        (),
        DbError,
    >)
        requires
            old(self).inv(),
        ensures
            final(self).inv(),
            r is Ok <==> has_group(old(self)@.groups, group_id),
            r matches Err(e) ==> e is NotFound && final(self)@ == old(self)@,
            r is Ok ==> final(self)@ == (StoreModel {
                groups: old(self)@.groups.remove(group_index(old(self)@.groups, group_id)).push(
                    GroupModel {
                        epoch,
                        updated_at: now,
                        ..group_at(old(self)@.groups, group_id)
                    },
                ),
                ..old(self)@
            }),
    {
        match find_group_pos(&self.groups, group_id) {
            Some(i) => {
                proof {
                    lemma_group_index_is(self@.groups, group_id, i as int);
                }
                let mut g = self.groups.remove(i);
                g.epoch = epoch;
                g.updated_at = now;
                self.groups.push(g);
                proof {
                    let j = i as int;
                    let os = old(self)@.groups;
                    let ns = os.remove(j).push(
                        GroupModel { epoch, updated_at: now, ..os[j] },
                    );
                    assert(self@.groups =~= ns);
                    lemma_distinct_groups_relocate(os, j, ns);
                    assert(self@ =~= (StoreModel { groups: ns, ..old(self)@ }));
                }
                Ok(())
            },
            None => Err(DbError::NotFound),
        }
    }

    /// Replaces a group's opaque state blob and sets `updated_at`, moving
    /// the record to the end of the table as every group update does.
    pub fn update_group_state(&mut self, group_id: u128, state: Vec<u8>, now: i64) -> (r: Result<
        (),
        DbError,
    >)
        requires
            old(self).inv(),
        ensures
            final(self).inv(),
            r is Ok <==> has_group(old(self)@.groups, group_id),
            r matches Err(e) ==> e is NotFound && final(self)@ == old(self)@,
            r is Ok ==> final(self)@ == (StoreModel {
                groups: old(self)@.groups.remove(group_index(old(self)@.groups, group_id)).push(
                    GroupModel {
                        state: Some(state@),
                        updated_at: now,
                        ..group_at(old(self)@.groups, group_id)
                    },
                ),
                ..old(self)@
            }),
    {
        match find_group_pos(&self.groups, group_id) {
            Some(i) => {
                proof {
                    lemma_group_index_is(self@.groups, group_id, i as int);
                }
                let mut g = self.groups.remove(i);
                g.state = Some(state);
                g.updated_at = now;
                self.groups.push(g);
                proof {
                    let j = i as int;
                    let os = old(self)@.groups;
                    let ns = os.remove(j).push(
                        GroupModel { state: Some(state@), updated_at: now, ..os[j] },
                    );
                    assert(self@.groups =~= ns);
                    lemma_distinct_groups_relocate(os, j, ns);
                    assert(self@ =~= (StoreModel { groups: ns, ..old(self)@ }));
                }
                Ok(())
            },
            None => Err(DbError::NotFound),
        }
    }
}

impl MemoryStore {
    // -----------------------------------------------------------------------
    // Compound writes
    // -----------------------------------------------------------------------

    /// The paired write of group creation: inserts the group and its
    /// creator's membership together, all or nothing, so no group can exist
    /// without its first membership.
    pub fn create_group_with_admin(&mut self, group: Group, membership: Membership) -> (r: Result<
        (),
        DbError,
    >)
        requires
            old(self).inv(),
        ensures
            final(self).inv(),
            r is Ok <==> !has_group(old(self)@.groups, group@.id) && !has_membership(
                old(self)@.memberships,
                membership@.id,
            ),
            r matches Err(e) ==> e is QueryError && final(self)@ == old(self)@,
            r is Ok ==> final(self)@ == (StoreModel {
                groups: old(self)@.groups.push(group@),
                memberships: old(self)@.memberships.push(membership@),
                ..old(self)@
            }),
    {
        if find_group_pos(&self.groups, group.id).is_some() {
            return Err(DbError::QueryError("duplicate identifier".to_owned()));
        }
        if find_membership_pos(&self.memberships, membership.id).is_some() {
            return Err(DbError::QueryError("duplicate identifier".to_owned()));
        }
        self.groups.push(group);
        self.memberships.push(membership);
        proof {
            assert(self@.groups =~= old(self)@.groups.push(group@));
            assert(self@.memberships =~= old(self)@.memberships.push(membership@));
            assert(self@ =~= (StoreModel {
                groups: old(self)@.groups.push(group@),
                memberships: old(self)@.memberships.push(membership@),
                ..old(self)@
            }));
        }
        Ok(())
    }

    /// The paired write of commit acceptance: inserts the commit message and
    /// advances the owning group's epoch together, all or nothing, so the
    /// two can never diverge. The group record moves to the end of its
    /// table, as every group update does.
    pub fn store_commit_message(&mut self, message: Message, epoch: u64, now: i64) -> (r: Result<
        (),
        DbError,
    >)
        requires
            old(self).inv(),
        ensures
            final(self).inv(),
            !has_group(old(self)@.groups, message@.group_id) ==> (r matches Err(e) && e is NotFound
                && final(self)@ == old(self)@),
            has_group(old(self)@.groups, message@.group_id) && has_message(
                old(self)@.messages,
                message@.id,
            ) ==> (r matches Err(e) && e is QueryError && final(self)@ == old(self)@),
            r is Ok <==> has_group(old(self)@.groups, message@.group_id) && !has_message(
                old(self)@.messages,
                message@.id,
            ),
            r is Ok ==> final(self)@ == (StoreModel {
                messages: old(self)@.messages.push(message@),
                groups: old(self)@.groups.remove(
                    group_index(old(self)@.groups, message@.group_id),
                ).push(
                    GroupModel {
                        epoch,
                        updated_at: now,
                        ..group_at(old(self)@.groups, message@.group_id)
                    },
                ),
                ..old(self)@
            }),
    {
        let gpos = match find_group_pos(&self.groups, message.group_id) {
            Some(i) => i,
            None => {
                return Err(DbError::NotFound);
            },
        };
        if find_message_pos(&self.messages, message.id).is_some() {
            return Err(DbError::QueryError("duplicate identifier".to_owned()));
        }
        proof {
            lemma_group_index_is(self@.groups, message@.group_id, gpos as int);
        }
        let ghost pre = self@;
        self.messages.push(message);
        let mut g = self.groups.remove(gpos);
        g.epoch = epoch;
        g.updated_at = now;
        self.groups.push(g);
        proof {
            let j = gpos as int;
            let os = pre.groups;
            let ns = os.remove(j).push(GroupModel { epoch, updated_at: now, ..os[j] });
            assert(self@.groups =~= ns);
            lemma_distinct_groups_relocate(os, j, ns);
            assert(self@.messages =~= pre.messages.push(message@));
            assert(self@ =~= (StoreModel { messages: pre.messages.push(message@), groups: ns, ..pre }));
        }
        Ok(())
    }

    // -----------------------------------------------------------------------
    // Memberships
    // -----------------------------------------------------------------------

    /// Inserts a new membership row; refuses a duplicate identifier. Nothing
    /// else is enforced: in particular a second active membership for the
    /// same client and group is accepted.
    pub fn add_membership(&mut self, membership: Membership) -> (r: Result<(), DbError>)
        requires
            old(self).inv(),
        ensures
            final(self).inv(),
            has_membership(old(self)@.memberships, membership@.id) ==> (r matches Err(e)
                && e is QueryError && final(self)@ == old(self)@),
            !has_membership(old(self)@.memberships, membership@.id) ==> r is Ok
                && final(self)@ == (StoreModel {
                memberships: old(self)@.memberships.push(membership@),
                ..old(self)@
            }),
    {
        match find_membership_pos(&self.memberships, membership.id) {
            Some(_) => Err(DbError::QueryError("duplicate identifier".to_owned())),
            None => {
                self.memberships.push(membership);
                proof {
                    assert(self@.memberships =~= old(self)@.memberships.push(membership@));
                    assert(self@ =~= (StoreModel {
                        memberships: old(self)@.memberships.push(membership@),
                        ..old(self)@
                    }));
                }
                Ok(())
            },
        }
    }

    /// Soft-deletes a membership: sets `removed_at` to the given time. The
    /// row stays, and repeating the call on an already-removed membership is
    /// accepted (it overwrites the removal time).
    pub fn remove_membership(&mut self, membership_id: u128, now: i64) -> (r: Result<
        (),
        DbError,
    >)
        requires
            old(self).inv(),
        ensures
            final(self).inv(),
            r is Ok <==> has_membership(old(self)@.memberships, membership_id),
            r matches Err(e) ==> e is NotFound && final(self)@ == old(self)@,
            r is Ok ==> final(self)@ == (StoreModel {
                memberships: old(self)@.memberships.update(
                    membership_index(old(self)@.memberships, membership_id),
                    MembershipModel {
                        removed_at: Some(now),
                        ..membership_at(old(self)@.memberships, membership_id)
                    },
                ),
                ..old(self)@
            }),
    {
        match find_membership_pos(&self.memberships, membership_id) {
            Some(i) => {
                proof {
                    lemma_membership_index_is(self@.memberships, membership_id, i as int);
                }
                let mut m = self.memberships.remove(i);
                m.removed_at = Some(now);
                self.memberships.insert(i, m);
                proof {
                    let j = i as int;
                    let os = old(self)@.memberships;
                    assert(self@.memberships =~= os.update(
                        j,
                        MembershipModel { removed_at: Some(now), ..os[j] },
                    ));
                    assert(self@ =~= (StoreModel {
                        memberships: os.update(
                            j,
                            MembershipModel { removed_at: Some(now), ..os[j] },
                        ),
                        ..old(self)@
                    }));
                }
                Ok(())
            },
            None => Err(DbError::NotFound),
        }
    }

    /// All membership rows of a group, removed ones included, in the order
    /// they were added.
    pub fn list_memberships_by_group(&self, group_id: u128) -> (r: Vec<Membership>)
        ensures
            r.deep_view() == keep(self@.memberships, membership_of_group(group_id)),
    {
        let mut r: Vec<Membership> = Vec::new();
        proof {
            assert(self@.memberships.subrange(0, 0) =~= Seq::<MembershipModel>::empty());
            assert(r.deep_view() =~= Seq::<MembershipModel>::empty());
        }
        let mut i: usize = 0;
        while i < self.memberships.len()
            invariant
                i <= self.memberships.len(),
                r.deep_view() == keep(
                    self@.memberships.subrange(0, i as int),
                    membership_of_group(group_id),
                ),
            decreases self.memberships.len() - i,
        {
            proof {
                lemma_keep_push(
                    self@.memberships.subrange(0, i as int),
                    membership_of_group(group_id),
                    self@.memberships[i as int],
                );
                assert(self@.memberships.subrange(0, i as int + 1) =~= self@.memberships.subrange(
                    0,
                    i as int,
                ).push(self@.memberships[i as int]));
            }
            if self.memberships[i].group_id == group_id {
                let ghost pre = r.deep_view();
                r.push(self.memberships[i].clone());
                proof {
                    assert(r.deep_view() =~= pre.push(self@.memberships[i as int]));
                }
            }
            i = i + 1;
        }
        proof {
            assert(self@.memberships.subrange(0, self@.memberships.len() as int)
                =~= self@.memberships);
        }
        r
    }

    /// All membership rows of a client, removed ones included, in the order
    /// they were added.
    pub fn list_memberships_by_client(&self, client_id: u128) -> (r: Vec<Membership>)
        ensures
            r.deep_view() == keep(self@.memberships, membership_of_client(client_id)),
    {
        let mut r: Vec<Membership> = Vec::new();
        proof {
            assert(self@.memberships.subrange(0, 0) =~= Seq::<MembershipModel>::empty());
            assert(r.deep_view() =~= Seq::<MembershipModel>::empty());
        }
        let mut i: usize = 0;
        while i < self.memberships.len()
            invariant
                i <= self.memberships.len(),
                r.deep_view() == keep(
                    self@.memberships.subrange(0, i as int),
                    membership_of_client(client_id),
                ),
            decreases self.memberships.len() - i,
        {
            proof {
                lemma_keep_push(
                    self@.memberships.subrange(0, i as int),
                    membership_of_client(client_id),
                    self@.memberships[i as int],
                );
                assert(self@.memberships.subrange(0, i as int + 1) =~= self@.memberships.subrange(
                    0,
                    i as int,
                ).push(self@.memberships[i as int]));
            }
            if self.memberships[i].client_id == client_id {
                let ghost pre = r.deep_view();
                r.push(self.memberships[i].clone());
                proof {
                    assert(r.deep_view() =~= pre.push(self@.memberships[i as int]));
                }
            }
            i = i + 1;
        }
        proof {
            assert(self@.memberships.subrange(0, self@.memberships.len() as int)
                =~= self@.memberships);
        }
        r
    }

    // -----------------------------------------------------------------------
    // Messages
    // -----------------------------------------------------------------------

    /// Inserts a new message record; refuses a duplicate identifier.
    pub fn store_message(&mut self, message: Message) -> (r: Result<(), DbError>)
        requires
            old(self).inv(),
        ensures
            final(self).inv(),
            has_message(old(self)@.messages, message@.id) ==> (r matches Err(e) && e is QueryError
                && final(self)@ == old(self)@),
            !has_message(old(self)@.messages, message@.id) ==> r is Ok && final(self)@
                == (StoreModel { messages: old(self)@.messages.push(message@), ..old(self)@ }),
    {
        match find_message_pos(&self.messages, message.id) {
            Some(_) => Err(DbError::QueryError("duplicate identifier".to_owned())),
            None => {
                self.messages.push(message);
                proof {
                    assert(self@.messages =~= old(self)@.messages.push(message@));
                    assert(self@ =~= (StoreModel {
                        messages: old(self)@.messages.push(message@),
                        ..old(self)@
                    }));
                }
                Ok(())
            },
        }
    }

    /// The messages a client may fetch, oldest first: scoped by the group
    /// filter if one is given, else by the client's active memberships, and
    /// restricted to unread messages unless `include_read` is set.
    pub fn fetch_messages_for_client(
        &self,
        client_id: u128,
        group_id: Option<u128>,
        include_read: bool,
    ) -> (r: Vec<Message>)
        ensures
            r.deep_view() == keep(
                self@.messages,
                message_visible_to(self@.memberships, client_id, group_id, include_read),
            ),
    {
        let mut r: Vec<Message> = Vec::new();
        proof {
            assert(self@.messages.subrange(0, 0) =~= Seq::<MessageModel>::empty());
            assert(r.deep_view() =~= Seq::<MessageModel>::empty());
        }
        let mut i: usize = 0;
        while i < self.messages.len()
            invariant
                i <= self.messages.len(),
                r.deep_view() == keep(
                    self@.messages.subrange(0, i as int),
                    message_visible_to(self@.memberships, client_id, group_id, include_read),
                ),
            decreases self.messages.len() - i,
        {
            proof {
                lemma_keep_push(
                    self@.messages.subrange(0, i as int),
                    message_visible_to(self@.memberships, client_id, group_id, include_read),
                    self@.messages[i as int],
                );
                assert(self@.messages.subrange(0, i as int + 1) =~= self@.messages.subrange(
                    0,
                    i as int,
                ).push(self@.messages[i as int]));
            }
            let in_scope = match group_id {
                Some(g) => self.messages[i].group_id == g,
                None => is_active_member_exec(
                    &self.memberships,
                    client_id,
                    self.messages[i].group_id,
                ),
            };
            if in_scope && (include_read || !self.messages[i].read) {
                let ghost pre = r.deep_view();
                r.push(self.messages[i].clone());
                proof {
                    assert(r.deep_view() =~= pre.push(self@.messages[i as int]));
                }
            }
            i = i + 1;
        }
        proof {
            assert(self@.messages.subrange(0, self@.messages.len() as int) =~= self@.messages);
        }
        r
    }

    /// Marks each listed message read; identifiers that match no stored
    /// message are silently skipped. Nothing else of any message changes.
    pub fn mark_messages_read(&mut self, message_ids: &Vec<u128>)
        requires
            old(self).inv(),
        ensures
            final(self).inv(),
            final(self)@.messages.len() == old(self)@.messages.len(),
            forall|j: int|
                0 <= j < old(self)@.messages.len() ==> final(self)@.messages[j] == (MessageModel {
                    read: old(self)@.messages[j].read || message_ids@.contains(
                        old(self)@.messages[j].id,
                    ),
                    ..old(self)@.messages[j]
                }),
            final(self)@.clients == old(self)@.clients,
            final(self)@.key_packages == old(self)@.key_packages,
            final(self)@.groups == old(self)@.groups,
            final(self)@.memberships == old(self)@.memberships,
    {
        let mut i: usize = 0;
        while i < self.messages.len()
            invariant
                i <= self.messages.len(),
                self@.messages.len() == old(self)@.messages.len(),
                forall|j: int|
                    0 <= j < i ==> self@.messages[j] == (MessageModel {
                        read: old(self)@.messages[j].read || message_ids@.contains(
                            old(self)@.messages[j].id,
                        ),
                        ..old(self)@.messages[j]
                    }),
                forall|j: int|
                    i <= j < self@.messages.len() ==> self@.messages[j] == old(
                        self,
                    )@.messages[j],
                self@.clients == old(self)@.clients,
                self@.key_packages == old(self)@.key_packages,
                self@.groups == old(self)@.groups,
                self@.memberships == old(self)@.memberships,
            decreases self.messages.len() - i,
        {
            if contains_id(message_ids, self.messages[i].id) {
                let ghost pre = self@.messages;
                let mut m = self.messages.remove(i);
                m.read = true;
                self.messages.insert(i, m);
                proof {
                    assert(self@.messages =~= pre.update(
                        i as int,
                        MessageModel { read: true, ..pre[i as int] },
                    ));
                }
            }
            i = i + 1;
        }
        proof {
            assert forall|p: int, q: int|
                0 <= p < q < self@.messages.len() implies (#[trigger] self@.messages[p]).id != (
            #[trigger] self@.messages[q]).id by {
                assert(self@.messages[p].id == old(self)@.messages[p].id);
                assert(self@.messages[q].id == old(self)@.messages[q].id);
            }
        }
    }
}

/// Whether the identifier occurs in the list.
fn contains_id(v: &Vec<u128>, id: u128) -> (r: bool)
    ensures
        r == v@.contains(id),
{
    let mut i: usize = 0;
    while i < v.len()
        invariant
            i <= v.len(),
            forall|j: int| 0 <= j < i ==> v@[j] != id,
        decreases v.len() - i,
    {
        if v[i] == id {
            return true;
        }
        i = i + 1;
    }
    false
}

/// Moving a record to the end of a table, its identifier kept, preserves the
/// uniqueness of identifiers.
pub proof fn lemma_distinct_groups_relocate(os: Seq<GroupModel>, j: int, ns: Seq<GroupModel>)
    requires
        distinct_group_ids(os),
        0 <= j < os.len(),
        ns.len() == os.len(),
        forall|p: int| 0 <= p < os.len() - 1 ==> (#[trigger] ns[p]).id == os[relocate_src(p, j)].id,
        ns[os.len() - 1].id == os[j].id,
    ensures
        distinct_group_ids(ns),
{
    assert forall|p: int, q: int| 0 <= p < q < ns.len() implies (#[trigger] ns[p]).id != (
    #[trigger] ns[q]).id by {
        if q < ns.len() - 1 {
            assert(ns[p].id == os[relocate_src(p, j)].id);
            assert(ns[q].id == os[relocate_src(q, j)].id);
            assert(relocate_src(p, j) != relocate_src(q, j));
        } else {
            assert(ns[p].id == os[relocate_src(p, j)].id);
            assert(relocate_src(p, j) != j);
        }
    }
}

/// Where element `p` of a table with element `j` removed came from.
pub open spec fn relocate_src(p: int, j: int) -> int {
    if p < j {
        p
    } else {
        p + 1
    }
}

/// First position in the table holding the identifier, if any.
fn find_client_pos(v: &Vec<Client>, id: u128) -> (r: Option<usize>)
    ensures
        r matches Some(i) ==> i < v.deep_view().len() && v.deep_view()[i as int].id == id,
        r is None ==> !has_client(v.deep_view(), id),
{
    let mut i: usize = 0;
    while i < v.len()
        invariant
            i <= v.len(),
            forall|j: int| 0 <= j < i ==> (#[trigger] v.deep_view()[j]).id != id,
        decreases v.len() - i,
    {
        if v[i].id == id {
            return Some(i);
        }
        i = i + 1;
    }
    None
}

/// First position in the table holding the identifier, if any.
fn find_key_package_pos(v: &Vec<KeyPackage>, id: u128) -> (r: Option<usize>)
    ensures
        r matches Some(i) ==> i < v.deep_view().len() && v.deep_view()[i as int].id == id,
        r is None ==> !has_key_package(v.deep_view(), id),
{
    let mut i: usize = 0;
    while i < v.len()
        invariant
            i <= v.len(),
            forall|j: int| 0 <= j < i ==> (#[trigger] v.deep_view()[j]).id != id,
        decreases v.len() - i,
    {
        if v[i].id == id {
            return Some(i);
        }
        i = i + 1;
    }
    None
}

/// First position in the table holding the identifier, if any.
fn find_group_pos(v: &Vec<Group>, id: u128) -> (r: Option<usize>)
    ensures
        r matches Some(i) ==> i < v.deep_view().len() && v.deep_view()[i as int].id == id,
        r is None ==> !has_group(v.deep_view(), id),
{
    let mut i: usize = 0;
    while i < v.len()
        invariant
            i <= v.len(),
            forall|j: int| 0 <= j < i ==> (#[trigger] v.deep_view()[j]).id != id,
        decreases v.len() - i,
    {
        if v[i].id == id {
            return Some(i);
        }
        i = i + 1;
    }
    None
}

/// First position in the table holding the identifier, if any.
fn find_membership_pos(v: &Vec<Membership>, id: u128) -> (r: Option<usize>)
    ensures
        r matches Some(i) ==> i < v.deep_view().len() && v.deep_view()[i as int].id == id,
        r is None ==> !has_membership(v.deep_view(), id),
{
    let mut i: usize = 0;
    while i < v.len()
        invariant
            i <= v.len(),
            forall|j: int| 0 <= j < i ==> (#[trigger] v.deep_view()[j]).id != id,
        decreases v.len() - i,
    {
        if v[i].id == id {
            return Some(i);
        }
        i = i + 1;
    }
    None
}

/// First position in the table holding the identifier, if any.
fn find_message_pos(v: &Vec<Message>, id: u128) -> (r: Option<usize>)
    ensures
        r matches Some(i) ==> i < v.deep_view().len() && v.deep_view()[i as int].id == id,
        r is None ==> !has_message(v.deep_view(), id),
{
    let mut i: usize = 0;
    while i < v.len()
        invariant
            i <= v.len(),
            forall|j: int| 0 <= j < i ==> (#[trigger] v.deep_view()[j]).id != id,
        decreases v.len() - i,
    {
        if v[i].id == id {
            return Some(i);
        }
        i = i + 1;
    }
    None
}

/// Whether the client holds an active (non-removed) membership in the group.
fn is_active_member_exec(ms: &Vec<Membership>, client_id: u128, group_id: u128) -> (r: bool)
    ensures
        r == is_active_member(ms.deep_view(), client_id, group_id),
{
    let mut i: usize = 0;
    while i < ms.len()
        invariant
            i <= ms.len(),
            forall|j: int|
                0 <= j < i ==> !((#[trigger] ms.deep_view()[j]).client_id == client_id
                    && ms.deep_view()[j].group_id == group_id && ms.deep_view()[j].removed_at
                    is None),
        decreases ms.len() - i,
    {
        if ms[i].client_id == client_id && ms[i].group_id == group_id
            && ms[i].removed_at.is_none() {
            proof {
                assert(ms.deep_view()[i as int].client_id == client_id);
            }
            return true;
        }
        i = i + 1;
    }
    false
}

} // verus!
