//! The delivery service: every protocol operation, with its contract.
//!
//! Each operation validates the well-formedness of its identifiers before
//! touching the store, runs the format validator where a payload comes in,
//! applies the store transition, and maps store failures onto the stable
//! error taxonomy. The service holds no state beyond the store and the
//! validator switch: every cross-request rule lives in the store's
//! contracts.
//!
//! Commit acceptance is hardened here: a commit whose target epoch does not
//! exceed the group's current epoch is rejected as `InvalidArgument`, so the
//! epochs a group passes through strictly increase. Target epochs that skip
//! ahead by more than one are accepted.

use crate::clock::now_micros;
use crate::entities::Client;
use crate::entities::ClientModel;
use crate::entities::Group;
use crate::entities::GroupModel;
use crate::entities::KeyPackage;
use crate::entities::Membership;
use crate::entities::MembershipModel;
use crate::entities::Message;
use crate::entities::MessageBody;
use crate::entities::MessageBodyModel;
use crate::entities::MessageModel;
use crate::errors::map_db_error;
use crate::errors::ServiceError;
use crate::ids::fresh_id;
use crate::ids::id_text_of;
use crate::ids::parse_id;
use crate::ids::parsed_id;
use crate::ids::render_id;
use crate::mls::basic_credential_bytes;
use crate::mls::check_key_package;
use crate::mls::encode_basic_credential;
use crate::mls::fresh_init_key;
use crate::seqs::keep;
use crate::seqs::keep_rev;
use crate::store::client_at;
use crate::store::client_index;
use crate::store::client_of_user;
use crate::store::group_at;
use crate::store::group_index;
use crate::store::group_visible_to;
use crate::store::has_client;
use crate::store::has_group;
use crate::store::has_key_package;
use crate::store::has_membership;
use crate::store::has_message;
use crate::store::key_package_at;
use crate::store::membership_at;
use crate::store::membership_index;
use crate::store::membership_of_group;
use crate::store::message_visible_to;
use crate::store::unused_key_package_of;
use crate::store::MemoryStore;
use crate::store::StoreModel;
use vstd::prelude::*;
use vstd::string::StringSliceAdditionalSpecFns;

verus! {

/// The delivery service over an entity store.
///
/// With `skip_validation` set (the testing configuration), the format
/// validator accepts every payload; otherwise it rejects empty payloads
/// everywhere and runs the protocol library's key-package check.
pub struct MLSServiceImpl {
    /// The backing store. Exposed so that a test harness can seed and
    /// inspect records directly, as a store shared with the service would
    /// allow.
    pub db: MemoryStore,
    /// Whether the format validator is bypassed.
    pub skip_validation: bool,
}

impl MLSServiceImpl {
    /// Whether the format validator is bypassed.
    pub open spec fn spec_skip_validation(&self) -> bool {
        self.skip_validation
    }

    /// The store invariant: identifiers are unique within each table.
    pub open spec fn inv(&self) -> bool {
        self.db.inv()
    }

    /// A service over the given store, with full payload validation.
    pub fn new(db: MemoryStore) -> (r: Self)
        requires
            db.inv(),
        ensures
            r.inv(),
            r.db@ == db@,
            !r.spec_skip_validation(),
    {
        MLSServiceImpl { db, skip_validation: false }
    }

    /// A service over the given store that skips payload validation, for
    /// deployments or tests that trust their clients.
    pub fn new_skip_validation(db: MemoryStore) -> (r: Self)
        requires
            db.inv(),
        ensures
            r.inv(),
            r.db@ == db@,
            r.spec_skip_validation(),
    {
        MLSServiceImpl { db, skip_validation: true }
    }
}

/// Parses an identifier's canonical text, failing fast as `InvalidArgument`.
fn parse_uuid(s: &str) -> (r: Result<u128, ServiceError>)
    ensures
        r is Ok <==> parsed_id(s@) is Some,
        r matches Ok(v) ==> parsed_id(s@) == Some(v),
        r matches Err(e) ==> e is InvalidArgument,
{
    match parse_id(s) {
        Some(v) => Ok(v),
        None => Err(ServiceError::InvalidArgument("Invalid UUID format".to_owned())),
    }
}

/// Parses a list of identifiers; one malformed entry fails the whole list
/// as `InvalidArgument`.
fn parse_uuid_list(ids: &Vec<String>) -> (r: Result<Vec<u128>, ServiceError>)
    ensures
        r is Ok <==> (forall|k: int|
            0 <= k < ids.deep_view().len() ==> (#[trigger] parsed_id(ids.deep_view()[k])) is Some),
        r matches Ok(p) ==> p@.len() == ids.deep_view().len() && (forall|k: int|
            0 <= k < p@.len() ==> (#[trigger] parsed_id(ids.deep_view()[k])) == Some(p@[k])),
        r matches Err(e) ==> e is InvalidArgument,
{
    let mut p: Vec<u128> = Vec::new();
    let mut i: usize = 0;
    while i < ids.len()
        invariant
            i <= ids.len(),
            p@.len() == i,
            forall|k: int|
                0 <= k < i ==> (#[trigger] parsed_id(ids.deep_view()[k])) == Some(p@[k]),
        decreases ids.len() - i,
    {
        match parse_uuid(ids[i].as_str()) {
            Ok(v) => {
                p.push(v);
            },
            Err(e) => {
                proof {
                    assert(ids.deep_view()[i as int] == ids@[i as int]@);
                    assert((parsed_id(ids.deep_view()[i as int])) is None);
                }
                return Err(e);
            },
        }
        i = i + 1;
    }
    Ok(p)
}

impl MLSServiceImpl {
    // -----------------------------------------------------------------------
    // Client operations
    // -----------------------------------------------------------------------

    /// Registers a new client device for a user and returns the new client's
    /// identifier in canonical text. The credential is the protocol encoding
    /// of the identity under scheme "basic", an initial key-exchange public
    /// key is attached, and `last_seen` starts at the creation time. No
    /// duplicate-identity check is made: one user owns many devices.
    pub fn register_client(&mut self, user_id: &str, identity: &str, device_name: &str) -> (r:
        Result<String, ServiceError>)
        requires
            old(self).inv(),
        ensures
            final(self).inv(),
            final(self).skip_validation == old(self).skip_validation,
            parsed_id(user_id@) is None <==> (r matches Err(e) && e is InvalidArgument),
            r matches Err(e) ==> e is InvalidArgument || e is Internal,
            r is Err ==> final(self).db@ == old(self).db@,
            r matches Ok(s) ==> ({
                let db0 = old(self).db@;
                let db1 = final(self).db@;
                let c = db1.clients.last();
                &&& db1.clients.len() == db0.clients.len() + 1
                &&& db1 == (StoreModel { clients: db0.clients.push(c), ..db0 })
                &&& !has_client(db0.clients, c.id)
                &&& parsed_id(user_id@) == Some(c.user_id)
                &&& c.credential == basic_credential_bytes(identity.spec_bytes())
                &&& c.scheme == "basic"@
                &&& c.device_name == device_name@
                &&& c.init_key is Some
                &&& c.created_at == c.last_seen
                &&& s@ == id_text_of(c.id)
            }),
    {
        let uid = parse_uuid(user_id)?;
        let credential = match encode_basic_credential(identity.as_bytes()) {
            Some(b) => b,
            None => {
                return Err(
                    ServiceError::Internal("Failed to serialize credential".to_owned()),
                );
            },
        };
        let init_key = match fresh_init_key() {
            Some(k) => k,
            None => {
                return Err(
                    ServiceError::Internal("Failed to derive HPKE key pair".to_owned()),
                );
            },
        };
        let client_id = fresh_id();
        let now = now_micros();
        let client = Client {
            id: client_id,
            user_id: uid,
            credential,
            scheme: "basic".to_owned(),
            device_name: device_name.to_owned(),
            last_seen: now,
            created_at: now,
            init_key: Some(init_key),
        };
        let ghost cm = client@;
        match self.db.register_client(client) {
            Ok(()) => {
                proof {
                    assert(final(self).db@.clients.last() == cm);
                }
                Ok(render_id(client_id))
            },
            Err(e) => Err(map_db_error(e)),
        }
    }

    /// Returns the client record, or `NotFound`. As a side effect the
    /// client's `last_seen` is set to the current time; the returned record
    /// is the one read before that update.
    pub fn get_client(&mut self, client_id: &str) -> (r: Result<Client, ServiceError>)
        requires
            old(self).inv(),
        ensures
            final(self).inv(),
            final(self).skip_validation == old(self).skip_validation,
            parsed_id(client_id@) is None ==> (r matches Err(e) && e is InvalidArgument
                && final(self).db@ == old(self).db@),
            parsed_id(client_id@) is Some && !has_client(
                old(self).db@.clients,
                parsed_id(client_id@).unwrap(),
            ) ==> (r matches Err(e) && e is NotFound && final(self).db@ == old(self).db@),
            parsed_id(client_id@) is Some && has_client(
                old(self).db@.clients,
                parsed_id(client_id@).unwrap(),
            ) ==> (r matches Ok(c) && ({
                let v = parsed_id(client_id@).unwrap();
                let ci = client_index(old(self).db@.clients, v);
                c@ == client_at(old(self).db@.clients, v) && final(self).db@ == (StoreModel {
                    clients: old(self).db@.clients.update(
                        ci,
                        ClientModel {
                            last_seen: final(self).db@.clients[ci].last_seen,
                            ..client_at(old(self).db@.clients, v)
                        },
                    ),
                    ..old(self).db@
                })
            })),
    {
        let cid = parse_uuid(client_id)?;
        let client = match self.db.get_client(cid) {
            Ok(c) => c,
            Err(e) => {
                return Err(map_db_error(e));
            },
        };
        let now = now_micros();
        let _ = self.db.update_client_last_seen(cid, now);
        Ok(client)
    }

    /// All clients of a user, newest first.
    pub fn list_clients(&self, user_id: &str) -> (r: Result<Vec<Client>, ServiceError>)
        ensures
            r is Ok <==> parsed_id(user_id@) is Some,
            r matches Err(e) ==> e is InvalidArgument,
            r matches Ok(v) ==> (parsed_id(user_id@) matches Some(uid) && v.deep_view()
                == keep_rev(self.db@.clients, client_of_user(uid))),
    {
        let uid = parse_uuid(user_id)?;
        Ok(self.db.list_clients_by_user(uid))
    }

    // -----------------------------------------------------------------------
    // Key-package operations
    // -----------------------------------------------------------------------

    /// Publishes a key package for a client and returns the new package's
    /// identifier. The client must exist; the bytes pass the validator or
    /// the call fails `InvalidArgument` and persists nothing. The package is
    /// stored unused, byte for byte as handed in.
    pub fn publish_key_package(&mut self, client_id: &str, key_package: Vec<u8>) -> (r: Result<
        String,
        ServiceError,
    >)
        requires
            old(self).inv(),
        ensures
            final(self).inv(),
            final(self).skip_validation == old(self).skip_validation,
            r is Err ==> final(self).db@ == old(self).db@,
            parsed_id(client_id@) is None ==> (r matches Err(e) && e is InvalidArgument),
            (parsed_id(client_id@) is Some && !has_client(
                old(self).db@.clients,
                parsed_id(client_id@).unwrap(),
            )) <==> (r matches Err(e) && e is NotFound),
            !old(self).skip_validation && parsed_id(client_id@) is Some && has_client(
                old(self).db@.clients,
                parsed_id(client_id@).unwrap(),
            ) && key_package@.len() == 0 ==> (r matches Err(e) && e is InvalidArgument),
            r matches Err(e) && e is InvalidArgument ==> parsed_id(client_id@) is None || !old(
                self,
            ).skip_validation,
            r matches Err(e) ==> e is InvalidArgument || e is NotFound || e is Internal,
            r matches Ok(s) ==> ({
                let db0 = old(self).db@;
                let db1 = final(self).db@;
                let k = db1.key_packages.last();
                &&& parsed_id(client_id@) is Some
                &&& has_client(db0.clients, parsed_id(client_id@).unwrap())
                &&& old(self).skip_validation || key_package@.len() > 0
                &&& db1.key_packages.len() == db0.key_packages.len() + 1
                &&& db1 == (StoreModel { key_packages: db0.key_packages.push(k), ..db0 })
                &&& !has_key_package(db0.key_packages, k.id)
                &&& k.client_id == parsed_id(client_id@).unwrap()
                &&& k.data == key_package@
                &&& !k.used
                &&& s@ == id_text_of(k.id)
            }),
    {
        let cid = parse_uuid(client_id)?;
        match self.db.get_client(cid) {
            Ok(_) => (),
            Err(e) => {
                return Err(map_db_error(e));
            },
        };
        self.validate_key_package(key_package.as_slice())?;
        let kp_id = fresh_id();
        let now = now_micros();
        let record = KeyPackage {
            id: kp_id,
            client_id: cid,
            data: key_package,
            created_at: now,
            used: false,
        };
        let ghost km = record@;
        match self.db.store_key_package(record) {
            Ok(()) => {
                proof {
                    assert(final(self).db@.key_packages.last() == km);
                }
                Ok(render_id(kp_id))
            },
            Err(e) => Err(map_db_error(e)),
        }
    }

    /// Returns the key package with the given identifier, used or not, or
    /// `NotFound`.
    pub fn get_key_package(&self, key_package_id: &str) -> (r: Result<KeyPackage, ServiceError>)
        requires
            self.inv(),
        ensures
            parsed_id(key_package_id@) is None ==> (r matches Err(e) && e is InvalidArgument),
            parsed_id(key_package_id@) is Some && !has_key_package(
                self.db@.key_packages,
                parsed_id(key_package_id@).unwrap(),
            ) ==> (r matches Err(e) && e is NotFound),
            parsed_id(key_package_id@) is Some && has_key_package(
                self.db@.key_packages,
                parsed_id(key_package_id@).unwrap(),
            ) ==> (r matches Ok(k) && k@ == key_package_at(
                self.db@.key_packages,
                parsed_id(key_package_id@).unwrap(),
            )),
    {
        let kid = parse_uuid(key_package_id)?;
        match self.db.get_key_package(kid) {
            Ok(k) => Ok(k),
            Err(e) => Err(map_db_error(e)),
        }
    }

    /// The still-unused key packages of a client, newest first: callers
    /// never receive an already-consumed package.
    pub fn list_key_packages(&self, client_id: &str) -> (r: Result<Vec<KeyPackage>, ServiceError>)
        ensures
            r is Ok <==> parsed_id(client_id@) is Some,
            r matches Err(e) ==> e is InvalidArgument,
            r matches Ok(v) ==> v.deep_view() == keep_rev(
                self.db@.key_packages,
                unused_key_package_of(parsed_id(client_id@).unwrap()),
            ),
    {
        let cid = parse_uuid(client_id)?;
        Ok(self.db.list_key_packages_by_client(cid))
    }

    // -----------------------------------------------------------------------
    // Group operations
    // -----------------------------------------------------------------------

    /// Creates a group at epoch 0 with the given opaque initial state and,
    /// in the same write, a membership making the creator its "admin".
    /// Returns the new group's identifier.
    pub fn create_group(&mut self, creator_id: &str, initial_state: Vec<u8>) -> (r: Result<
        String,
        ServiceError,
    >)
        requires
            old(self).inv(),
        ensures
            final(self).inv(),
            final(self).skip_validation == old(self).skip_validation,
            r is Err ==> final(self).db@ == old(self).db@,
            (parsed_id(creator_id@) is None || (!old(self).skip_validation && initial_state@.len()
                == 0)) <==> (r matches Err(e) && e is InvalidArgument),
            r matches Err(e) ==> e is InvalidArgument || e is Internal,
            r matches Ok(s) ==> ({
                let db0 = old(self).db@;
                let db1 = final(self).db@;
                let g = db1.groups.last();
                let m = db1.memberships.last();
                &&& parsed_id(creator_id@) is Some
                &&& old(self).skip_validation || initial_state@.len() > 0
                &&& db1.groups.len() == db0.groups.len() + 1
                &&& db1.memberships.len() == db0.memberships.len() + 1
                &&& db1 == (StoreModel {
                    groups: db0.groups.push(g),
                    memberships: db0.memberships.push(m),
                    ..db0
                })
                &&& !has_group(db0.groups, g.id)
                &&& !has_membership(db0.memberships, m.id)
                &&& g.creator_id == parsed_id(creator_id@).unwrap()
                &&& g.epoch == 0
                &&& g.state == Some(initial_state@)
                &&& g.is_active
                &&& g.created_at == g.updated_at
                &&& m.client_id == parsed_id(creator_id@).unwrap()
                &&& m.group_id == g.id
                &&& m.role == "admin"@
                &&& m.removed_at is None
                &&& s@ == id_text_of(g.id)
            }),
    {
        let creator = parse_uuid(creator_id)?;
        self.validate_group_state(initial_state.as_slice())?;
        let group_id = fresh_id();
        let membership_id = fresh_id();
        let now = now_micros();
        let group = Group {
            id: group_id,
            creator_id: creator,
            epoch: 0,
            state: Some(initial_state),
            created_at: now,
            updated_at: now,
            is_active: true,
        };
        let membership = Membership {
            id: membership_id,
            client_id: creator,
            group_id,
            role: "admin".to_owned(),
            added_at: now,
            removed_at: None,
        };
        let ghost gm = group@;
        let ghost mm = membership@;
        match self.db.create_group_with_admin(group, membership) {
            Ok(()) => {
                proof {
                    assert(final(self).db@.groups.last() == gm);
                    assert(final(self).db@.memberships.last() == mm);
                }
                Ok(render_id(group_id))
            },
            Err(e) => Err(map_db_error(e)),
        }
    }

    /// Returns the group record, or `NotFound`.
    pub fn get_group(&self, group_id: &str) -> (r: Result<Group, ServiceError>)
        requires
            self.inv(),
        ensures
            parsed_id(group_id@) is None ==> (r matches Err(e) && e is InvalidArgument),
            parsed_id(group_id@) is Some && !has_group(
                self.db@.groups,
                parsed_id(group_id@).unwrap(),
            ) ==> (r matches Err(e) && e is NotFound),
            parsed_id(group_id@) is Some && has_group(
                self.db@.groups,
                parsed_id(group_id@).unwrap(),
            ) ==> (r matches Ok(g) && g@ == group_at(
                self.db@.groups,
                parsed_id(group_id@).unwrap(),
            )),
    {
        let gid = parse_uuid(group_id)?;
        match self.db.get_group(gid) {
            Ok(g) => Ok(g),
            Err(e) => Err(map_db_error(e)),
        }
    }

    /// The active groups in which the client holds an active membership,
    /// most recently updated first.
    pub fn list_groups(&self, client_id: &str) -> (r: Result<Vec<Group>, ServiceError>)
        ensures
            r is Ok <==> parsed_id(client_id@) is Some,
            r matches Err(e) ==> e is InvalidArgument,
            r matches Ok(v) ==> v.deep_view() == keep_rev(
                self.db@.groups,
                group_visible_to(self.db@.memberships, parsed_id(client_id@).unwrap()),
            ),
    {
        let cid = parse_uuid(client_id)?;
        Ok(self.db.list_groups_by_client(cid))
    }

    // -----------------------------------------------------------------------
    // Membership operations
    // -----------------------------------------------------------------------

    /// Adds a client to a group under the given role and returns the new
    /// membership's identifier. Neither the group's nor the client's
    /// existence is checked, and a second active membership for the same
    /// pair is accepted.
    pub fn add_member(&mut self, group_id: &str, client_id: &str, role: &str) -> (r: Result<
        String,
        ServiceError,
    >)
        requires
            old(self).inv(),
        ensures
            final(self).inv(),
            final(self).skip_validation == old(self).skip_validation,
            r is Err ==> final(self).db@ == old(self).db@,
            (parsed_id(group_id@) is None || parsed_id(client_id@) is None) <==> (r matches Err(e)
                && e is InvalidArgument),
            r matches Err(e) ==> e is InvalidArgument || e is Internal,
            r matches Ok(s) ==> ({
                let db0 = old(self).db@;
                let db1 = final(self).db@;
                let m = db1.memberships.last();
                &&& db1.memberships.len() == db0.memberships.len() + 1
                &&& db1 == (StoreModel { memberships: db0.memberships.push(m), ..db0 })
                &&& !has_membership(db0.memberships, m.id)
                &&& parsed_id(group_id@) == Some(m.group_id)
                &&& parsed_id(client_id@) == Some(m.client_id)
                &&& m.role == role@
                &&& m.removed_at is None
                &&& s@ == id_text_of(m.id)
            }),
    {
        let gid = parse_uuid(group_id)?;
        let cid = parse_uuid(client_id)?;
        let membership_id = fresh_id();
        let now = now_micros();
        let membership = Membership {
            id: membership_id,
            client_id: cid,
            group_id: gid,
            role: role.to_owned(),
            added_at: now,
            removed_at: None,
        };
        let ghost mm = membership@;
        match self.db.add_membership(membership) {
            Ok(()) => {
                proof {
                    assert(final(self).db@.memberships.last() == mm);
                }
                Ok(render_id(membership_id))
            },
            Err(e) => Err(map_db_error(e)),
        }
    }

    /// Soft-deletes a membership: its `removed_at` is set to the current
    /// time and the row stays. Unknown identifiers fail `NotFound`;
    /// repeating the call on an already-removed membership is accepted.
    pub fn remove_member(&mut self, membership_id: &str) -> (r: Result<bool, ServiceError>)
        requires
            old(self).inv(),
        ensures
            final(self).inv(),
            final(self).skip_validation == old(self).skip_validation,
            r is Err ==> final(self).db@ == old(self).db@,
            parsed_id(membership_id@) is None <==> (r matches Err(e) && e is InvalidArgument),
            parsed_id(membership_id@) is Some && !has_membership(
                old(self).db@.memberships,
                parsed_id(membership_id@).unwrap(),
            ) ==> (r matches Err(e) && e is NotFound),
            parsed_id(membership_id@) is Some && has_membership(
                old(self).db@.memberships,
                parsed_id(membership_id@).unwrap(),
            ) ==> (r matches Ok(b) && b && ({
                let db0 = old(self).db@;
                let db1 = final(self).db@;
                let v = parsed_id(membership_id@).unwrap();
                let mi = membership_index(db0.memberships, v);
                &&& db1.memberships[mi].removed_at is Some
                &&& db1 == (StoreModel {
                    memberships: db0.memberships.update(
                        mi,
                        MembershipModel {
                            removed_at: db1.memberships[mi].removed_at,
                            ..membership_at(db0.memberships, v)
                        },
                    ),
                    ..db0
                })
            })),
    {
        let mid = parse_uuid(membership_id)?;
        let now = now_micros();
        match self.db.remove_membership(mid, now) {
            Ok(()) => Ok(true),
            Err(e) => Err(map_db_error(e)),
        }
    }

    /// All membership rows of a group, removed ones included (history stays
    /// visible), in the order they were added.
    pub fn list_memberships(&self, group_id: &str) -> (r: Result<Vec<Membership>, ServiceError>)
        ensures
            r is Ok <==> parsed_id(group_id@) is Some,
            r matches Err(e) ==> e is InvalidArgument,
            r matches Ok(v) ==> v.deep_view() == keep(
                self.db@.memberships,
                membership_of_group(parsed_id(group_id@).unwrap()),
            ),
    {
        let gid = parse_uuid(group_id)?;
        Ok(self.db.list_memberships_by_group(gid))
    }

    // -----------------------------------------------------------------------
    // Message operations
    // -----------------------------------------------------------------------

    /// Stores a proposal for a group and returns the new message's
    /// identifier. The payload passes the validator or the call fails
    /// `InvalidArgument` and persists nothing; no epoch is attached.
    pub fn store_proposal(
        &mut self,
        group_id: &str,
        sender_id: &str,
        proposal: Vec<u8>,
        proposal_type: &str,
    ) -> (r: Result<String, ServiceError>)
        requires
            old(self).inv(),
        ensures
            final(self).inv(),
            final(self).skip_validation == old(self).skip_validation,
            r is Err ==> final(self).db@ == old(self).db@,
            (parsed_id(group_id@) is None || parsed_id(sender_id@) is None || (!old(
                self,
            ).skip_validation && proposal@.len() == 0)) <==> (r matches Err(e)
                && e is InvalidArgument),
            r matches Err(e) ==> e is InvalidArgument || e is Internal,
            r matches Ok(s) ==> ({
                let db0 = old(self).db@;
                let db1 = final(self).db@;
                let m = db1.messages.last();
                &&& db1.messages.len() == db0.messages.len() + 1
                &&& db1 == (StoreModel { messages: db0.messages.push(m), ..db0 })
                &&& !has_message(db0.messages, m.id)
                &&& parsed_id(group_id@) == Some(m.group_id)
                &&& parsed_id(sender_id@) == Some(m.sender_id)
                &&& !m.read
                &&& m.body == (MessageBodyModel::Proposal {
                    data: proposal@,
                    proposal_type: proposal_type@,
                })
                &&& s@ == id_text_of(m.id)
            }),
    {
        let gid = parse_uuid(group_id)?;
        let sid = parse_uuid(sender_id)?;
        self.validate_proposal(proposal.as_slice())?;
        let message_id = fresh_id();
        let now = now_micros();
        let message = Message {
            id: message_id,
            group_id: gid,
            sender_id: sid,
            created_at: now,
            read: false,
            body: MessageBody::Proposal { data: proposal, proposal_type: proposal_type.to_owned() },
        };
        let ghost mm = message@;
        match self.db.store_message(message) {
            Ok(()) => {
                proof {
                    assert(final(self).db@.messages.last() == mm);
                }
                Ok(render_id(message_id))
            },
            Err(e) => Err(map_db_error(e)),
        }
    }

    /// Stores a commit for a group and, in the same write, advances the
    /// group's epoch to the commit's target epoch. The group must exist, and
    /// the target epoch must exceed the group's current epoch: commits at or
    /// below it are rejected as `InvalidArgument`, so a group's epochs
    /// strictly increase. Returns the new message's identifier.
    pub fn store_commit(
        &mut self,
        group_id: &str,
        sender_id: &str,
        commit: Vec<u8>,
        epoch: u64,
    ) -> (r: Result<String, ServiceError>)
        requires
            old(self).inv(),
        ensures
            final(self).inv(),
            final(self).skip_validation == old(self).skip_validation,
            r is Err ==> final(self).db@ == old(self).db@,
            ({
                ||| parsed_id(group_id@) is None
                ||| parsed_id(sender_id@) is None
                ||| !old(self).skip_validation && commit@.len() == 0
                ||| ((old(self).skip_validation || commit@.len() > 0) && parsed_id(group_id@)
                    is Some && has_group(old(self).db@.groups, parsed_id(group_id@).unwrap())
                    && epoch <= group_at(
                    old(self).db@.groups,
                    parsed_id(group_id@).unwrap(),
                ).epoch)
            }) <==> (r matches Err(e) && e is InvalidArgument),
            (parsed_id(group_id@) is Some && parsed_id(sender_id@) is Some && (old(
                self,
            ).skip_validation || commit@.len() > 0) && !has_group(
                old(self).db@.groups,
                parsed_id(group_id@).unwrap(),
            )) <==> (r matches Err(e) && e is NotFound),
            r matches Err(e) ==> e is InvalidArgument || e is NotFound || e is Internal,
            r matches Ok(s) ==> ({
                let db0 = old(self).db@;
                let db1 = final(self).db@;
                let gv = parsed_id(group_id@).unwrap();
                let gi = group_index(db0.groups, gv);
                let m = db1.messages.last();
                let g1 = db1.groups.last();
                &&& parsed_id(group_id@) is Some
                &&& parsed_id(sender_id@) is Some
                &&& old(self).skip_validation || commit@.len() > 0
                &&& has_group(db0.groups, gv)
                &&& epoch > group_at(db0.groups, gv).epoch
                &&& db1.messages.len() == db0.messages.len() + 1
                &&& !has_message(db0.messages, m.id)
                &&& db1 == (StoreModel {
                    messages: db0.messages.push(m),
                    groups: db0.groups.remove(gi).push(g1),
                    ..db0
                })
                &&& m.group_id == gv
                &&& parsed_id(sender_id@) == Some(m.sender_id)
                &&& !m.read
                &&& m.body == (MessageBodyModel::Commit { data: commit@, epoch })
                &&& g1 == (GroupModel {
                    epoch,
                    updated_at: g1.updated_at,
                    ..group_at(db0.groups, gv)
                })
                &&& s@ == id_text_of(m.id)
            }),
    {
        let gid = parse_uuid(group_id)?;
        let sid = parse_uuid(sender_id)?;
        self.validate_commit(commit.as_slice())?;
        let group = match self.db.get_group(gid) {
            Ok(g) => g,
            Err(e) => {
                return Err(map_db_error(e));
            },
        };
        if epoch <= group.epoch {
            return Err(
                ServiceError::InvalidArgument(
                    "Commit epoch must exceed the group's current epoch".to_owned(),
                ),
            );
        }
        let message_id = fresh_id();
        let now = now_micros();
        let message = Message {
            id: message_id,
            group_id: gid,
            sender_id: sid,
            created_at: now,
            read: false,
            body: MessageBody::Commit { data: commit, epoch },
        };
        let ghost mm = message@;
        match self.db.store_commit_message(message, epoch, now) {
            Ok(()) => {
                proof {
                    assert(final(self).db@.messages.last() == mm);
                }
                Ok(render_id(message_id))
            },
            Err(e) => Err(map_db_error(e)),
        }
    }

    /// Stores a welcome message addressed to the listed recipients and
    /// returns the new message's identifier. Every recipient identifier must
    /// parse, or the whole call fails `InvalidArgument` before any write.
    pub fn store_welcome(
        &mut self,
        group_id: &str,
        sender_id: &str,
        welcome: Vec<u8>,
        recipient_ids: &Vec<String>,
    ) -> (r: Result<String, ServiceError>)
        requires
            old(self).inv(),
        ensures
            final(self).inv(),
            final(self).skip_validation == old(self).skip_validation,
            r is Err ==> final(self).db@ == old(self).db@,
            (parsed_id(group_id@) is None || parsed_id(sender_id@) is None || (!old(
                self,
            ).skip_validation && welcome@.len() == 0) || (exists|k: int|
                0 <= k < recipient_ids.deep_view().len() && (#[trigger] parsed_id(
                    recipient_ids.deep_view()[k],
                )) is None)) <==> (r matches Err(e) && e is InvalidArgument),
            r matches Err(e) ==> e is InvalidArgument || e is Internal,
            r matches Ok(s) ==> ({
                let db0 = old(self).db@;
                let db1 = final(self).db@;
                let m = db1.messages.last();
                let rs = recipient_ids.deep_view();
                &&& db1.messages.len() == db0.messages.len() + 1
                &&& db1 == (StoreModel { messages: db0.messages.push(m), ..db0 })
                &&& !has_message(db0.messages, m.id)
                &&& parsed_id(group_id@) == Some(m.group_id)
                &&& parsed_id(sender_id@) == Some(m.sender_id)
                &&& !m.read
                &&& m.body matches MessageBodyModel::Welcome { data, recipients }
                    && data == welcome@ && recipients.len() == rs.len() && (forall|k: int|
                    0 <= k < rs.len() ==> (#[trigger] parsed_id(rs[k])) == Some(recipients[k]))
                &&& s@ == id_text_of(m.id)
            }),
    {
        let gid = parse_uuid(group_id)?;
        let sid = parse_uuid(sender_id)?;
        self.validate_welcome(welcome.as_slice())?;
        let recipients = parse_uuid_list(recipient_ids)?;
        let message_id = fresh_id();
        let now = now_micros();
        let message = Message {
            id: message_id,
            group_id: gid,
            sender_id: sid,
            created_at: now,
            read: false,
            body: MessageBody::Welcome { data: welcome, recipients },
        };
        let ghost mm = message@;
        match self.db.store_message(message) {
            Ok(()) => {
                proof {
                    assert(final(self).db@.messages.last() == mm);
                }
                Ok(render_id(message_id))
            },
            Err(e) => Err(map_db_error(e)),
        }
    }

    /// The messages the client may fetch, oldest first: messages of groups
    /// where it holds an active membership or, when a group filter is given,
    /// of that group alone with no membership check (the documented
    /// behavior); read messages only when `include_read` is set.
    pub fn fetch_messages(&self, client_id: &str, group_id: Option<&str>, include_read: bool) -> (r:
        Result<Vec<Message>, ServiceError>)
        ensures
            parsed_id(client_id@) is None ==> (r matches Err(e) && e is InvalidArgument),
            ({
                &&& parsed_id(client_id@) is Some
                &&& group_id matches Some(gs) && parsed_id(gs@) is None
            }) ==> (r matches Err(e) && e is InvalidArgument),
            r is Ok <==> parsed_id(client_id@) is Some && (group_id matches Some(gs) ==> parsed_id(
                gs@,
            ) is Some),
            r matches Ok(v) ==> v.deep_view() == keep(
                self.db@.messages,
                message_visible_to(
                    self.db@.memberships,
                    parsed_id(client_id@).unwrap(),
                    match group_id {
                        Some(gs) => Some(parsed_id(gs@).unwrap()),
                        None => None,
                    },
                    include_read,
                ),
            ),
    {
        let cid = parse_uuid(client_id)?;
        let gid: Option<u128> = match group_id {
            Some(gs) => Some(parse_uuid(gs)?),
            None => None,
        };
        Ok(self.db.fetch_messages_for_client(cid, gid, include_read))
    }

    /// Marks each listed message read. Every identifier must parse, or the
    /// call fails `InvalidArgument` before any write; identifiers that match
    /// no stored message are silently skipped.
    pub fn mark_messages_read(&mut self, message_ids: &Vec<String>) -> (r: Result<
        (),
        ServiceError,
    >)
        requires
            old(self).inv(),
        ensures
            final(self).inv(),
            final(self).skip_validation == old(self).skip_validation,
            r is Err ==> final(self).db@ == old(self).db@,
            r is Ok <==> (forall|k: int|
                0 <= k < message_ids.deep_view().len() ==> (#[trigger] parsed_id(
                    message_ids.deep_view()[k],
                )) is Some),
            r matches Err(e) ==> e is InvalidArgument,
            r is Ok ==> ({
                let db0 = old(self).db@;
                let db1 = final(self).db@;
                let rs = message_ids.deep_view();
                &&& db1.messages.len() == db0.messages.len()
                &&& (forall|j: int|
                    0 <= j < db0.messages.len() ==> db1.messages[j] == (MessageModel {
                        read: db0.messages[j].read || (exists|k: int|
                            0 <= k < rs.len() && (#[trigger] parsed_id(rs[k])) == Some(
                                db0.messages[j].id,
                            )),
                        ..db0.messages[j]
                    }))
                &&& db1.clients == db0.clients
                &&& db1.key_packages == db0.key_packages
                &&& db1.groups == db0.groups
                &&& db1.memberships == db0.memberships
            }),
    {
        let parsed = parse_uuid_list(message_ids)?;
        self.db.mark_messages_read(&parsed);
        proof {
            let db0 = old(self).db@;
            let rs = message_ids.deep_view();
            assert forall|j: int| 0 <= j < db0.messages.len() implies final(self).db@.messages[j]
                == (MessageModel {
                read: db0.messages[j].read || (exists|k: int|
                    0 <= k < rs.len() && (#[trigger] parsed_id(rs[k])) == Some(
                        db0.messages[j].id,
                    )),
                ..db0.messages[j]
            }) by {
                let x = db0.messages[j].id;
                assert(parsed@.contains(x) <==> (exists|k: int|
                    0 <= k < rs.len() && (#[trigger] parsed_id(rs[k])) == Some(x))) by {
                    if parsed@.contains(x) {
                        let k = choose|k: int| 0 <= k < parsed@.len() && parsed@[k] == x;
                        assert(parsed_id(rs[k]) == Some(x));
                    }
                    if exists|k: int|
                        0 <= k < rs.len() && (#[trigger] parsed_id(rs[k])) == Some(x) {
                        let k = choose|k: int|
                            0 <= k < rs.len() && (#[trigger] parsed_id(rs[k])) == Some(x);
                        assert(parsed@[k] == x);
                    }
                }
            }
        }
        Ok(())
    }

    /// Accepts a key package unless validation is on and the bytes are empty
    /// or the protocol library rejects them. Rejections are
    /// `InvalidArgument`.
    fn validate_key_package(&self, key_package_bytes: &[u8]) -> (r: Result<(), ServiceError>)
        ensures
            self.spec_skip_validation() ==> r is Ok,
            !self.spec_skip_validation() && key_package_bytes@.len() == 0 ==> (r matches Err(e)
                && e is InvalidArgument),
            r matches Err(e) ==> e is InvalidArgument,
    {
        if self.skip_validation {
            return Ok(());
        }
        if key_package_bytes.len() == 0 {
            return Err(ServiceError::InvalidArgument("Empty key package".to_owned()));
        }
        if check_key_package(key_package_bytes) {
            Ok(())
        } else {
            Err(ServiceError::InvalidArgument("Key package validation failed".to_owned()))
        }
    }

    /// Accepts a group state blob unless validation is on and it is empty.
    fn validate_group_state(&self, group_state_bytes: &[u8]) -> (r: Result<(), ServiceError>)
        ensures
            r is Ok <==> self.spec_skip_validation() || group_state_bytes@.len() > 0,
            r matches Err(e) ==> e is InvalidArgument,
    {
        if self.skip_validation {
            return Ok(());
        }
        if group_state_bytes.len() == 0 {
            return Err(ServiceError::InvalidArgument("Empty group state".to_owned()));
        }
        Ok(())
    }

    /// Accepts a proposal unless validation is on and it is empty.
    fn validate_proposal(&self, proposal_bytes: &[u8]) -> (r: Result<(), ServiceError>)
        ensures
            r is Ok <==> self.spec_skip_validation() || proposal_bytes@.len() > 0,
            r matches Err(e) ==> e is InvalidArgument,
    {
        if self.skip_validation {
            return Ok(());
        }
        if proposal_bytes.len() == 0 {
            return Err(ServiceError::InvalidArgument("Empty proposal".to_owned()));
        }
        Ok(())
    }

    /// Accepts a commit unless validation is on and it is empty.
    fn validate_commit(&self, commit_bytes: &[u8]) -> (r: Result<(), ServiceError>)
        ensures
            r is Ok <==> self.spec_skip_validation() || commit_bytes@.len() > 0,
            r matches Err(e) ==> e is InvalidArgument,
    {
        if self.skip_validation {
            return Ok(());
        }
        if commit_bytes.len() == 0 {
            return Err(ServiceError::InvalidArgument("Empty commit".to_owned()));
        }
        Ok(())
    }

    /// Accepts a welcome message unless validation is on and it is empty.
    fn validate_welcome(&self, welcome_bytes: &[u8]) -> (r: Result<(), ServiceError>)
        ensures
            r is Ok <==> self.spec_skip_validation() || welcome_bytes@.len() > 0,
            r matches Err(e) ==> e is InvalidArgument,
    {
        if self.skip_validation {
            return Ok(());
        }
        if welcome_bytes.len() == 0 {
            return Err(ServiceError::InvalidArgument("Empty welcome message".to_owned()));
        }
        Ok(())
    }
}

} // verus!
