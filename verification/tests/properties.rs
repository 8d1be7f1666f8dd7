use mls_ds::entities::Client;
use mls_ds::entities::Group;
use mls_ds::entities::KeyPackage;
use mls_ds::errors::map_db_error;
use mls_ds::errors::DbError;
use mls_ds::errors::ServiceError;
use mls_ds::service::MLSServiceImpl;
use mls_ds::store::MemoryStore;
use uuid::Uuid;

fn service_with_client(client_id: Uuid) -> MLSServiceImpl {
    let mut service = MLSServiceImpl::new(MemoryStore::new());
    let client = Client {
        id: client_id.as_u128(),
        user_id: Uuid::new_v4().as_u128(),
        credential: vec![1, 2, 3, 4],
        scheme: "basic".to_string(),
        device_name: "test-device".to_string(),
        last_seen: 1_000,
        created_at: 1_000,
        init_key: Some(vec![1, 2, 3, 4]),
    };
    service.db.register_client(client).unwrap();
    service
}

/// Once a key package is marked used, the second attempt observes it as
/// already used, the flag never reverts, and the package is no longer
/// listed as available.
#[test]
fn key_package_used_only_once() {
    let kp_id = Uuid::new_v4();
    let client_id = Uuid::new_v4();
    let mut service = service_with_client(client_id);
    let key_package = KeyPackage {
        id: kp_id.as_u128(),
        client_id: client_id.as_u128(),
        data: vec![9, 8, 7],
        created_at: 1_000,
        used: false,
    };
    service.db.store_key_package(key_package).unwrap();

    let first = service.db.mark_key_package_used(kp_id.as_u128()).unwrap();
    assert_eq!(first, true);

    let second = service.db.mark_key_package_used(kp_id.as_u128()).unwrap();
    assert_eq!(second, false);

    let third = service.db.mark_key_package_used(kp_id.as_u128()).unwrap();
    assert_eq!(third, false);

    let record = service.db.get_key_package(kp_id.as_u128()).unwrap();
    assert!(record.used);

    let listed = service.list_key_packages(&client_id.to_string()).unwrap();
    assert!(listed.is_empty());
}

/// A commit whose target epoch does not exceed the group's current epoch
/// is rejected, so accepted commits drive the epoch strictly upward.
#[test]
fn commit_epoch_must_increase() {
    let group_id = Uuid::new_v4();
    let sender_id = Uuid::new_v4();
    let mut service = MLSServiceImpl::new(MemoryStore::new());
    let group = Group {
        id: group_id.as_u128(),
        creator_id: sender_id.as_u128(),
        epoch: 0,
        state: Some(vec![1]),
        created_at: 1_000,
        updated_at: 1_000,
        is_active: true,
    };
    service.db.create_group(group).unwrap();

    let same = service.store_commit(&group_id.to_string(), &sender_id.to_string(), vec![1], 0);
    assert!(matches!(same, Err(ServiceError::InvalidArgument(_))));

    service
        .store_commit(&group_id.to_string(), &sender_id.to_string(), vec![2], 3)
        .unwrap();
    assert_eq!(service.db.get_group(group_id.as_u128()).unwrap().epoch, 3);

    let behind = service.store_commit(&group_id.to_string(), &sender_id.to_string(), vec![3], 2);
    assert!(matches!(behind, Err(ServiceError::InvalidArgument(_))));
    let stalled = service.store_commit(&group_id.to_string(), &sender_id.to_string(), vec![4], 3);
    assert!(matches!(stalled, Err(ServiceError::InvalidArgument(_))));

    assert_eq!(service.db.get_group(group_id.as_u128()).unwrap().epoch, 3);
}

/// After its only membership is removed, a client no longer sees the group
/// or its messages; a second active membership keeps them visible.
#[test]
fn removed_membership_hides_group_and_messages() {
    let group_id = Uuid::new_v4();
    let client_id = Uuid::new_v4();
    let mut service = MLSServiceImpl::new(MemoryStore::new());
    let group = Group {
        id: group_id.as_u128(),
        creator_id: client_id.as_u128(),
        epoch: 0,
        state: Some(vec![1]),
        created_at: 1_000,
        updated_at: 1_000,
        is_active: true,
    };
    service.db.create_group(group).unwrap();
    let membership_id = service
        .add_member(&group_id.to_string(), &client_id.to_string(), "member")
        .unwrap();
    service
        .store_proposal(&group_id.to_string(), &client_id.to_string(), vec![5], "add")
        .unwrap();

    assert_eq!(service.list_groups(&client_id.to_string()).unwrap().len(), 1);
    assert_eq!(
        service.fetch_messages(&client_id.to_string(), None, true).unwrap().len(),
        1
    );

    service.remove_member(&membership_id).unwrap();

    assert_eq!(service.list_groups(&client_id.to_string()).unwrap().len(), 0);
    assert_eq!(
        service.fetch_messages(&client_id.to_string(), None, true).unwrap().len(),
        0
    );

    // A fresh active membership makes both visible again.
    service
        .add_member(&group_id.to_string(), &client_id.to_string(), "member")
        .unwrap();
    assert_eq!(service.list_groups(&client_id.to_string()).unwrap().len(), 1);
    assert_eq!(
        service.fetch_messages(&client_id.to_string(), None, true).unwrap().len(),
        1
    );
}

/// Stored payloads come back byte-identical: key package, proposal, commit,
/// welcome and group-state blobs.
#[test]
fn payload_round_trips_are_byte_identical() {
    let client_id = Uuid::new_v4();
    let mut service = service_with_client(client_id);
    service.skip_validation = true;

    let kp_bytes = vec![0, 255, 1, 254, 2];
    let kp_id = service
        .publish_key_package(&client_id.to_string(), kp_bytes.clone())
        .unwrap();
    assert_eq!(service.get_key_package(&kp_id).unwrap().data, kp_bytes);

    let state = vec![9, 9, 9, 0, 7];
    let group_id = service.create_group(&client_id.to_string(), state.clone()).unwrap();
    assert_eq!(service.get_group(&group_id).unwrap().state, Some(state));

    let proposal = vec![42, 0, 42];
    service
        .store_proposal(&group_id, &client_id.to_string(), proposal.clone(), "add")
        .unwrap();
    let commit = vec![7, 0, 7, 0];
    service
        .store_commit(&group_id, &client_id.to_string(), commit.clone(), 1)
        .unwrap();
    let welcome = vec![13, 37];
    service
        .store_welcome(
            &group_id,
            &client_id.to_string(),
            welcome.clone(),
            &vec![client_id.to_string()],
        )
        .unwrap();

    let messages = service
        .fetch_messages(&client_id.to_string(), Some(&group_id), true)
        .unwrap();
    assert_eq!(messages.len(), 3);
    assert_eq!(messages[0].proposal(), Some(proposal));
    assert_eq!(messages[1].commit(), Some(commit));
    assert_eq!(messages[2].welcome(), Some(welcome));
}

/// Registering a client derives the credential deterministically from the
/// identity: the same identity always yields the same bytes, which embed
/// the identity under the protocol's encoding.
#[test]
fn register_client_derives_credential_from_identity() {
    let mut service = MLSServiceImpl::new(MemoryStore::new());
    let user_id = Uuid::new_v4().to_string();

    let first = service.register_client(&user_id, "alice-1", "phone").unwrap();
    let second = service.register_client(&user_id, "alice-1", "laptop").unwrap();
    let other = service.register_client(&user_id, "bob-9", "phone").unwrap();

    let c1 = service.get_client(&first).unwrap();
    let c2 = service.get_client(&second).unwrap();
    let c3 = service.get_client(&other).unwrap();

    assert_eq!(c1.scheme, "basic");
    assert_eq!(c1.device_name, "phone");
    assert_eq!(c1.credential, c2.credential);
    assert_ne!(c1.credential, c3.credential);
    // The encoding embeds the identity: it ends with the identity bytes and
    // carries a tag and length in front of them.
    assert!(c1.credential.len() > "alice-1".len());
    assert!(c1.credential.ends_with("alice-1".as_bytes()));
    assert!(c1.init_key.is_some());
}

/// Creating a group yields epoch 0, an active group with the given state,
/// and exactly one membership: the creator as "admin".
#[test]
fn create_group_scenario() {
    let mut service = MLSServiceImpl::new(MemoryStore::new());
    let creator = Uuid::new_v4();

    let group_id = service.create_group(&creator.to_string(), vec![9, 9, 9]).unwrap();

    let group = service.get_group(&group_id).unwrap();
    assert_eq!(group.epoch, 0);
    assert_eq!(group.is_active, true);
    assert_eq!(group.state, Some(vec![9, 9, 9]));
    assert_eq!(group.creator_id, creator.as_u128());

    let memberships = service.list_memberships(&group_id).unwrap();
    assert_eq!(memberships.len(), 1);
    assert_eq!(memberships[0].role, "admin");
    assert_eq!(memberships[0].client_id, creator.as_u128());
    assert!(memberships[0].removed_at.is_none());
}

/// The adopted commit policy: a target epoch above the current one is
/// accepted even when it skips ahead, so a commit at epoch 5 against a
/// group at epoch 0 succeeds and moves the group to epoch 5.
#[test]
fn commit_may_skip_epochs_forward() {
    let group_id = Uuid::new_v4();
    let sender_id = Uuid::new_v4();
    let mut service = MLSServiceImpl::new(MemoryStore::new());
    let group = Group {
        id: group_id.as_u128(),
        creator_id: sender_id.as_u128(),
        epoch: 0,
        state: Some(vec![1]),
        created_at: 1_000,
        updated_at: 1_000,
        is_active: true,
    };
    service.db.create_group(group).unwrap();

    service
        .store_commit(&group_id.to_string(), &sender_id.to_string(), vec![1, 2], 5)
        .unwrap();
    assert_eq!(service.db.get_group(group_id.as_u128()).unwrap().epoch, 5);
}

/// Marking one of two messages read leaves exactly the other in an unread
/// fetch; a fetch including read messages returns both.
#[test]
fn mark_read_then_fetch() {
    let group_id = Uuid::new_v4();
    let client_id = Uuid::new_v4();
    let mut service = MLSServiceImpl::new(MemoryStore::new());
    service
        .add_member(&group_id.to_string(), &client_id.to_string(), "member")
        .unwrap();
    let first = service
        .store_proposal(&group_id.to_string(), &client_id.to_string(), vec![1], "add")
        .unwrap();
    let second = service
        .store_proposal(&group_id.to_string(), &client_id.to_string(), vec![2], "remove")
        .unwrap();

    service.mark_messages_read(&vec![first.clone()]).unwrap();

    let unread = service
        .fetch_messages(&client_id.to_string(), Some(&group_id.to_string()), false)
        .unwrap();
    assert_eq!(unread.len(), 1);
    assert_eq!(Uuid::parse_str(&second).unwrap().as_u128(), unread[0].id);
    assert_eq!(unread[0].proposal(), Some(vec![2]));

    let all = service
        .fetch_messages(&client_id.to_string(), Some(&group_id.to_string()), true)
        .unwrap();
    assert_eq!(all.len(), 2);
    assert_eq!(Uuid::parse_str(&first).unwrap().as_u128(), all[0].id);

    // Unknown identifiers are silently skipped.
    service
        .mark_messages_read(&vec![Uuid::new_v4().to_string()])
        .unwrap();
}

/// Every malformed identifier fails fast as `InvalidArgument`, before any
/// store access; absent records fail `NotFound`.
#[test]
fn error_taxonomy() {
    let mut service = MLSServiceImpl::new(MemoryStore::new());

    assert!(matches!(
        service.get_client("not-a-uuid"),
        Err(ServiceError::InvalidArgument(_))
    ));
    assert!(matches!(
        service.register_client("", "id", "dev"),
        Err(ServiceError::InvalidArgument(_))
    ));
    assert!(matches!(
        service.fetch_messages(&Uuid::new_v4().to_string(), Some("oops"), true),
        Err(ServiceError::InvalidArgument(_))
    ));
    assert!(matches!(
        service.mark_messages_read(&vec!["bad".to_string()]),
        Err(ServiceError::InvalidArgument(_))
    ));

    let missing = Uuid::new_v4().to_string();
    assert!(matches!(service.get_client(&missing), Err(ServiceError::NotFound(_))));
    assert!(matches!(service.get_group(&missing), Err(ServiceError::NotFound(_))));
    assert!(matches!(service.get_key_package(&missing), Err(ServiceError::NotFound(_))));
    assert!(matches!(service.remove_member(&missing), Err(ServiceError::NotFound(_))));
    assert!(matches!(
        service.publish_key_package(&missing, vec![1]),
        Err(ServiceError::NotFound(_))
    ));
    assert!(matches!(
        service.store_commit(&missing, &missing, vec![1], 1),
        Err(ServiceError::NotFound(_))
    ));

    // With validation on, empty payloads are rejected.
    assert!(matches!(
        service.create_group(&missing, vec![]),
        Err(ServiceError::InvalidArgument(_))
    ));
    assert!(matches!(
        service.store_proposal(&missing, &missing, vec![], "add"),
        Err(ServiceError::InvalidArgument(_))
    ));
    assert!(matches!(
        service.store_commit(&missing, &missing, vec![], 1),
        Err(ServiceError::InvalidArgument(_))
    ));
    assert!(matches!(
        service.store_welcome(&missing, &missing, vec![], &vec![]),
        Err(ServiceError::InvalidArgument(_))
    ));

    // A malformed recipient rejects the whole welcome before any write.
    assert!(matches!(
        service.store_welcome(&missing, &missing, vec![1], &vec!["nope".to_string()]),
        Err(ServiceError::InvalidArgument(_))
    ));
    assert_eq!(
        service.fetch_messages(&missing, Some(&missing), true).unwrap().len(),
        0
    );

    // Store errors map onto the stable kinds.
    assert!(matches!(map_db_error(DbError::NotFound), ServiceError::NotFound(_)));
    assert!(matches!(
        map_db_error(DbError::ConnectionError("x".to_string())),
        ServiceError::Unavailable(_)
    ));
    assert!(matches!(
        map_db_error(DbError::QueryError("x".to_string())),
        ServiceError::Internal(_)
    ));
    assert!(matches!(
        map_db_error(DbError::SerializationError("x".to_string())),
        ServiceError::Internal(_)
    ));
    let detail = map_db_error(DbError::QueryError("boom".to_string()));
    assert_eq!(detail.detail().as_str(), "Database query error: boom");
}

/// Identifiers round-trip through their canonical text form: what the
/// service returns is parseable and addresses the same record.
#[test]
fn identifier_text_round_trip() {
    let mut service = MLSServiceImpl::new(MemoryStore::new());
    let user = Uuid::new_v4();

    let id_text = service
        .register_client(&user.to_string(), "carol-3", "tablet")
        .unwrap();
    assert_eq!(id_text.len(), 36);

    let parsed = Uuid::parse_str(&id_text).unwrap();
    let via_text = service.get_client(&id_text).unwrap();
    let via_store = service.db.get_client(parsed.as_u128()).unwrap();
    assert_eq!(via_text.id, via_store.id);
    assert_eq!(via_text.credential, via_store.credential);
}

/// `GetClient` refreshes the client's `last_seen` stamp as a side effect.
#[test]
fn get_client_updates_last_seen() {
    let client_id = Uuid::new_v4();
    let mut service = service_with_client(client_id);

    let before = service.db.get_client(client_id.as_u128()).unwrap().last_seen;
    assert_eq!(before, 1_000);

    let returned = service.get_client(&client_id.to_string()).unwrap();
    // The returned record is the one read before the refresh.
    assert_eq!(returned.last_seen, 1_000);

    let after = service.db.get_client(client_id.as_u128()).unwrap().last_seen;
    assert!(after > 1_000);
}
