use mls_ds::entities::Client;
use mls_ds::entities::Group;
use mls_ds::entities::KeyPackage;
use mls_ds::entities::Membership;
use mls_ds::entities::Message;
use mls_ds::entities::MessageBody;
use mls_ds::errors::DbError;
use mls_ds::store::MemoryStore;

fn client(id: u128, user_id: u128, device: &str) -> Client {
    Client {
        id,
        user_id,
        credential: vec![1],
        scheme: "basic".to_string(),
        device_name: device.to_string(),
        last_seen: 1_000,
        created_at: 1_000,
        init_key: None,
    }
}

fn group(id: u128, creator: u128) -> Group {
    Group {
        id,
        creator_id: creator,
        epoch: 0,
        state: Some(vec![1]),
        created_at: 1_000,
        updated_at: 1_000,
        is_active: true,
    }
}

fn membership(id: u128, client_id: u128, group_id: u128) -> Membership {
    Membership {
        id,
        client_id,
        group_id,
        role: "member".to_string(),
        added_at: 1_000,
        removed_at: None,
    }
}

/// A second insert under an identifier already in use is refused as a query
/// failure, and the store is left as it was.
#[test]
fn duplicate_identifiers_are_refused() {
    let mut db = MemoryStore::new();
    db.register_client(client(1, 10, "a")).unwrap();
    let dup = db.register_client(client(1, 11, "b"));
    assert!(matches!(dup, Err(DbError::QueryError(_))));
    assert_eq!(db.get_client(1).unwrap().user_id, 10);

    db.create_group(group(2, 1)).unwrap();
    assert!(matches!(db.create_group(group(2, 9)), Err(DbError::QueryError(_))));

    db.add_membership(membership(3, 1, 2)).unwrap();
    assert!(matches!(
        db.add_membership(membership(3, 1, 2)),
        Err(DbError::QueryError(_))
    ));
}

/// Listings come back newest first: the reverse of insertion order.
#[test]
fn listings_are_newest_first() {
    let mut db = MemoryStore::new();
    db.register_client(client(1, 10, "first")).unwrap();
    db.register_client(client(2, 10, "second")).unwrap();
    db.register_client(client(3, 10, "third")).unwrap();

    let clients = db.list_clients_by_user(10);
    let devices: Vec<String> = clients.iter().map(|c| c.device_name.clone()).collect();
    assert_eq!(devices, vec!["third", "second", "first"]);

    for (id, data) in [(4u128, vec![4u8]), (5, vec![5]), (6, vec![6])] {
        db.store_key_package(KeyPackage {
            id,
            client_id: 1,
            data,
            created_at: 1_000,
            used: false,
        })
        .unwrap();
    }
    let kps = db.list_key_packages_by_client(1);
    let ids: Vec<u128> = kps.iter().map(|k| k.id).collect();
    assert_eq!(ids, vec![6, 5, 4]);
}

/// Updating a group's epoch moves it to the front of the listing: groups
/// come back most recently updated first.
#[test]
fn updated_group_lists_first() {
    let mut db = MemoryStore::new();
    db.create_group(group(1, 7)).unwrap();
    db.create_group(group(2, 7)).unwrap();
    db.add_membership(membership(10, 7, 1)).unwrap();
    db.add_membership(membership(11, 7, 2)).unwrap();

    let before: Vec<u128> = db.list_groups_by_client(7).iter().map(|g| g.id).collect();
    assert_eq!(before, vec![2, 1]);

    db.update_group_epoch(1, 4, 2_000).unwrap();

    let after: Vec<u128> = db.list_groups_by_client(7).iter().map(|g| g.id).collect();
    assert_eq!(after, vec![1, 2]);
    let updated = db.get_group(1).unwrap();
    assert_eq!(updated.epoch, 4);
    assert_eq!(updated.updated_at, 2_000);

    assert!(matches!(db.update_group_epoch(99, 5, 2_001), Err(DbError::NotFound)));
}

/// Replacing a group's state blob keeps everything else and stamps the
/// update time.
#[test]
fn group_state_can_be_replaced() {
    let mut db = MemoryStore::new();
    db.create_group(group(1, 7)).unwrap();

    db.update_group_state(1, vec![9, 8, 7], 3_000).unwrap();

    let updated = db.get_group(1).unwrap();
    assert_eq!(updated.state, Some(vec![9, 8, 7]));
    assert_eq!(updated.updated_at, 3_000);
    assert_eq!(updated.epoch, 0);

    assert!(matches!(
        db.update_group_state(99, vec![1], 3_001),
        Err(DbError::NotFound)
    ));
}

/// A client's membership history lists every row of that client, removed
/// ones included.
#[test]
fn client_membership_history_is_kept() {
    let mut db = MemoryStore::new();
    db.add_membership(membership(1, 7, 100)).unwrap();
    db.add_membership(membership(2, 7, 200)).unwrap();
    db.add_membership(membership(3, 8, 100)).unwrap();

    db.remove_membership(1, 4_000).unwrap();

    let rows = db.list_memberships_by_client(7);
    assert_eq!(rows.len(), 2);
    assert_eq!(rows[0].id, 1);
    assert_eq!(rows[0].removed_at, Some(4_000));
    assert_eq!(rows[1].id, 2);
    assert!(rows[1].removed_at.is_none());
}

/// Group creation writes the group and its admin membership all or
/// nothing: a clash on either identifier leaves no partial state.
#[test]
fn group_creation_is_all_or_nothing() {
    let mut db = MemoryStore::new();
    db.add_membership(membership(5, 7, 999)).unwrap();

    // The membership identifier clashes: the group must not appear either.
    let clash = db.create_group_with_admin(group(1, 7), membership(5, 7, 1));
    assert!(matches!(clash, Err(DbError::QueryError(_))));
    assert!(matches!(db.get_group(1), Err(DbError::NotFound)));

    db.create_group_with_admin(group(1, 7), membership(6, 7, 1)).unwrap();
    assert!(db.get_group(1).is_ok());
    assert_eq!(db.list_memberships_by_group(1).len(), 1);
}

/// Commit acceptance writes the message and advances the epoch together;
/// against a missing group nothing is written.
#[test]
fn commit_write_is_paired() {
    let mut db = MemoryStore::new();
    let msg = Message {
        id: 50,
        group_id: 1,
        sender_id: 7,
        created_at: 1_000,
        read: false,
        body: MessageBody::Commit { data: vec![1, 2], epoch: 3 },
    };
    let missing = db.store_commit_message(msg, 3, 5_000);
    assert!(matches!(missing, Err(DbError::NotFound)));
    assert_eq!(db.fetch_messages_for_client(7, Some(1), true).len(), 0);

    db.create_group(group(1, 7)).unwrap();
    let msg = Message {
        id: 50,
        group_id: 1,
        sender_id: 7,
        created_at: 1_000,
        read: false,
        body: MessageBody::Commit { data: vec![1, 2], epoch: 3 },
    };
    db.store_commit_message(msg, 3, 5_000).unwrap();
    assert_eq!(db.get_group(1).unwrap().epoch, 3);
    let fetched = db.fetch_messages_for_client(7, Some(1), true);
    assert_eq!(fetched.len(), 1);
    assert_eq!(fetched[0].commit(), Some(vec![1, 2]));
}
