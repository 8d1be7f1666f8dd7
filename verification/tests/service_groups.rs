use mls_ds::entities::Group;
use mls_ds::entities::Membership;
use mls_ds::service::MLSServiceImpl;
use mls_ds::store::MemoryStore;
use uuid::Uuid;

/// Creating a group stores it at epoch 0, active, with the given state.
#[test]
fn test_create_group() {
    let db = MemoryStore::new();
    let mut service = MLSServiceImpl::new(db);

    let creator_id = Uuid::new_v4();
    let initial_state = vec![1, 2, 3, 4, 5];

    let response = service
        .create_group(&creator_id.to_string(), initial_state.clone())
        .unwrap();
    let group_id = Uuid::parse_str(&response).unwrap();

    let group = service.db.get_group(group_id.as_u128()).unwrap();
    assert_eq!(group.creator_id, creator_id.as_u128());
    assert_eq!(group.state, Some(initial_state));
    assert_eq!(group.epoch, 0);
    assert_eq!(group.is_active, true);
}

/// Fetching a group returns the stored record.
#[test]
fn test_get_group() {
    let db = MemoryStore::new();
    let mut service = MLSServiceImpl::new(db);

    let group_id = Uuid::new_v4();
    let creator_id = Uuid::new_v4();
    let group_state = vec![1, 2, 3, 4, 5];

    let group = Group {
        id: group_id.as_u128(),
        creator_id: creator_id.as_u128(),
        epoch: 0,
        state: Some(group_state.clone()),
        created_at: 1_000,
        updated_at: 1_000,
        is_active: true,
    };
    service.db.create_group(group).unwrap();

    let response_group = service.get_group(&group_id.to_string()).unwrap();
    assert_eq!(response_group.id, group_id.as_u128());
    assert_eq!(response_group.creator_id, creator_id.as_u128());
    assert_eq!(response_group.epoch, 0);
    assert_eq!(response_group.state, Some(group_state));
    assert_eq!(response_group.is_active, true);
}

/// Listing groups returns the groups where the client has an active
/// membership.
#[test]
fn test_list_groups() {
    let db = MemoryStore::new();
    let mut service = MLSServiceImpl::new(db);

    let client_id = Uuid::new_v4();
    let other_client_id = Uuid::new_v4();

    let group1_id = Uuid::new_v4();
    let group2_id = Uuid::new_v4();

    let group1 = Group {
        id: group1_id.as_u128(),
        creator_id: client_id.as_u128(),
        epoch: 0,
        state: Some(vec![1, 2, 3]),
        created_at: 1_000,
        updated_at: 1_000,
        is_active: true,
    };
    let group2 = Group {
        id: group2_id.as_u128(),
        creator_id: other_client_id.as_u128(),
        epoch: 0,
        state: Some(vec![4, 5, 6]),
        created_at: 1_001,
        updated_at: 1_001,
        is_active: true,
    };
    service.db.create_group(group1).unwrap();
    service.db.create_group(group2).unwrap();

    let membership1 = Membership {
        id: Uuid::new_v4().as_u128(),
        client_id: client_id.as_u128(),
        group_id: group1_id.as_u128(),
        role: "admin".to_string(),
        added_at: 1_000,
        removed_at: None,
    };
    let membership2 = Membership {
        id: Uuid::new_v4().as_u128(),
        client_id: client_id.as_u128(),
        group_id: group2_id.as_u128(),
        role: "member".to_string(),
        added_at: 1_001,
        removed_at: None,
    };
    service.db.add_membership(membership1).unwrap();
    service.db.add_membership(membership2).unwrap();

    let groups = service.list_groups(&client_id.to_string()).unwrap();
    assert_eq!(groups.len(), 2);

    let response_ids: Vec<u128> = groups.iter().map(|g| g.id).collect();
    assert!(response_ids.contains(&group1_id.as_u128()));
    assert!(response_ids.contains(&group2_id.as_u128()));
}
