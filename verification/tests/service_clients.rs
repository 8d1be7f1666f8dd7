use mls_ds::entities::Client;
use mls_ds::service::MLSServiceImpl;
use mls_ds::store::MemoryStore;
use uuid::Uuid;

/// Basic sanity test: the service can be constructed over an empty store.
#[test]
fn it_works() {
    let db = MemoryStore::new();
    let _service = MLSServiceImpl::new_skip_validation(db);
    assert!(true);
}

/// Registering a client stores a record with the user's id, scheme "basic"
/// and the given device name.
#[test]
fn test_register_client() {
    let db = MemoryStore::new();
    let mut service = MLSServiceImpl::new(db);

    let user_id = Uuid::new_v4();
    let response = service
        .register_client(&user_id.to_string(), "test-identity", "test-device")
        .unwrap();

    let client_id = Uuid::parse_str(&response).unwrap();

    let client = service.db.get_client(client_id.as_u128()).unwrap();
    assert_eq!(client.user_id, user_id.as_u128());
    assert_eq!(client.scheme, "basic");
    assert_eq!(client.device_name, "test-device");
    // The credential is generated from the identity, so it is not asserted
    // here; see the determinism tests.
}

/// Fetching a client returns the stored record.
#[test]
fn test_get_client() {
    let db = MemoryStore::new();
    let mut service = MLSServiceImpl::new(db);

    let client_id = Uuid::new_v4();
    let user_id = Uuid::new_v4();
    let client = Client {
        id: client_id.as_u128(),
        user_id: user_id.as_u128(),
        credential: vec![1, 2, 3, 4],
        scheme: "basic".to_string(),
        device_name: "test-device".to_string(),
        last_seen: 1_000,
        created_at: 1_000,
        init_key: Some(vec![1, 2, 3, 4]),
    };
    service.db.register_client(client).unwrap();

    let response_client = service.get_client(&client_id.to_string()).unwrap();
    assert_eq!(response_client.id, client_id.as_u128());
    assert_eq!(response_client.user_id, user_id.as_u128());
    assert_eq!(response_client.credential, vec![1, 2, 3, 4]);
    assert_eq!(response_client.scheme, "basic");
    assert_eq!(response_client.device_name, "test-device");
}

/// Listing clients returns exactly the clients of the requested user.
#[test]
fn test_list_clients() {
    let db = MemoryStore::new();
    let mut service = MLSServiceImpl::new(db);

    let user_id = Uuid::new_v4();
    let other_user_id = Uuid::new_v4();

    let client1 = Client {
        id: Uuid::new_v4().as_u128(),
        user_id: user_id.as_u128(),
        credential: vec![1, 2, 3, 4],
        scheme: "basic".to_string(),
        device_name: "device-1".to_string(),
        last_seen: 1_000,
        created_at: 1_000,
        init_key: Some(vec![5, 6, 7, 8]),
    };
    let client2 = Client {
        id: Uuid::new_v4().as_u128(),
        user_id: user_id.as_u128(),
        credential: vec![5, 6, 7, 8],
        scheme: "basic".to_string(),
        device_name: "device-2".to_string(),
        last_seen: 1_001,
        created_at: 1_001,
        init_key: Some(vec![9, 10, 11, 12]),
    };
    let client3 = Client {
        id: Uuid::new_v4().as_u128(),
        user_id: other_user_id.as_u128(),
        credential: vec![9, 10, 11, 12],
        scheme: "basic".to_string(),
        device_name: "other-device".to_string(),
        last_seen: 1_002,
        created_at: 1_002,
        init_key: Some(vec![13, 14, 15, 16]),
    };
    let client1_id = client1.id;
    let client2_id = client2.id;
    let client3_id = client3.id;

    service.db.register_client(client1).unwrap();
    service.db.register_client(client2).unwrap();
    service.db.register_client(client3).unwrap();

    let clients = service.list_clients(&user_id.to_string()).unwrap();
    assert_eq!(clients.len(), 2);

    let response_ids: Vec<u128> = clients.iter().map(|c| c.id).collect();
    assert!(response_ids.contains(&client1_id));
    assert!(response_ids.contains(&client2_id));
    assert!(!response_ids.contains(&client3_id));
}
