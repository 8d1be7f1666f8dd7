use mls_ds::entities::Client;
use mls_ds::entities::KeyPackage;
use mls_ds::service::MLSServiceImpl;
use mls_ds::store::MemoryStore;
use uuid::Uuid;

fn seed_client(service: &mut MLSServiceImpl, client_id: u128) {
    let client = Client {
        id: client_id,
        user_id: Uuid::new_v4().as_u128(),
        credential: vec![1, 2, 3, 4],
        scheme: "basic".to_string(),
        device_name: "test-device".to_string(),
        last_seen: 1_000,
        created_at: 1_000,
        init_key: Some(vec![1, 2, 3, 4]),
    };
    service.db.register_client(client).unwrap();
}

/// Publishing a key package stores the handed-in bytes unused for the
/// client.
#[test]
fn test_publish_key_package() {
    let db = MemoryStore::new();
    // Validation is disabled for testing.
    let mut service = MLSServiceImpl::new_skip_validation(db);

    let client_id = Uuid::new_v4();
    seed_client(&mut service, client_id.as_u128());
    let key_package_data = vec![1, 2, 3, 4, 5];

    let response = service
        .publish_key_package(&client_id.to_string(), key_package_data.clone())
        .unwrap();
    let key_package_id = Uuid::parse_str(&response).unwrap();

    let key_package = service.db.get_key_package(key_package_id.as_u128()).unwrap();
    assert_eq!(key_package.client_id, client_id.as_u128());
    assert_eq!(key_package.data, key_package_data);
    assert_eq!(key_package.used, false);
}

/// Fetching a key package returns the stored record.
#[test]
fn test_get_key_package() {
    let db = MemoryStore::new();
    let mut service = MLSServiceImpl::new(db);

    let key_package_id = Uuid::new_v4();
    let client_id = Uuid::new_v4();
    let key_package = KeyPackage {
        id: key_package_id.as_u128(),
        client_id: client_id.as_u128(),
        data: vec![1, 2, 3, 4, 5],
        created_at: 1_000,
        used: false,
    };
    service.db.store_key_package(key_package).unwrap();

    let response_key_package = service.get_key_package(&key_package_id.to_string()).unwrap();
    assert_eq!(response_key_package.id, key_package_id.as_u128());
    assert_eq!(response_key_package.client_id, client_id.as_u128());
    assert_eq!(response_key_package.data, vec![1, 2, 3, 4, 5]);
    assert_eq!(response_key_package.used, false);
}

/// Listing key packages returns exactly the unused packages of the client.
#[test]
fn test_list_key_packages() {
    let db = MemoryStore::new();
    let mut service = MLSServiceImpl::new(db);

    let client_id = Uuid::new_v4();
    let other_client_id = Uuid::new_v4();

    let key_package1 = KeyPackage {
        id: Uuid::new_v4().as_u128(),
        client_id: client_id.as_u128(),
        data: vec![1, 2, 3, 4, 5],
        created_at: 1_000,
        used: false,
    };
    let key_package2 = KeyPackage {
        id: Uuid::new_v4().as_u128(),
        client_id: client_id.as_u128(),
        data: vec![6, 7, 8, 9, 10],
        created_at: 1_001,
        used: false,
    };
    let key_package3 = KeyPackage {
        id: Uuid::new_v4().as_u128(),
        client_id: other_client_id.as_u128(),
        data: vec![11, 12, 13, 14, 15],
        created_at: 1_002,
        used: false,
    };
    let kp1_id = key_package1.id;
    let kp2_id = key_package2.id;
    let kp3_id = key_package3.id;

    service.db.store_key_package(key_package1).unwrap();
    service.db.store_key_package(key_package2).unwrap();
    service.db.store_key_package(key_package3).unwrap();

    let key_packages = service.list_key_packages(&client_id.to_string()).unwrap();
    assert_eq!(key_packages.len(), 2);

    let response_ids: Vec<u128> = key_packages.iter().map(|kp| kp.id).collect();
    assert!(response_ids.contains(&kp1_id));
    assert!(response_ids.contains(&kp2_id));
    assert!(!response_ids.contains(&kp3_id));
}
