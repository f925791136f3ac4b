use hive_server::api::validate_api_key;
use hive_server::models::{ApiKey, Store, User};

#[test]
fn test_api_key_generation_and_hashing() {
    // Test that generated keys are unique
    let key1 = ApiKey::generate_key();
    let key2 = ApiKey::generate_key();
    assert_ne!(key1, key2);
    assert!(key1.starts_with("hive_"));
    assert!(key2.starts_with("hive_"));

    // Test that hashing is deterministic
    let hash1 = ApiKey::hash_key(&key1);
    let hash2 = ApiKey::hash_key(&key1);
    assert_eq!(hash1, hash2);

    // Test that different keys produce different hashes
    let hash3 = ApiKey::hash_key(&key2);
    assert_ne!(hash1, hash3);
}

#[test]
fn test_key_hash_is_sha256_hex() {
    // The stored form is the lowercase hex of the SHA-256 of the key string.
    let hash = ApiKey::hash_key("abc");
    assert_eq!(hash, "ba7816bf8f01cfea414140de5dae2223b00361a396177a9cb410ff61f20015ad");
    assert_eq!(ApiKey::hash_key("").len(), 64);
}

#[test]
fn test_generated_key_shape() {
    let key = ApiKey::generate_key();
    assert_eq!(key.len(), 69);
    assert!(key.starts_with("hive_"));
    assert!(key[5..].chars().all(|c| c.is_ascii_hexdigit() && !c.is_ascii_uppercase()));
}

#[test]
fn test_user_crud() {
    let mut store = Store::new();
    let test_username = "test_user_crud";

    // Create user
    let user = User::create(&mut store, test_username).expect("Failed to create user");
    assert_eq!(user.username, test_username);

    // Find by username
    let found = User::find_by_username(&store, test_username)
        .expect("Failed to find user")
        .expect("User should exist");
    assert_eq!(found.id, user.id);

    // Find by ID
    let found_by_id = User::find_by_id(&store, user.id)
        .expect("Failed to find user")
        .expect("User should exist");
    assert_eq!(found_by_id.username, test_username);

    // List users
    let users = User::list(&store).expect("Failed to list users");
    assert!(users.iter().any(|u| u.id == user.id));
}

#[test]
fn test_duplicate_username_rejected() {
    let mut store = Store::new();
    User::create(&mut store, "someone").expect("Failed to create user");
    let second = User::create(&mut store, "someone");
    assert!(matches!(second, Err(hive_server::HiveError::Database(_))));
    assert_eq!(User::list(&store).expect("Failed to list users").len(), 1);
}

#[test]
fn test_api_key_validation() {
    let mut store = Store::new();
    let user = User::create(&mut store, "test_user_auth").expect("Failed to create test user");
    let key = ApiKey::generate_key();
    ApiKey::create(&mut store, user.id, "test-key", &key).expect("Failed to create API key");

    let outcome = validate_api_key(&mut store, &key);
    assert!(outcome.valid, "Valid API key should return valid=true");
    assert_eq!(outcome.user_id, user.id);
    assert_eq!(outcome.username, "test_user_auth");

    // a hit stamps the key's last-used time
    let keys = ApiKey::list_for_user(&store, user.id).expect("Failed to list keys");
    assert_eq!(keys.len(), 1);
    assert!(keys[0].last_used_at.is_some());

    let outcome = validate_api_key(&mut store, "invalid_key");
    assert!(!outcome.valid, "Invalid API key should return valid=false");
}

#[test]
fn test_api_key_revocation() {
    let mut store = Store::new();

    // Create user and key
    let user = User::create(&mut store, "test_user_revoke").expect("Failed to create user");
    let raw_key = ApiKey::generate_key();
    ApiKey::create(&mut store, user.id, "revoke-test", &raw_key)
        .expect("Failed to create API key");

    // Verify key works
    let result = ApiKey::validate(&mut store, &raw_key).expect("Validation failed");
    assert!(result.is_some());

    // Revoke key
    let revoked = ApiKey::revoke(&mut store, &raw_key).expect("Revocation failed");
    assert!(revoked);

    // Verify key no longer works
    let result = ApiKey::validate(&mut store, &raw_key).expect("Validation failed");
    assert!(result.is_none());

    // Revoking again removes nothing: revocation is idempotent
    let again = ApiKey::revoke(&mut store, &raw_key).expect("Revocation failed");
    assert!(!again);
}

#[test]
fn test_api_key_requires_user() {
    let mut store = Store::new();
    let raw_key = ApiKey::generate_key();
    let created = ApiKey::create(&mut store, 42, "orphan", &raw_key);
    assert!(matches!(created, Err(hive_server::HiveError::Database(_))));
}

#[test]
fn test_revoke_by_id() {
    let mut store = Store::new();
    let user = User::create(&mut store, "test_user_revoke_id").expect("Failed to create user");
    let raw_key = ApiKey::generate_key();
    let row = ApiKey::create(&mut store, user.id, "by-id", &raw_key)
        .expect("Failed to create API key");
    assert!(ApiKey::revoke_by_id(&mut store, row.id).expect("Revocation failed"));
    assert!(!ApiKey::revoke_by_id(&mut store, row.id).expect("Revocation failed"));
    assert!(ApiKey::validate(&mut store, &raw_key).expect("Validation failed").is_none());
}
