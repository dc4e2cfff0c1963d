//! Tests for the storage layer's key-file helpers.

use mcpmux_transport::{
    check_key_material, create_jwt_secret_provider, create_key_provider, database_path_in,
    default_database_path, FileJwtSecretProvider, FileKeyProvider, JwtSecretProviderChoice,
    KeyProviderChoice, JWT_SECRET_SIZE, KEY_SIZE,
};

#[test]
fn test_file_key_provider_path() {
    let p = FileKeyProvider::new("/data");
    assert_eq!(p.key_path, "/data/keys/master.key");
}

#[test]
fn test_file_jwt_secret_provider_path() {
    let p = FileJwtSecretProvider::new("/data");
    assert_eq!(p.secret_path, "/data/keys/jwt.key");
}

#[test]
fn test_check_key_material_accepts_exact_size() {
    let data = vec![7u8; KEY_SIZE];
    let out = check_key_material(data.clone(), KEY_SIZE).expect("exact size is accepted");
    assert_eq!(out, data);
}

#[test]
fn test_check_key_material_rejects_wrong_size() {
    let err = check_key_material(vec![0u8; 5], KEY_SIZE).unwrap_err();
    assert_eq!(err, "Invalid key size in file: expected 32, got 5");
}

#[test]
fn test_check_secret_bytes_uses_secret_size() {
    let p = FileJwtSecretProvider::new("/data");
    assert!(p.check_secret_bytes(vec![1u8; JWT_SECRET_SIZE]).is_ok());
    assert!(p.check_secret_bytes(vec![1u8; JWT_SECRET_SIZE + 1]).is_err());
}

#[test]
fn test_create_key_provider_prefers_keychain() {
    assert!(matches!(
        create_key_provider("/data", true),
        KeyProviderChoice::Keychain
    ));
    match create_key_provider("/data", false) {
        KeyProviderChoice::File(f) => assert_eq!(f.key_path, "/data/keys/master.key"),
        KeyProviderChoice::Keychain => panic!("expected the file fallback"),
    }
}

#[test]
fn test_create_jwt_secret_provider_prefers_keychain() {
    assert!(matches!(
        create_jwt_secret_provider("/data", true),
        JwtSecretProviderChoice::Keychain
    ));
    match create_jwt_secret_provider("/data", false) {
        JwtSecretProviderChoice::File(f) => assert_eq!(f.secret_path, "/data/keys/jwt.key"),
        JwtSecretProviderChoice::Keychain => panic!("expected the file fallback"),
    }
}

#[test]
fn test_database_path_layout() {
    assert_eq!(database_path_in("/home/u/.local/share"), "/home/u/.local/share/mcpmux/mcpmux.db");
    if let Some(p) = default_database_path() {
        assert!(p.ends_with("/mcpmux/mcpmux.db"));
    }
}
