use onionpipe::keystore::{resolve_stored_key, SecretKeyStorage, SecretKeyStore, SecretsError, StoreWrite};
use onionpipe::secrets::{
    delete_key_decision, ensure_key_bytes, EnsureAction, SecretStore, CLIENT_KEY_LEN,
    SERVICE_KEY_LEN,
};

#[test]
fn store_paths() {
    let store = SecretStore::new("/home/someone/.config/onionpipe");
    assert_eq!(
        store.services_dir(),
        "/home/someone/.config/onionpipe/services"
    );
    assert_eq!(
        store.clients_dir(),
        "/home/someone/.config/onionpipe/clients"
    );
    assert_eq!(
        store.service_path("svc"),
        "/home/someone/.config/onionpipe/services/svc"
    );
    assert_eq!(
        store.client_path("me"),
        "/home/someone/.config/onionpipe/clients/me"
    );
}

#[test]
fn ensure_returns_existing_key_unchanged() {
    let existing: Vec<u8> = vec![9; SERVICE_KEY_LEN];
    let fresh: Vec<u8> = vec![1; SERVICE_KEY_LEN];
    let (key, action) = ensure_key_bytes(Some(existing.clone()), fresh, SERVICE_KEY_LEN);
    assert_eq!(key, existing);
    assert_eq!(action, EnsureAction::UseExisting);
}

#[test]
fn ensure_writes_fresh_key_when_absent() {
    let fresh: Vec<u8> = vec![1; CLIENT_KEY_LEN];
    let (key, action) = ensure_key_bytes(None, fresh.clone(), CLIENT_KEY_LEN);
    assert_eq!(key, fresh);
    assert_eq!(action, EnsureAction::WriteFresh);
    // Two ensures of one name hand back the same bytes: the second sees
    // the first one's file.
    let (key2, action2) = ensure_key_bytes(Some(key.clone()), vec![2; CLIENT_KEY_LEN], CLIENT_KEY_LEN);
    assert_eq!(key2, key);
    assert_eq!(action2, EnsureAction::UseExisting);
}

#[test]
fn ensure_client_keys() {
    let existing: Vec<u8> = vec![4; CLIENT_KEY_LEN];
    let (key, action) = onionpipe::secrets::ensure_client_key(Some(existing.clone()));
    assert_eq!(key, existing);
    assert_eq!(action, EnsureAction::UseExisting);
    let (fresh, action) = onionpipe::secrets::ensure_client_key(None);
    assert_eq!(fresh.len(), CLIENT_KEY_LEN);
    assert_eq!(action, EnsureAction::WriteFresh);
}

#[test]
fn delete_decisions() {
    // Deleting an existing key file succeeds; deleting it again is a
    // quiet no-op, not an error.
    assert_eq!(delete_key_decision(true), Some(()));
    assert_eq!(delete_key_decision(false), None);
}

#[test]
fn keyring_resolution_round_trips_through_base64() {
    let fresh: Vec<u8> = vec![0; 64];
    let (key, write) = resolve_stored_key(None, fresh.clone()).unwrap();
    assert_eq!(key, fresh);
    let encoded = match write {
        StoreWrite::SetPassword(e) => e,
        other => panic!("expected a write, got {:?}", other),
    };
    // The standard base64 form of 64 zero bytes.
    assert_eq!(
        encoded,
        "AAAAAAAAAAAAAAAAAAAAAAAAAAAAAAAAAAAAAAAAAAAAAAAAAAAAAAAAAAAAAAAAAAAAAAAAAAAAAAAAAAAAAA=="
    );
    // A later lookup of what was stored yields the same key and no write.
    let (key2, write2) = resolve_stored_key(Some(&encoded), vec![5; 64]).unwrap();
    assert_eq!(key2, fresh);
    assert_eq!(write2, StoreWrite::Nothing);
}

#[test]
fn keyring_resolution_rejects_bad_values() {
    assert!(resolve_stored_key(Some(&"!not base64!".to_string()), vec![0; 64]).is_err());
    // Valid base64 of the wrong length is refused too.
    assert!(resolve_stored_key(Some(&"AAAA".to_string()), vec![0; 64]).is_err());
}

struct MapStore {
    value: Option<Vec<u8>>,
}

impl SecretKeyStore for MapStore {
    fn ensure_key(&self, _petname: &str) -> Result<Vec<u8>, SecretsError> {
        match &self.value {
            Some(v) => Ok(v.clone()),
            None => Err(SecretsError::Keyring("no entry".to_string())),
        }
    }

    fn destroy_key(&self, _petname: &str) -> Result<(), SecretsError> {
        Ok(())
    }
}

#[test]
fn key_storage_forwards_to_its_store() {
    let storage = SecretKeyStorage::new(MapStore {
        value: Some(vec![3; 64]),
    });
    assert_eq!(storage.ensure_key("pet").unwrap(), vec![3; 64]);
    assert!(storage.destroy_key("pet").is_ok());
    let empty = SecretKeyStorage::new(MapStore { value: None });
    assert!(empty.ensure_key("pet").is_err());
}
