use iccrypt_backend::clock::{get_current_time, new_uuid};
use iccrypt_backend::error::SmartVaultErr;
use iccrypt_backend::secret::{Secret, SecretCategory, SecretDecryptionMaterial};
use iccrypt_backend::user_vault::UserVault;

fn material(tag: u8) -> SecretDecryptionMaterial {
    SecretDecryptionMaterial {
        encrypted_decryption_key: vec![tag, tag],
        iv: vec![tag],
        username_decryption_nonce: Some(vec![tag]),
        password_decryption_nonce: None,
        notes_decryption_nonce: None,
    }
}

#[test]
fn utest_user_vault_create_uservault() {
    // Create empty user_vault
    let before = get_current_time();
    let user_vault: UserVault = UserVault::new();

    // Check dates
    assert!(
        user_vault.date_created() > &before,
        "date_created: {} must be greater than before: {}",
        user_vault.date_created(),
        &before
    );
    assert_eq!(
        user_vault.date_created(),
        user_vault.date_modified(),
        "date_created: {} must be equal to date_modified: {}",
        user_vault.date_created(),
        user_vault.date_modified()
    );
    assert_eq!(
        user_vault.secrets().len(),
        0,
        "user_vault should have no secrets yet but has {}",
        user_vault.secrets().len()
    );

    // Create 2nd user_vault
    let user_vault_2: UserVault = UserVault::new();
    assert_ne!(
        user_vault.id(),
        user_vault_2.id(),
        "user_vault.id {} must not be equal to user_vault_2.id {}",
        user_vault.id(),
        user_vault_2.id()
    );
}

#[test]
fn utest_user_vault_add_secret() {
    // Create empty user_vault
    let mut user_vault: UserVault = UserVault::new();

    // Create secret stuff...
    let secret_name = String::from("my-first-secret");
    let secret: Secret = Secret::new(SecretCategory::Password, secret_name.clone());
    let modified_before_update = *user_vault.date_modified();
    let created_before_update = *user_vault.date_created();

    // Add secret to user_vault
    assert_eq!(
        user_vault.add_secret(secret.clone(), SecretDecryptionMaterial::default()),
        Ok(())
    );

    // Same secret cannot be added twice
    assert_eq!(
        user_vault.add_secret(secret.clone(), SecretDecryptionMaterial::default()),
        Err(SmartVaultErr::SecretDoesAlreadyExist(secret.id().to_string())),
        "Error must be {:?} but is {:?}",
        SmartVaultErr::SecretDoesAlreadyExist(secret.id().to_string()),
        user_vault.add_secret(secret.clone(), SecretDecryptionMaterial::default())
    );

    // Check dates
    assert!(
        user_vault.date_modified() > user_vault.date_created(),
        "date_modified: {} must be greater than date_created: {}",
        user_vault.date_modified(),
        user_vault.date_created()
    );
    assert_eq!(
        user_vault.date_created(),
        &created_before_update,
        "date_created: {} must be equal to created_before_update: {}",
        user_vault.date_created(),
        created_before_update
    );
    assert!(
        user_vault.date_modified() > &modified_before_update,
        "date_modified: {} must be greater than modified_before_update: {}",
        user_vault.date_modified(),
        modified_before_update
    );

    // Check secrets() function
    assert_eq!(
        user_vault.secrets().len(),
        1,
        "user_vault should have 1 secret now yet but has {}",
        user_vault.secrets().len()
    );
    assert!(
        user_vault.secrets().get(secret.id()).is_some(),
        "Secret with id {} is not existing in user_vault",
        secret.id()
    );

    // Check get_secret()
    assert_eq!(
        user_vault.get_secret(secret.id()).unwrap().name(),
        &secret_name,
        "secret.name must be {:?} but is {:?}",
        user_vault.get_secret(secret.id()).unwrap().name(),
        &secret_name
    );
    let uuid = new_uuid();
    assert_eq!(
        user_vault.get_secret(&uuid),
        Err(SmartVaultErr::SecretDoesNotExist(uuid.to_string())),
        "Error must be {:?} but is {:?}",
        SmartVaultErr::SecretDoesNotExist(uuid.to_string()),
        user_vault.get_secret(&uuid)
    );

    // Check get_secret_mut()
    let secret_mut = user_vault.get_secret_mut(secret.id()).unwrap();
    assert_eq!(secret_mut.name(), &secret_name,);
    let uuid = new_uuid();
    assert_eq!(
        user_vault.get_secret_mut(&uuid),
        Err(SmartVaultErr::SecretDoesNotExist(uuid.to_string()))
    );
}

#[test]
fn utest_user_vault_update_secret() {
    // Create empty user_vault
    let mut user_vault: UserVault = UserVault::new();

    // Add secret to user_vault
    let secret_name = String::from("my-first-secret");
    let mut secret: Secret = Secret::new(SecretCategory::Password, secret_name.clone());
    user_vault
        .add_secret(secret.clone(), SecretDecryptionMaterial::default())
        .unwrap();

    // Update secret
    let username = String::from("my-username");
    let password = String::from("my-password");
    secret.set_username(username.as_bytes().to_vec());
    secret.set_password(password.as_bytes().to_vec());
    let modified_before_update = *user_vault.date_modified();
    let created_before_update = *user_vault.date_created();
    assert_eq!(user_vault.update_secret(secret), Ok(()));
    assert_eq!(
        user_vault.secrets().len(),
        1,
        "user_vault should have 1 secret now yet but has {}",
        user_vault.secrets().len()
    );

    // Check dates
    assert!(
        user_vault.date_created() < user_vault.date_modified(),
        "date_modified: {} must be greater than date_created: {}",
        user_vault.date_modified(),
        user_vault.date_created()
    );
    assert_eq!(
        user_vault.date_created(),
        &created_before_update,
        "date_created: {} must be equal to created_before_update: {}",
        user_vault.date_created(),
        created_before_update
    );
    assert!(
        user_vault.date_modified() > &modified_before_update,
        "date_modified: {} must be greater than modified_before_update: {}",
        user_vault.date_modified(),
        modified_before_update
    );
}

#[test]
fn utest_user_vault_remove_secret() {
    // Create empty user_vault
    let mut user_vault: UserVault = UserVault::new();

    // Add secret to user_vault
    let secret_name = String::from("my-first-secret");
    let secret: Secret = Secret::new(SecretCategory::Password, secret_name.clone());
    user_vault
        .add_secret(secret.clone(), SecretDecryptionMaterial::default())
        .unwrap();

    // Remove secret
    let modified_before_update = *user_vault.date_modified();
    let created_before_update = *user_vault.date_created();
    assert_eq!(user_vault.remove_secret(secret.id()), Ok(()));
    assert_eq!(
        user_vault.secrets().len(),
        0,
        "user_vault should have 0 secret now yet but has {}",
        user_vault.secrets().len()
    );

    // Check dates
    assert!(
        user_vault.date_created() < user_vault.date_modified(),
        "date_modified: {} must be greater than date_created: {}",
        user_vault.date_modified(),
        user_vault.date_created()
    );
    assert_eq!(
        user_vault.date_created(),
        &created_before_update,
        "date_created: {} must be equal to created_before_update: {}",
        user_vault.date_created(),
        created_before_update
    );
    assert!(
        user_vault.date_modified() > &modified_before_update,
        "date_modified: {} must be greater than modified_before_update: {}",
        user_vault.date_modified(),
        modified_before_update
    );
}

#[test]
fn key_box_follows_secrets() {
    let mut vault = UserVault::with_id(7, 100);
    let a = Secret::with_id(1, SecretCategory::Password, String::from("a"), 100);
    let b = Secret::with_id(2, SecretCategory::Note, String::from("b"), 100);
    vault.add_secret(a, material(1)).unwrap();
    vault.add_secret(b, material(2)).unwrap();
    assert_eq!(vault.secrets().len(), 2);
    assert_eq!(vault.key_box().len(), 2);
    assert_eq!(vault.key_box().get(&2), Some(&material(2)));
    vault.remove_secret(&1).unwrap();
    assert_eq!(vault.secrets().len(), 1);
    assert_eq!(vault.key_box().len(), 1);
    assert!(vault.secrets().get(&1).is_none());
    assert!(vault.key_box().get(&1).is_none());
    assert!(vault.key_box().get(&2).is_some());
}

#[test]
fn duplicate_add_leaves_store_unchanged() {
    let mut vault = UserVault::with_id(7, 100);
    let first = Secret::with_id(5, SecretCategory::Password, String::from("first"), 100);
    let second = Secret::with_id(5, SecretCategory::Document, String::from("second"), 100);
    vault.add_secret(first, material(1)).unwrap();
    let modified = *vault.date_modified();
    assert_eq!(
        vault.add_secret(second, material(2)),
        Err(SmartVaultErr::SecretDoesAlreadyExist(String::from("5")))
    );
    assert_eq!(vault.secrets().len(), 1);
    assert_eq!(vault.key_box().len(), 1);
    assert_eq!(vault.get_secret(&5).unwrap().name(), "first");
    assert_eq!(vault.key_box().get(&5), Some(&material(1)));
    assert_eq!(*vault.date_modified(), modified);
}

#[test]
fn serialized_adds_of_one_id_succeed_once() {
    let mut vault = UserVault::new();
    let secret = Secret::new(SecretCategory::Password, String::from("twice"));
    let results = [
        vault.add_secret(secret.clone(), material(1)),
        vault.add_secret(secret.clone(), material(2)),
    ];
    assert_eq!(results.iter().filter(|r| r.is_ok()).count(), 1);
    assert_eq!(
        results[1],
        Err(SmartVaultErr::SecretDoesAlreadyExist(secret.id().to_string()))
    );
}

#[test]
fn remove_missing_secret_fails() {
    let mut vault = UserVault::with_id(7, 100);
    let modified = *vault.date_modified();
    assert_eq!(
        vault.remove_secret(&42),
        Err(SmartVaultErr::SecretDoesNotExist(String::from("42")))
    );
    assert_eq!(*vault.date_modified(), modified);
}

#[test]
fn update_missing_secret_fails() {
    let mut vault = UserVault::with_id(7, 100);
    let secret = Secret::with_id(9, SecretCategory::Note, String::from("n"), 100);
    assert_eq!(
        vault.update_secret(secret),
        Err(SmartVaultErr::SecretDoesNotExist(String::from("9")))
    );
    assert_eq!(vault.secrets().len(), 0);
}

#[test]
fn update_keeps_key_box_entry() {
    let mut vault = UserVault::with_id(7, 100);
    let mut secret = Secret::with_id(3, SecretCategory::Password, String::from("old"), 100);
    vault.add_secret(secret.clone(), material(4)).unwrap();
    secret.set_name(String::from("new"));
    vault.update_secret(secret).unwrap();
    assert_eq!(vault.get_secret(&3).unwrap().name(), "new");
    assert_eq!(vault.key_box().get(&3), Some(&material(4)));
}

#[test]
fn modification_dates_never_decrease() {
    let mut vault = UserVault::with_id(7, 100);
    let mut last = *vault.date_modified();
    for id in 0..5u128 {
        let s = Secret::with_id(id, SecretCategory::Note, String::from("s"), 0);
        vault.add_secret(s, material(0)).unwrap();
        assert!(*vault.date_modified() >= last);
        assert!(*vault.date_modified() >= *vault.date_created());
        last = *vault.date_modified();
    }
    vault.remove_secret(&3).unwrap();
    assert!(*vault.date_modified() >= last);
    assert_eq!(*vault.date_created(), 100);
}

#[test]
fn writes_through_get_secret_mut_are_kept() {
    let mut vault = UserVault::with_id(7, 100);
    let secret = Secret::with_id(11, SecretCategory::Password, String::from("p"), 100);
    vault.add_secret(secret, material(3)).unwrap();
    vault
        .get_secret_mut(&11)
        .unwrap()
        .set_password(b"cipher".to_vec());
    assert_eq!(
        vault.get_secret(&11).unwrap().password(),
        &Some(b"cipher".to_vec())
    );
    assert_eq!(vault.key_box().len(), 1);
}

#[test]
fn fresh_ids_and_times() {
    let a = new_uuid();
    let b = new_uuid();
    assert_ne!(a, b);
    let t1 = get_current_time();
    let t2 = get_current_time();
    assert!(t1 > 0);
    assert!(t2 >= t1);
}

#[test]
fn modification_date_follows_the_given_time() {
    let mut vault = UserVault::with_id(7, 100);
    let a = Secret::with_id(1, SecretCategory::Password, String::from("a"), 0);
    let b = Secret::with_id(2, SecretCategory::Password, String::from("b"), 0);
    vault.add_secret_at(a, material(1), 250).unwrap();
    assert_eq!(*vault.date_modified(), 250);
    vault.add_secret_at(b, material(2), 50).unwrap();
    assert_eq!(*vault.date_modified(), 250);
    vault.remove_secret_at(&1, 300).unwrap();
    assert_eq!(*vault.date_modified(), 300);
    let b2 = Secret::with_id(2, SecretCategory::Note, String::from("b2"), 0);
    vault.update_secret_at(b2, 400).unwrap();
    assert_eq!(*vault.date_modified(), 400);
    assert_eq!(*vault.date_created(), 100);
}
