use iccrypt_backend::error::SmartVaultErr;
use iccrypt_backend::master_safe::MasterSafe;
use iccrypt_backend::secret::{Secret, SecretCategory, SecretDecryptionMaterial};
use iccrypt_backend::testament::{
    TestamentEngine, TestamentState, DEFAULT_INACTIVITY_THRESHOLD,
};

fn material(tag: u8) -> SecretDecryptionMaterial {
    SecretDecryptionMaterial {
        encrypted_decryption_key: vec![tag; 4],
        iv: vec![tag; 2],
        username_decryption_nonce: None,
        password_decryption_nonce: Some(vec![tag]),
        notes_decryption_nonce: None,
    }
}

fn alice() -> Vec<u8> {
    vec![0xa1, 0x1c, 0xe0]
}

fn bob() -> Vec<u8> {
    vec![0xb0, 0x0b]
}

fn carol() -> Vec<u8> {
    vec![0xca, 0x01]
}

/// Alice's store with one secret, and her testament 77 created at time 1000.
fn setup() -> (MasterSafe, TestamentEngine) {
    let mut vaults = MasterSafe::new();
    let s1 = Secret::with_id(1, SecretCategory::Password, String::from("s1"), 1000);
    vaults.add_user_secret(alice(), s1, material(1)).unwrap();
    let mut engine = TestamentEngine::new();
    engine
        .insert_testament(77, alice(), String::from("t"), 1000)
        .unwrap();
    (vaults, engine)
}

#[test]
fn release_after_inactivity_scenario() {
    let (vaults, mut engine) = setup();
    engine
        .add_secret_to_keybox(&vaults, &alice(), 77, 1, material(9), 1000)
        .unwrap();
    engine
        .update_testament(&alice(), 77, String::from("t"), vec![bob()], 500, 1000)
        .unwrap();
    let t = engine.get_testament(77).unwrap();
    assert_eq!(t.condition.last_owner_activity, 1000);
    // last owner activity lies threshold + 1 in the past
    let released = engine.evaluate_all_at(1000 + 500 + 1);
    assert_eq!(released, vec![77]);
    let t = engine.get_testament(77).unwrap();
    assert_eq!(t.state, TestamentState::Released);
    assert_eq!(t.date_modified, 1501);
    let key_box = engine.get_for_beneficiary(&bob(), 77).unwrap();
    assert_eq!(key_box.len(), 1);
    assert_eq!(key_box.get(&1), Some(&material(9)));
    assert_eq!(
        engine.get_for_beneficiary(&carol(), 77),
        Err(SmartVaultErr::NotABeneficiary)
    );
}

#[test]
fn update_after_release_is_refused() {
    let (_, mut engine) = setup();
    engine
        .update_testament(&alice(), 77, String::from("t"), vec![bob()], 10, 1000)
        .unwrap();
    assert_eq!(engine.evaluate_all_at(1010), vec![77]);
    assert_eq!(
        engine.update_testament(&alice(), 77, String::from("x"), vec![carol()], 10, 2000),
        Err(SmartVaultErr::TestamentNotActive)
    );
    let t = engine.get_testament(77).unwrap();
    assert_eq!(t.name, "t");
    assert_eq!(t.beneficiaries, vec![bob()]);
    assert_eq!(t.state, TestamentState::Released);
}

#[test]
fn beneficiary_read_before_release_fails() {
    let (_, mut engine) = setup();
    engine
        .update_testament(&alice(), 77, String::from("t"), vec![bob()], 10, 1000)
        .unwrap();
    assert_eq!(
        engine.get_for_beneficiary(&bob(), 77),
        Err(SmartVaultErr::NotReleased)
    );
    assert_eq!(engine.evaluate_all_at(1009), Vec::<u128>::new());
    assert_eq!(
        engine.get_for_beneficiary(&bob(), 77),
        Err(SmartVaultErr::NotReleased)
    );
    assert_eq!(
        engine.get_for_beneficiary(&bob(), 78),
        Err(SmartVaultErr::TestamentDoesNotExist(String::from("78")))
    );
}

#[test]
fn second_evaluation_changes_nothing() {
    let (_, mut engine) = setup();
    engine
        .insert_testament(78, bob(), String::from("u"), 1000)
        .unwrap();
    engine
        .update_testament(&alice(), 77, String::from("t"), vec![], 5, 1000)
        .unwrap();
    assert_eq!(engine.evaluate_all_at(1005), vec![77]);
    let first = engine.get_testament(77).unwrap().clone();
    assert_eq!(engine.evaluate_all_at(1005), Vec::<u128>::new());
    assert_eq!(engine.evaluate_all_at(u64::MAX), vec![78]);
    let again = engine.get_testament(77).unwrap();
    assert_eq!(again.state, TestamentState::Released);
    assert_eq!(again.date_modified, first.date_modified);
}

#[test]
fn new_testament_defaults() {
    let (_, engine) = setup();
    let t = engine.get_testament(77).unwrap();
    assert_eq!(t.owner, alice());
    assert_eq!(t.state, TestamentState::Active);
    assert!(t.beneficiaries.is_empty());
    assert!(t.key_box.is_empty());
    assert_eq!(t.condition.threshold, DEFAULT_INACTIVITY_THRESHOLD);
    assert_eq!(t.condition.last_owner_activity, 1000);
    assert_eq!(t.date_created, 1000);
    assert_eq!(t.date_modified, 1000);
}

#[test]
fn duplicate_testament_id_is_refused() {
    let (_, mut engine) = setup();
    assert_eq!(
        engine.insert_testament(77, bob(), String::from("again"), 2000),
        Err(SmartVaultErr::TestamentAlreadyExists(String::from("77")))
    );
    assert_eq!(engine.get_testament(77).unwrap().owner, alice());
}

#[test]
fn created_testament_is_active_and_owned() {
    let mut engine = TestamentEngine::new();
    let id = engine.create_testament(carol(), String::from("c")).unwrap();
    let t = engine.get_testament(id).unwrap();
    assert_eq!(t.owner, carol());
    assert_eq!(t.state, TestamentState::Active);
    assert_eq!(engine.evaluate_all(), Vec::<u128>::new());
}

#[test]
fn only_the_owner_writes() {
    let (vaults, mut engine) = setup();
    assert_eq!(
        engine.update_testament(&bob(), 77, String::from("x"), vec![bob()], 1, 1100),
        Err(SmartVaultErr::NotOwner)
    );
    assert_eq!(
        engine.add_secret_to_keybox(&vaults, &bob(), 77, 1, material(2), 1100),
        Err(SmartVaultErr::NotOwner)
    );
    assert_eq!(
        engine.update_testament(&alice(), 5, String::from("x"), vec![], 1, 1100),
        Err(SmartVaultErr::TestamentDoesNotExist(String::from("5")))
    );
    assert_eq!(engine.get_testament(77).unwrap().condition.last_owner_activity, 1000);
}

#[test]
fn key_box_takes_only_known_secrets() {
    let (vaults, mut engine) = setup();
    assert_eq!(
        engine.add_secret_to_keybox(&vaults, &alice(), 77, 2, material(2), 1100),
        Err(SmartVaultErr::SecretDoesNotExist(String::from("2")))
    );
    assert!(engine.get_testament(77).unwrap().key_box.is_empty());
    engine
        .add_secret_to_keybox(&vaults, &alice(), 77, 1, material(2), 1200)
        .unwrap();
    let t = engine.get_testament(77).unwrap();
    assert_eq!(t.key_box.get(&1), Some(&material(2)));
    assert_eq!(t.condition.last_owner_activity, 1200);
    assert_eq!(t.date_modified, 1200);
}

#[test]
fn owner_activity_postpones_release() {
    let (vaults, mut engine) = setup();
    engine
        .update_testament(&alice(), 77, String::from("t"), vec![bob()], 100, 1000)
        .unwrap();
    engine
        .add_secret_to_keybox(&vaults, &alice(), 77, 1, material(3), 1090)
        .unwrap();
    assert_eq!(engine.evaluate_all_at(1100), Vec::<u128>::new());
    assert_eq!(engine.evaluate_all_at(1190), vec![77]);
}

#[test]
fn testaments_listed_per_owner() {
    let (_, mut engine) = setup();
    engine.insert_testament(78, bob(), String::from("b"), 1000).unwrap();
    engine.insert_testament(79, alice(), String::from("a2"), 1000).unwrap();
    assert_eq!(engine.testaments_of(&alice()), vec![77, 79]);
    assert_eq!(engine.testaments_of(&bob()), vec![78]);
    assert_eq!(engine.testaments_of(&carol()), Vec::<u128>::new());
}

#[test]
fn recorded_activity_postpones_only_active_testaments_of_the_owner() {
    let (_, mut engine) = setup();
    engine.insert_testament(78, bob(), String::from("b"), 1000).unwrap();
    engine.insert_testament(79, alice(), String::from("a2"), 1000).unwrap();
    engine
        .update_testament(&alice(), 79, String::from("a2"), vec![], 10, 1000)
        .unwrap();
    assert_eq!(engine.evaluate_all_at(1010), vec![79]);
    engine.record_owner_activity(&alice(), 5000);
    assert_eq!(engine.get_testament(77).unwrap().condition.last_owner_activity, 5000);
    assert_eq!(engine.get_testament(77).unwrap().date_modified, 1000);
    assert_eq!(engine.get_testament(78).unwrap().condition.last_owner_activity, 1000);
    assert_eq!(engine.get_testament(79).unwrap().condition.last_owner_activity, 1000);
    assert_eq!(engine.get_testament(79).unwrap().state, TestamentState::Released);
    engine.record_owner_activity(&alice(), 3000);
    assert_eq!(engine.get_testament(77).unwrap().condition.last_owner_activity, 5000);
}
