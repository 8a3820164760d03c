use rand_chacha::rand_core::SeedableRng;
use rand_chacha::ChaCha20Rng;
use space_keys::error::StoreError;
use space_keys::key_manager::{FileRead, KeyManager};
use space_keys::key_store::KeyStore;
use space_keys::keys::{IrohSecretKey, KeyHash, SecretKey};

const DIR: &str = "/tmp/t1";

fn master() -> SecretKey {
    SecretKey([0u8; 32])
}

fn identity() -> IrohSecretKey {
    let mut seed = [0u8; 32];
    for (i, b) in seed.iter_mut().enumerate() {
        *b = i as u8;
    }
    IrohSecretKey(seed)
}

fn rng(seed: u8) -> ChaCha20Rng {
    ChaCha20Rng::from_seed([seed; 32])
}

fn hash_of(key: &SecretKey) -> KeyHash {
    KeyHash(*blake3::hash(&key.0).as_bytes())
}

fn created(seed: u8) -> (KeyManager, Vec<u8>) {
    KeyManager::new(master(), identity(), DIR, &mut rng(seed)).unwrap()
}

fn added(manager: &mut KeyManager, key: SecretKey, rng: &mut ChaCha20Rng) -> Vec<u8> {
    let update = manager.add_key(key, rng).unwrap();
    let image = update.image().clone();
    manager.finish(update, Ok(())).unwrap();
    image
}

fn loaded(master_key: SecretKey, image: &[u8]) -> Result<KeyManager, StoreError> {
    KeyManager::load(master_key, DIR, FileRead::Contents(image.to_vec()))
}

#[test]
fn empty_create_loads_back() {
    let (manager, image) = created(1);
    assert_eq!(manager.keys_file_path(), "/tmp/t1/space.keys");
    let again = loaded(master(), &image).unwrap();
    assert!(again.iroh_secret_key() == identity());
    assert_eq!(again.keys_file_path(), "/tmp/t1/space.keys");
    assert!(again.get_key(&KeyHash([0u8; 32])).is_none());
    assert!(again.get_key(&hash_of(&SecretKey([0x11; 32]))).is_none());
    let plain = KeyStore::decrypt(&master(), &image).unwrap().to_bytes().unwrap();
    let mut expected = identity().0.to_vec();
    expected.extend_from_slice(&[0, 0, 0, 0]);
    assert_eq!(plain, expected);
}

#[test]
fn single_key_round_trip() {
    let (mut manager, _) = created(1);
    let key = SecretKey([0x11; 32]);
    let image = added(&mut manager, key, &mut rng(2));
    let again = loaded(master(), &image).unwrap();
    assert!(again.get_key(&hash_of(&key)) == Some(key));
    assert!(again.get_key(&KeyHash([0xAB; 32])).is_none());
    assert!(again.iroh_secret_key() == identity());
    assert!(manager.get_key(&hash_of(&key)) == Some(key));
}

#[test]
fn two_keys_in_either_order_give_one_plaintext() {
    let key_a = SecretKey([0xA1; 32]);
    let key_b = SecretKey([0xB2; 32]);

    let (mut first, _) = created(1);
    added(&mut first, key_a, &mut rng(2));
    let first_image = added(&mut first, key_b, &mut rng(3));

    let (mut second, _) = created(4);
    added(&mut second, key_b, &mut rng(5));
    let second_image = added(&mut second, key_a, &mut rng(6));

    let first_plain = KeyStore::decrypt(&master(), &first_image).unwrap().to_bytes().unwrap();
    let second_plain = KeyStore::decrypt(&master(), &second_image).unwrap().to_bytes().unwrap();
    assert_eq!(first_plain, second_plain);
    assert_eq!(first_plain.len(), 36 + 2 * 64);
    assert_eq!(&first_plain[32..36], &[0, 0, 0, 2]);
    assert!(first_plain[36..68] < first_plain[100..132]);

    assert_eq!(first_image.len(), second_image.len());
    assert_eq!(&first_image[..6], &second_image[..6]);
    assert_ne!(&first_image[6..30], &second_image[6..30]);
    assert_ne!(&first_image[30..], &second_image[30..]);
}

#[test]
fn wrong_master_key_is_an_auth_failure() {
    let (mut manager, _) = created(1);
    let image = added(&mut manager, SecretKey([0x11; 32]), &mut rng(2));
    let before = image.clone();
    let err = loaded(SecretKey([0xFF; 32]), &image).err().unwrap();
    assert_eq!(err, StoreError::AuthFailure);
    assert_eq!(image, before);
    assert!(loaded(master(), &image).is_ok());
}

#[test]
fn corrupted_tag_is_an_auth_failure() {
    let (mut manager, _) = created(1);
    let mut image = added(&mut manager, SecretKey([0x11; 32]), &mut rng(2));
    let last = image.len() - 1;
    image[last] ^= 0x01;
    assert_eq!(loaded(master(), &image).err().unwrap(), StoreError::AuthFailure);
}

#[test]
fn corrupted_ciphertext_is_an_auth_failure() {
    let (_, mut image) = created(1);
    image[40] ^= 0x80;
    assert_eq!(loaded(master(), &image).err().unwrap(), StoreError::AuthFailure);
}

#[test]
fn corrupted_nonce_is_an_auth_failure() {
    let (_, mut image) = created(1);
    image[6] ^= 0x01;
    assert_eq!(loaded(master(), &image).err().unwrap(), StoreError::AuthFailure);
}

#[test]
fn truncated_file_is_a_format_error() {
    let (mut manager, _) = created(1);
    let mut image = added(&mut manager, SecretKey([0x11; 32]), &mut rng(2));
    image.truncate(3);
    assert_eq!(loaded(master(), &image).err().unwrap(), StoreError::FormatInvalid);
}

#[test]
fn lookup_sees_a_key_only_once_its_file_is_replaced() {
    let (mut manager, _) = created(1);
    let key_0 = SecretKey([0x10; 32]);
    let key_1 = SecretKey([0x21; 32]);
    added(&mut manager, key_0, &mut rng(2));

    let update = manager.add_key(key_1, &mut rng(3)).unwrap();
    assert!(manager.get_key(&hash_of(&key_0)) == Some(key_0));
    assert!(manager.get_key(&hash_of(&key_1)).is_none());

    manager.finish(update, Ok(())).unwrap();
    assert!(manager.get_key(&hash_of(&key_0)) == Some(key_0));
    assert!(manager.get_key(&hash_of(&key_1)) == Some(key_1));
}

#[test]
fn failed_replace_keeps_the_previous_state() {
    let (mut manager, _) = created(1);
    let key_0 = SecretKey([0x10; 32]);
    let key_1 = SecretKey([0x21; 32]);
    let on_disk = added(&mut manager, key_0, &mut rng(2));

    let update = manager.add_key(key_1, &mut rng(3)).unwrap();
    let err = manager.finish(update, Err(String::from("rename failed"))).err().unwrap();
    assert_eq!(
        err,
        StoreError::IoFailure {
            path: String::from("/tmp/t1/space.keys"),
            cause: String::from("rename failed"),
        }
    );
    assert!(manager.get_key(&hash_of(&key_0)) == Some(key_0));
    assert!(manager.get_key(&hash_of(&key_1)).is_none());

    let again = loaded(master(), &on_disk).unwrap();
    assert!(again.get_key(&hash_of(&key_0)) == Some(key_0));
    assert!(again.get_key(&hash_of(&key_1)).is_none());
}

#[test]
fn adding_a_key_twice_changes_nothing() {
    let (mut manager, _) = created(1);
    let key = SecretKey([0x11; 32]);
    let once = added(&mut manager, key, &mut rng(2));
    let twice = added(&mut manager, key, &mut rng(3));
    let once_plain = KeyStore::decrypt(&master(), &once).unwrap().to_bytes().unwrap();
    let twice_plain = KeyStore::decrypt(&master(), &twice).unwrap().to_bytes().unwrap();
    assert_eq!(once_plain, twice_plain);
    assert_eq!(once_plain.len(), 36 + 64);
}

#[test]
fn many_keys_are_all_found_after_reload() {
    let (mut manager, _) = created(1);
    let mut generator = rng(9);
    let mut image = Vec::new();
    let keys: Vec<SecretKey> = (0..40u8).map(|i| SecretKey([i.wrapping_mul(37); 32])).collect();
    for key in &keys {
        image = added(&mut manager, *key, &mut generator);
    }
    let again = loaded(master(), &image).unwrap();
    for key in &keys {
        assert!(again.get_key(&hash_of(key)) == Some(*key));
    }
    assert_eq!(image.len(), 30 + 36 + 40 * 64 + 16);
}

#[test]
fn missing_file_is_reported_as_missing() {
    let err = KeyManager::load(master(), DIR, FileRead::Missing).err().unwrap();
    assert_eq!(err, StoreError::FileMissing);
}

#[test]
fn unreadable_file_is_an_io_failure_with_path_and_cause() {
    let read = FileRead::Failed { cause: String::from("permission denied") };
    let err = KeyManager::load(master(), "/data/", read).err().unwrap();
    assert_eq!(
        err,
        StoreError::IoFailure {
            path: String::from("/data/space.keys"),
            cause: String::from("permission denied"),
        }
    );
}

#[test]
fn node_id_is_the_public_half_of_the_identity() {
    let (manager, _) = created(1);
    let expected = iroh_base::key::SecretKey::from_bytes(&identity().0).public();
    assert_eq!(&manager.node_id().0, expected.as_bytes());
    assert_ne!(manager.node_id().0, identity().0);
}

#[test]
fn debug_text_shows_the_path_and_no_secret() {
    let (mut manager, _) = created(1);
    added(&mut manager, SecretKey([0x11; 32]), &mut rng(2));
    assert_eq!(
        manager.debug_text(),
        "KeyManager { master_key: \"[REDACTED]\", keys_file_path: \"/tmp/t1/space.keys\", store: \"[REDACTED]\" }"
    );
    let other = KeyManager::new(SecretKey([0x5A; 32]), IrohSecretKey([0x77; 32]), DIR, &mut rng(8))
        .unwrap()
        .0;
    assert_eq!(manager.debug_text(), other.debug_text());
}

#[test]
fn each_write_draws_a_fresh_nonce() {
    let (mut manager, first) = created(1);
    let mut generator = rng(2);
    let second = added(&mut manager, SecretKey([0x11; 32]), &mut generator);
    let third = added(&mut manager, SecretKey([0x11; 32]), &mut generator);
    assert_ne!(&first[6..30], &second[6..30]);
    assert_ne!(&second[6..30], &third[6..30]);
    assert_ne!(&second[30..], &third[30..]);
}
