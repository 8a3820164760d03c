use chacha20poly1305::aead::Aead;
use chacha20poly1305::{Key, KeyInit, XChaCha20Poly1305, XNonce};
use rand_chacha::rand_core::SeedableRng;
use rand_chacha::ChaCha20Rng;
use space_keys::codec::{check_file_len, decode_file, encode_file, frame_sealed, MAX_FILE_LEN};
use space_keys::error::StoreError;
use space_keys::key_manager::{keys_file_path, temp_file_path};
use space_keys::key_store::KeyStore;
use space_keys::keys::{IrohSecretKey, KeyHash, SecretKey};

fn small_image() -> Vec<u8> {
    let store = KeyStore::new(IrohSecretKey([3u8; 32]));
    store.encrypt(&SecretKey([4u8; 32]), &mut ChaCha20Rng::from_seed([5u8; 32])).unwrap()
}

#[test]
fn file_opens_with_magic_and_version() {
    let image = small_image();
    assert_eq!(&image[0..4], b"SDKY");
    assert_eq!(&image[4..6], &[0x00, 0x01]);
    assert_eq!(image.len(), 30 + 36 + 16);
}

#[test]
fn encode_file_lays_out_frame_nonce_and_sealed() {
    let nonce = [0x42u8; 24];
    let sealed: Vec<u8> = (0u8..20).collect();
    let image = encode_file(&nonce, &sealed);
    let mut expected = vec![0x53, 0x44, 0x4B, 0x59, 0x00, 0x01];
    expected.extend_from_slice(&nonce);
    expected.extend_from_slice(&sealed);
    assert_eq!(image, expected);
    let (nonce_back, sealed_back) = decode_file(&image).unwrap();
    assert_eq!(nonce_back, nonce);
    assert_eq!(sealed_back, sealed);
}

#[test]
fn sealed_part_is_not_the_plaintext() {
    let store = KeyStore::new(IrohSecretKey([3u8; 32]));
    let plain = store.to_bytes().unwrap();
    let image = small_image();
    assert_eq!(image.len(), 30 + plain.len() + 16);
    assert_ne!(&image[30..30 + plain.len()], &plain[..]);
    let back = KeyStore::decrypt(&SecretKey([4u8; 32]), &image).unwrap();
    assert_eq!(back.to_bytes().unwrap(), plain);
}

#[test]
fn wrong_magic_is_a_format_error() {
    let mut image = small_image();
    image[0] = b'X';
    assert_eq!(decode_file(&image).err().unwrap(), StoreError::FormatInvalid);
    assert_eq!(
        KeyStore::decrypt(&SecretKey([4u8; 32]), &image).err().unwrap(),
        StoreError::FormatInvalid
    );
}

#[test]
fn wrong_version_is_a_format_error() {
    let mut image = small_image();
    image[5] = 2;
    assert_eq!(decode_file(&image).err().unwrap(), StoreError::FormatInvalid);
    let mut image = small_image();
    image[4] = 1;
    assert_eq!(decode_file(&image).err().unwrap(), StoreError::FormatInvalid);
}

#[test]
fn file_shorter_than_frame_and_tag_is_a_format_error() {
    let image = small_image();
    assert_eq!(decode_file(&image[..45]).err().unwrap(), StoreError::FormatInvalid);
    assert_eq!(decode_file(&[]).err().unwrap(), StoreError::FormatInvalid);
    assert!(decode_file(&image[..46]).is_ok());
}

#[test]
fn file_cut_inside_the_sealed_part_does_not_authenticate() {
    let image = small_image();
    assert_eq!(
        KeyStore::decrypt(&SecretKey([4u8; 32]), &image[..60]).err().unwrap(),
        StoreError::AuthFailure
    );
}

#[test]
fn oversized_file_is_rejected() {
    let mut image = small_image();
    image.resize(MAX_FILE_LEN + 1, 0);
    assert_eq!(decode_file(&image).err().unwrap(), StoreError::FormatInvalid);
    assert_eq!(
        KeyStore::decrypt(&SecretKey([4u8; 32]), &image).err().unwrap(),
        StoreError::FormatInvalid
    );
    image.truncate(MAX_FILE_LEN);
    assert!(decode_file(&image).is_ok());
}

#[test]
fn refusal_of_the_cipher_is_a_crypto_failure() {
    let refused: Result<Vec<u8>, chacha20poly1305::Error> = Err(chacha20poly1305::Error);
    assert_eq!(frame_sealed(&[0u8; 24], refused).err().unwrap(), StoreError::CryptoFailure);
    let framed = frame_sealed(&[1u8; 24], Ok(vec![9u8; 16])).unwrap();
    assert_eq!(framed, encode_file(&[1u8; 24], &[9u8; 16]));
}

#[test]
fn unopened_file_is_an_auth_failure() {
    let refused: Result<Vec<u8>, chacha20poly1305::Error> = Err(chacha20poly1305::Error);
    assert_eq!(KeyStore::from_opened(refused).err().unwrap(), StoreError::AuthFailure);
    let store = KeyStore::new(IrohSecretKey([3u8; 32]));
    let back = KeyStore::from_opened(Ok(store.to_bytes().unwrap())).unwrap();
    assert!(back.iroh_secret_key() == IrohSecretKey([3u8; 32]));
}

#[test]
fn store_at_the_size_limit_is_written_and_one_more_key_is_refused() {
    let mut store = KeyStore::new(IrohSecretKey([3u8; 32]));
    let limit: u32 = 262142;
    for i in 0..limit {
        let mut hash = [0u8; 32];
        hash[..4].copy_from_slice(&i.to_be_bytes());
        store.insert(KeyHash(hash), SecretKey([7u8; 32]));
    }
    let master = SecretKey([4u8; 32]);
    let image = store.encrypt(&master, &mut ChaCha20Rng::from_seed([5u8; 32])).unwrap();
    assert_eq!(image.len(), 82 + 64 * 262142);
    assert!(image.len() <= MAX_FILE_LEN);
    let back = KeyStore::decrypt(&master, &image).unwrap();
    assert!(back.get_key(&KeyHash([0u8; 32])) == Some(SecretKey([7u8; 32])));

    let mut hash = [0u8; 32];
    hash[..4].copy_from_slice(&limit.to_be_bytes());
    store.insert(KeyHash(hash), SecretKey([7u8; 32]));
    let err = store.encrypt(&master, &mut ChaCha20Rng::from_seed([5u8; 32])).err().unwrap();
    assert_eq!(err, StoreError::SerializationFailure);
}

#[test]
fn store_file_path_joins_directory_and_name() {
    assert_eq!(keys_file_path("/tmp/t1"), "/tmp/t1/space.keys");
    assert_eq!(keys_file_path("/tmp/t1/"), "/tmp/t1/space.keys");
    assert_eq!(keys_file_path(""), "space.keys");
    assert_eq!(keys_file_path("/"), "/space.keys");
    assert_eq!(keys_file_path("data"), "data/space.keys");
}

#[test]
fn temp_file_is_a_sibling_of_the_store_file() {
    assert_eq!(temp_file_path("/tmp/t1/space.keys"), "/tmp/t1/space.keys.tmp");
}

#[test]
fn file_length_is_checked_against_the_limit() {
    assert!(check_file_len(0).is_ok());
    assert!(check_file_len(16 * 1024 * 1024).is_ok());
    assert_eq!(check_file_len(16 * 1024 * 1024 + 1).err().unwrap(), StoreError::FormatInvalid);
    assert_eq!(check_file_len(u64::MAX).err().unwrap(), StoreError::FormatInvalid);
}

#[test]
fn count_field_of_the_plaintext_is_big_endian() {
    let mut store = KeyStore::new(IrohSecretKey([3u8; 32]));
    for i in 0..258u32 {
        let mut hash = [0u8; 32];
        hash[..4].copy_from_slice(&i.to_be_bytes());
        store.insert(KeyHash(hash), SecretKey([7u8; 32]));
    }
    let plain = store.to_bytes().unwrap();
    assert_eq!(&plain[32..36], &[0, 0, 1, 2]);
    assert_eq!(plain.len(), 36 + 258 * 64);
    assert!(KeyStore::from_bytes(&plain).is_ok());
}

#[test]
fn image_under_a_given_nonce_is_the_frame_around_the_sealed_plaintext() {
    let mut store = KeyStore::new(IrohSecretKey([3u8; 32]));
    store.add_key(SecretKey([0x11; 32]));
    let master = SecretKey([4u8; 32]);
    let nonce = [0x24u8; 24];
    let image = store.encrypt_with_nonce(&master, &nonce).unwrap();

    let plain = store.to_bytes().unwrap();
    let sealed = XChaCha20Poly1305::new(Key::from_slice(&master.0))
        .encrypt(XNonce::from_slice(&nonce), plain.as_slice())
        .unwrap();
    assert_eq!(image, encode_file(&nonce, &sealed));
    assert_eq!(image.len(), 82 + 64);
    assert_eq!(image, store.encrypt_with_nonce(&master, &nonce).unwrap());
    assert_ne!(image, store.encrypt_with_nonce(&master, &[0x25u8; 24]).unwrap());
    assert_ne!(image, store.encrypt_with_nonce(&SecretKey([5u8; 32]), &nonce).unwrap());
    let back = KeyStore::decrypt(&master, &image).unwrap();
    assert_eq!(back.to_bytes().unwrap(), plain);
}

#[test]
fn drawn_nonce_stands_in_the_image_and_seals_it() {
    let store = KeyStore::new(IrohSecretKey([3u8; 32]));
    let master = SecretKey([4u8; 32]);
    let image = store.encrypt(&master, &mut ChaCha20Rng::from_seed([5u8; 32])).unwrap();
    let mut nonce = [0u8; 24];
    nonce.copy_from_slice(&image[6..30]);
    assert_ne!(nonce, [0u8; 24]);
    assert_eq!(image, store.encrypt_with_nonce(&master, &nonce).unwrap());
}

#[test]
fn image_length_follows_the_number_of_keys() {
    let mut store = KeyStore::new(IrohSecretKey([3u8; 32]));
    let master = SecretKey([4u8; 32]);
    let mut rng = ChaCha20Rng::from_seed([5u8; 32]);
    assert_eq!(store.encrypt(&master, &mut rng).unwrap().len(), 82);
    for i in 0..5u8 {
        store.add_key(SecretKey([i; 32]));
        assert_eq!(store.encrypt(&master, &mut rng).unwrap().len(), 82 + 64 * (i as usize + 1));
    }
    store.add_key(SecretKey([0u8; 32]));
    assert_eq!(store.encrypt(&master, &mut rng).unwrap().len(), 82 + 64 * 5);
}
