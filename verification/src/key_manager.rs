//! The key manager: one store bound to its file in a data directory and to
//! the master key that seals it.
//!
//! The manager touches no disk. Every operation that changes the store hands
//! out the complete image of the file that mirrors the new state. The caller
//! replaces the file with that image and reports how it went, and only then is
//! the new state taken on: what the manager holds in memory is at all times
//! what the last replaced file holds.

use crate::codec::{decrypted, file_image, fits, nonce_of};
use crate::crypto::{aead_sealed, public_key_of};
use crate::error::StoreError;
use crate::key_store::{KeyStore, StoreView};
use crate::keys::{IrohSecretKey, KeyHash, NodeId, SecretKey};
use rand_chacha::ChaCha20Rng;
use vstd::prelude::*;

verus! {

/// The name of the store file within the data directory.
pub const KEY_FILE_NAME: &'static str = "space.keys";

/// What is put behind the name of the store file to name the temporary file
/// that a write goes to before it is renamed.
pub const TEMP_SUFFIX: &'static str = ".tmp";

/// The path of the store file in the directory `dir`: the directory and the
/// file name, with one separator between them where the directory does not
/// end in one.
pub open spec fn keys_file_path_of(dir: Seq<char>) -> Seq<char> {
    if dir.len() == 0 || dir.last() == '/' {
        dir + KEY_FILE_NAME@
    } else {
        dir + seq!['/'] + KEY_FILE_NAME@
    }
}

/// The path of the temporary file that belongs to the store file `path`.
pub open spec fn temp_file_path_of(path: Seq<char>) -> Seq<char> {
    path + TEMP_SUFFIX@
}

/// The diagnostic rendering of a manager whose store file is `path`: the path
/// and nothing else of what the manager holds.
pub open spec fn debug_text_of(path: Seq<char>) -> Seq<char> {
    "KeyManager { master_key: \"[REDACTED]\", keys_file_path: \""@ + path
        + "\", store: \"[REDACTED]\" }"@
}

/// Computes the path of the store file in `data_directory`.
pub fn keys_file_path(data_directory: &str) -> (path: String)
    ensures
        path@ == keys_file_path_of(data_directory@),
{
    let n: usize = data_directory.unicode_len();
    let mut path = String::from_str(data_directory);
    if n > 0 && data_directory.get_char(n - 1) != '/' {
        proof {
            reveal_strlit("/");
        }
        path.append("/");
        assert(path@ =~= data_directory@ + seq!['/']);
    }
    path.append(KEY_FILE_NAME);
    path
}

/// Computes the path of the temporary file that belongs to the store file
/// `path`.
pub fn temp_file_path(path: &str) -> (temp: String)
    ensures
        temp@ == temp_file_path_of(path@),
{
    let mut temp = String::from_str(path);
    temp.append(TEMP_SUFFIX);
    temp
}

/// What came of reading the store file.
pub enum FileRead {
    /// There is no file at the path.
    Missing,
    /// The file is there and could not be read.
    Failed { cause: String },
    /// The whole content of the file.
    Contents(Vec<u8>),
}

/// What a key manager is.
pub struct ManagerView {
    pub master_key: Seq<u8>,
    pub keys_file_path: Seq<char>,
    pub store: StoreView,
}

/// A store bound to its file and its master key.
pub struct KeyManager {
    master_key: SecretKey,
    keys_file_path: String,
    store: KeyStore,
}

/// A change of the store that waits for its file: the state to take on, and
/// the image of the file that mirrors it.
pub struct Update {
    store: KeyStore,
    image: Vec<u8>,
}

impl View for KeyManager {
    type V = ManagerView;

    closed spec fn view(&self) -> ManagerView {
        ManagerView {
            master_key: self.master_key@,
            keys_file_path: self.keys_file_path@,
            store: self.store@,
        }
    }
}

impl Update {
    /// The state that the manager takes on once the file is replaced.
    pub closed spec fn store(&self) -> StoreView {
        self.store@
    }

    /// The image of the file to write.
    pub closed spec fn image_bytes(&self) -> Seq<u8> {
        self.image@
    }

    /// The image of the file to write.
    pub fn image(&self) -> (bytes: &Vec<u8>)
        ensures
            bytes@ == self.image_bytes(),
    {
        &self.image
    }
}

impl KeyManager {
    /// Creates the manager of a new store in `data_directory`, holding
    /// `iroh_secret_key` and no key, together with the image of its file.
    /// Whatever nonce `rng` gives, loading that image under the same master
    /// key gives the same store.
    pub fn new(
        master_key: SecretKey,
        iroh_secret_key: IrohSecretKey,
        data_directory: &str,
        rng: &mut ChaCha20Rng,
    ) -> (r: Result<(KeyManager, Vec<u8>), StoreError>)
        ensures
            r matches Ok((manager, image)) && manager@ == (ManagerView {
                master_key: master_key@,
                keys_file_path: keys_file_path_of(data_directory@),
                store: StoreView::empty(iroh_secret_key@),
            }) && image@ == file_image(
                nonce_of(image@),
                aead_sealed(master_key@, nonce_of(image@), manager@.store.plaintext()),
            ) && image@.len() == 82 && decrypted(master_key@, image@) == Ok::<
                StoreView,
                StoreError,
            >(manager@.store),
    {
        let store = KeyStore::new(iroh_secret_key);
        proof {
            crate::listing::lemma_empty();
            crate::listing::lemma_listing(Seq::empty());
        }
        match store.encrypt(&master_key, rng) {
            Ok(image) => Ok(
                (KeyManager { master_key, keys_file_path: keys_file_path(data_directory), store }, image),
            ),
            Err(e) => Err(e),
        }
    }

    /// Makes the manager of the store that the file in `data_directory`
    /// holds, from what came of reading that file.
    pub fn load(master_key: SecretKey, data_directory: &str, file: FileRead) -> (r: Result<
        KeyManager,
        StoreError,
    >)
        ensures
            match file {
                FileRead::Missing => r matches Err(e) && e == StoreError::FileMissing,
                FileRead::Failed { cause } => r matches Err(StoreError::IoFailure { path, cause: c })
                    && path@ == keys_file_path_of(data_directory@) && c@ == cause@,
                FileRead::Contents(bytes) => match r {
                    Ok(manager) => manager@ == (ManagerView {
                        master_key: master_key@,
                        keys_file_path: keys_file_path_of(data_directory@),
                        store: manager@.store,
                    }) && decrypted(master_key@, bytes@) == Ok::<StoreView, StoreError>(
                        manager@.store,
                    ) && manager@.store.valid(),
                    Err(e) => decrypted(master_key@, bytes@) == Err::<StoreView, StoreError>(e),
                },
            },
    {
        let keys_file_path = keys_file_path(data_directory);
        match file {
            FileRead::Missing => Err(StoreError::FileMissing),
            FileRead::Failed { cause } => Err(StoreError::IoFailure { path: keys_file_path, cause }),
            FileRead::Contents(bytes) => match KeyStore::decrypt(&master_key, bytes.as_slice()) {
                Ok(store) => Ok(KeyManager { master_key, keys_file_path, store }),
                Err(e) => Err(e),
            },
        }
    }

    /// The identity secret of the store.
    pub fn iroh_secret_key(&self) -> (secret: IrohSecretKey)
        ensures
            secret@ == self@.store.identity,
    {
        self.store.iroh_secret_key()
    }

    /// The public identifier that belongs to the identity secret.
    pub fn node_id(&self) -> (id: NodeId)
        ensures
            id@ == public_key_of(self@.store.identity),
    {
        self.store.node_id()
    }

    /// Looks up the key filed under `hash`.
    pub fn get_key(&self, hash: &KeyHash) -> (found: Option<SecretKey>)
        ensures
            match found {
                Some(key) => self@.store.keys.contains_key(hash@) && self@.store.keys[hash@]
                    == key@,
                None => !self@.store.keys.contains_key(hash@),
            },
    {
        self.store.get_key(hash)
    }

    /// The path of the store file.
    pub fn keys_file_path(&self) -> (path: &str)
        ensures
            path@ == self@.keys_file_path,
    {
        self.keys_file_path.as_str()
    }

    /// Prepares the addition of `key`: the store with the key filed under its
    /// hash, and the image of the file that mirrors it. The manager itself
    /// stays as it is until `finish` is told that the file was replaced.
    /// A store too large for its file is refused.
    pub fn add_key(&self, key: SecretKey, rng: &mut ChaCha20Rng) -> (r: Result<Update, StoreError>)
        ensures
            r is Ok <==> fits(self@.store.add_key(key@)),
            r matches Ok(update) ==> update.store() == self@.store.add_key(key@)
                && update.image_bytes() == file_image(
                nonce_of(update.image_bytes()),
                aead_sealed(
                    self@.master_key,
                    nonce_of(update.image_bytes()),
                    update.store().plaintext(),
                ),
            ) && update.image_bytes().len() == 82 + 64 * update.store().count() && decrypted(
                self@.master_key,
                update.image_bytes(),
            ) == Ok::<StoreView, StoreError>(update.store()),
            r matches Err(e) ==> e == StoreError::SerializationFailure,
    {
        let mut store = self.store.snapshot();
        store.add_key(key);
        match store.encrypt(&self.master_key, rng) {
            Ok(image) => Ok(Update { store, image }),
            Err(e) => Err(e),
        }
    }

    /// Settles a prepared change. Where the file was replaced, the manager
    /// takes on the new state. Where it was not, the manager keeps the state
    /// that the file on disk still holds, and the failure is reported with
    /// the path of the file.
    pub fn finish(&mut self, update: Update, replaced: Result<(), String>) -> (r: Result<
        (),
        StoreError,
    >)
        ensures
            final(self)@.master_key == old(self)@.master_key,
            final(self)@.keys_file_path == old(self)@.keys_file_path,
            match replaced {
                Ok(_) => r is Ok && final(self)@.store == update.store(),
                Err(cause) => final(self)@.store == old(self)@.store && (r matches Err(
                    StoreError::IoFailure { path, cause: c },
                ) && path@ == old(self)@.keys_file_path && c@ == cause@),
            },
    {
        match replaced {
            Ok(_) => {
                self.store = update.store;
                Ok(())
            },
            Err(cause) => Err(
                StoreError::IoFailure { path: self.keys_file_path.clone(), cause },
            ),
        }
    }

    /// The diagnostic rendering of the manager. It names the store file and
    /// shows nothing of the master key or of the store.
    pub fn debug_text(&self) -> (text: String)
        ensures
            text@ == debug_text_of(self@.keys_file_path),
    {
        let mut text = String::from_str("KeyManager { master_key: \"[REDACTED]\", keys_file_path: \"");
        text.append(self.keys_file_path.as_str());
        text.append("\", store: \"[REDACTED]\" }");
        text
    }
}

} // verus!
