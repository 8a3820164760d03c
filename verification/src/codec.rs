//! The store file: a fixed header, the nonce of this write, and the sealed
//! plaintext of the store with its authentication tag.
//!
//! | offset | size | field                              |
//! |--------|------|------------------------------------|
//! | 0      | 4    | magic, the letters `SDKY`          |
//! | 4      | 2    | format version, big-endian         |
//! | 6      | 24   | nonce                              |
//! | 30     | ..   | ciphertext, then the 16-byte tag   |

use crate::crypto::{aead_open, aead_opened, aead_seal, aead_sealed, fresh_nonce};
use crate::error::StoreError;
use crate::key_store::{
    lemma_plaintext_round_trip, parsed, plaintext_defect, KeyStore, StoreView,
};
use crate::keys::SecretKey;
use rand_chacha::ChaCha20Rng;
use vstd::prelude::*;

verus! {

/// The version of the file format that this library writes and reads.
pub const FORMAT_VERSION: u16 = 1;

/// The largest store file that is written or read: 16 MiB.
pub const MAX_FILE_LEN: usize = 16777216;

/// The shortest store file: the frame and the tag of an empty plaintext.
pub const MIN_FILE_LEN: usize = 46;

/// The four bytes that open every store file.
pub open spec fn magic() -> Seq<u8> {
    seq![0x53u8, 0x44u8, 0x4Bu8, 0x59u8]
}

/// The format version as it stands in the file.
pub open spec fn version_bytes() -> Seq<u8> {
    seq![(FORMAT_VERSION / 0x100) as u8, (FORMAT_VERSION % 0x100) as u8]
}

/// The store file that carries `sealed` and the nonce it was sealed with.
pub open spec fn file_image(nonce: Seq<u8>, sealed: Seq<u8>) -> Seq<u8> {
    magic() + version_bytes() + nonce + sealed
}

/// `bytes` is no store file of this version: too long, too short to hold
/// frame and tag, or with another magic or version.
pub open spec fn file_defect(bytes: Seq<u8>) -> bool {
    ||| bytes.len() > MAX_FILE_LEN
    ||| bytes.len() < MIN_FILE_LEN
    ||| bytes.subrange(0, 4) != magic()
    ||| bytes.subrange(4, 6) != version_bytes()
}

/// The nonce that the store file `bytes` carries.
pub open spec fn nonce_of(bytes: Seq<u8>) -> Seq<u8> {
    bytes.subrange(6, 30)
}

/// The sealed part of the store file `bytes`.
pub open spec fn sealed_of(bytes: Seq<u8>) -> Seq<u8> {
    bytes.subrange(30, bytes.len() as int)
}

/// A store whose file stays within `MAX_FILE_LEN`.
pub open spec fn fits(v: StoreView) -> bool {
    82 + 64 * v.count() <= MAX_FILE_LEN
}

/// What reading the store file `bytes` under `master_key` gives: the store, or
/// the reason why there is none.
pub open spec fn decrypted(master_key: Seq<u8>, bytes: Seq<u8>) -> Result<StoreView, StoreError> {
    if file_defect(bytes) {
        Err(StoreError::FormatInvalid)
    } else {
        match aead_opened(master_key, nonce_of(bytes), sealed_of(bytes)) {
            None => Err(StoreError::AuthFailure),
            Some(plain) => match plaintext_defect(plain) {
                Some(e) => Err(e),
                None => Ok(parsed(plain)),
            },
        }
    }
}

/// A file made of a nonce and a sealed part of admissible length has no
/// defect, and carries that nonce and that sealed part.
pub proof fn lemma_file_round_trip(nonce: Seq<u8>, sealed: Seq<u8>)
    requires
        nonce.len() == 24,
        16 <= sealed.len() <= MAX_FILE_LEN - 30,
    ensures
        !file_defect(file_image(nonce, sealed)),
        nonce_of(file_image(nonce, sealed)) == nonce,
        sealed_of(file_image(nonce, sealed)) == sealed,
{
    let image = file_image(nonce, sealed);
    assert(image.subrange(0, 4) =~= magic());
    assert(image.subrange(4, 6) =~= version_bytes());
    assert(nonce_of(image) =~= nonce);
    assert(sealed_of(image) =~= sealed);
}

/// Where the cipher opens what it sealed, the file of a store that fits
/// reads back as that store, whatever the master key and the nonce.
pub proof fn lemma_sealed_store_loads(master_key: Seq<u8>, nonce: Seq<u8>, v: StoreView)
    requires
        v.valid(),
        fits(v),
        nonce.len() == 24,
        aead_sealed(master_key, nonce, v.plaintext()).len() == v.plaintext().len() + 16,
        aead_opened(master_key, nonce, aead_sealed(master_key, nonce, v.plaintext())) == Some(
            v.plaintext(),
        ),
    ensures
        decrypted(master_key, file_image(nonce, aead_sealed(master_key, nonce, v.plaintext())))
            == Ok::<StoreView, StoreError>(v),
{
    crate::key_store::lemma_valid_listing(v);
    crate::plaintext::lemma_plaintext_reads(v.identity, crate::listing::listing(v.keys));
    lemma_plaintext_round_trip(v);
    lemma_file_round_trip(nonce, aead_sealed(master_key, nonce, v.plaintext()));
}

/// What the cipher recovers from a file that reads as a store is the
/// canonical plaintext of that store: two files of one store differ in their
/// nonce and in what it makes of the sealed part, never in the plaintext.
pub proof fn lemma_decrypted_plaintext_is_canonical(master_key: Seq<u8>, bytes: Seq<u8>)
    requires
        decrypted(master_key, bytes) is Ok,
    ensures
        decrypted(master_key, bytes)->Ok_0.valid(),
        aead_opened(master_key, nonce_of(bytes), sealed_of(bytes)) == Some(
            decrypted(master_key, bytes)->Ok_0.plaintext(),
        ),
{
    let plain = aead_opened(master_key, nonce_of(bytes), sealed_of(bytes))->Some_0;
    crate::key_store::lemma_parsed_plaintext(plain);
}

/// Refuses a file of more than `MAX_FILE_LEN` bytes by its length alone,
/// before any of it is read.
pub fn check_file_len(len: u64) -> (r: Result<(), StoreError>)
    ensures
        r is Ok <==> len <= MAX_FILE_LEN,
        r matches Err(e) ==> e == StoreError::FormatInvalid,
{
    if len > MAX_FILE_LEN as u64 {
        Err(StoreError::FormatInvalid)
    } else {
        Ok(())
    }
}

/// Puts the frame before `sealed`.
pub fn encode_file(nonce: &[u8; 24], sealed: &[u8]) -> (image: Vec<u8>)
    ensures
        image@ == file_image(nonce@, sealed@),
{
    let mut image: Vec<u8> = Vec::new();
    image.push(0x53);
    image.push(0x44);
    image.push(0x4B);
    image.push(0x59);
    image.push((FORMAT_VERSION / 0x100) as u8);
    image.push((FORMAT_VERSION % 0x100) as u8);
    image.extend_from_slice(nonce.as_slice());
    image.extend_from_slice(sealed);
    assert(image@ =~= file_image(nonce@, sealed@));
    image
}

/// Checks the frame of a store file and takes the file apart.
pub fn decode_file(bytes: &[u8]) -> (r: Result<([u8; 24], Vec<u8>), StoreError>)
    ensures
        match r {
            Ok((nonce, sealed)) => !file_defect(bytes@) && nonce@ == nonce_of(bytes@) && sealed@
                == sealed_of(bytes@),
            Err(e) => file_defect(bytes@) && e == StoreError::FormatInvalid,
        },
{
    let total: usize = bytes.len();
    if total > MAX_FILE_LEN || total < MIN_FILE_LEN {
        return Err(StoreError::FormatInvalid);
    }
    if bytes[0] != 0x53 || bytes[1] != 0x44 || bytes[2] != 0x4B || bytes[3] != 0x59 {
        assert(bytes@.subrange(0, 4)[0] == bytes@[0]);
        assert(bytes@.subrange(0, 4)[1] == bytes@[1]);
        assert(bytes@.subrange(0, 4)[2] == bytes@[2]);
        assert(bytes@.subrange(0, 4)[3] == bytes@[3]);
        return Err(StoreError::FormatInvalid);
    }
    if bytes[4] != (FORMAT_VERSION / 0x100) as u8 || bytes[5] != (FORMAT_VERSION % 0x100) as u8 {
        assert(bytes@.subrange(4, 6)[0] == bytes@[4]);
        assert(bytes@.subrange(4, 6)[1] == bytes@[5]);
        return Err(StoreError::FormatInvalid);
    }
    assert(bytes@.subrange(0, 4) =~= magic());
    assert(bytes@.subrange(4, 6) =~= version_bytes());
    let mut nonce = [0u8; 24];
    let mut j: usize = 0;
    while j < 24
        invariant
            j <= 24,
            46 <= total == bytes@.len(),
            forall|k: int| 0 <= k < j ==> nonce@[k] == bytes@[6 + k],
        decreases 24 - j,
    {
        nonce[j] = bytes[6 + j];
        j += 1;
    }
    assert(nonce@ =~= nonce_of(bytes@));
    let mut sealed: Vec<u8> = Vec::new();
    sealed.extend_from_slice(&bytes[30..total]);
    assert(sealed@ =~= sealed_of(bytes@));
    Ok((nonce, sealed))
}

/// Frames what the cipher made of the plaintext, or reports that it refused.
pub fn frame_sealed(nonce: &[u8; 24], outcome: Result<Vec<u8>, chacha20poly1305::Error>) -> (r:
    Result<Vec<u8>, StoreError>)
    ensures
        match outcome {
            Ok(sealed) => r matches Ok(image) && image@ == file_image(nonce@, sealed@),
            Err(_) => r == Err::<Vec<u8>, StoreError>(StoreError::CryptoFailure),
        },
{
    match outcome {
        Ok(sealed) => Ok(encode_file(nonce, sealed.as_slice())),
        Err(_) => Err(StoreError::CryptoFailure),
    }
}

impl KeyStore {
    /// Parses what the cipher recovered from a store file, or reports that
    /// the file did not authenticate.
    pub fn from_opened(outcome: Result<Vec<u8>, chacha20poly1305::Error>) -> (r: Result<
        KeyStore,
        StoreError,
    >)
        ensures
            match outcome {
                Ok(plain) => match r {
                    Ok(store) => plaintext_defect(plain@) is None && store@ == parsed(plain@)
                        && store@.valid(),
                    Err(e) => plaintext_defect(plain@) == Some(e),
                },
                Err(_) => r matches Err(e) && e == StoreError::AuthFailure,
            },
    {
        match outcome {
            Ok(plain) => KeyStore::from_bytes(plain.as_slice()),
            Err(_) => Err(StoreError::AuthFailure),
        }
    }

    /// Makes the store file of this store: its plaintext sealed under
    /// `master_key` with `nonce`. A store whose file would exceed
    /// `MAX_FILE_LEN` is refused, since no such file is read back. Reading the
    /// file under the same master key gives this store.
    ///
    /// A nonce must never serve twice under one master key: `encrypt` draws a
    /// new one for each file and is the way to write a store.
    pub fn encrypt_with_nonce(&self, master_key: &SecretKey, nonce: &[u8; 24]) -> (r: Result<
        Vec<u8>,
        StoreError,
    >)
        ensures
            r is Ok <==> fits(self@),
            r matches Ok(image) ==> image@ == file_image(
                nonce@,
                aead_sealed(master_key@, nonce@, self@.plaintext()),
            ),
            r matches Ok(image) ==> image@.len() == 82 + 64 * self@.count(),
            r matches Ok(image) ==> decrypted(master_key@, image@) == Ok::<StoreView, StoreError>(
                self@,
            ),
            r matches Err(e) ==> e == StoreError::SerializationFailure,
    {
        let plain = match self.to_bytes() {
            Ok(plain) => plain,
            Err(e) => {
                return Err(e);
            },
        };
        proof {
            crate::key_store::lemma_valid_listing(self@);
            crate::plaintext::lemma_plaintext_reads(
                self@.identity,
                crate::listing::listing(self@.keys),
            );
        }
        if plain.len() > MAX_FILE_LEN - MIN_FILE_LEN {
            return Err(StoreError::SerializationFailure);
        }
        let outcome = aead_seal(&master_key.0, nonce, plain.as_slice());
        proof {
            lemma_sealed_store_loads(master_key@, nonce@, self@);
        }
        frame_sealed(nonce, outcome)
    }

    /// Makes the store file of this store, sealed under `master_key` with a
    /// nonce freshly drawn from `rng`. Whatever nonce is drawn, the file is
    /// the one that `encrypt_with_nonce` makes with it.
    pub fn encrypt(&self, master_key: &SecretKey, rng: &mut ChaCha20Rng) -> (r: Result<
        Vec<u8>,
        StoreError,
    >)
        ensures
            r is Ok <==> fits(self@),
            r matches Ok(image) ==> image@ == file_image(
                nonce_of(image@),
                aead_sealed(master_key@, nonce_of(image@), self@.plaintext()),
            ),
            r matches Ok(image) ==> image@.len() == 82 + 64 * self@.count(),
            r matches Ok(image) ==> decrypted(master_key@, image@) == Ok::<StoreView, StoreError>(
                self@,
            ),
            r matches Err(e) ==> e == StoreError::SerializationFailure,
    {
        let nonce = fresh_nonce(rng);
        let r = self.encrypt_with_nonce(master_key, &nonce);
        proof {
            if r is Ok {
                crate::key_store::lemma_valid_listing(self@);
                crate::plaintext::lemma_plaintext_reads(
                    self@.identity,
                    crate::listing::listing(self@.keys),
                );
                lemma_file_round_trip(
                    nonce@,
                    aead_sealed(master_key@, nonce@, self@.plaintext()),
                );
            }
        }
        r
    }

    /// Reads a store file under `master_key`.
    pub fn decrypt(master_key: &SecretKey, bytes: &[u8]) -> (r: Result<KeyStore, StoreError>)
        ensures
            match r {
                Ok(store) => decrypted(master_key@, bytes@) == Ok::<StoreView, StoreError>(store@)
                    && store@.valid(),
                Err(e) => decrypted(master_key@, bytes@) == Err::<StoreView, StoreError>(e),
            },
    {
        let (nonce, sealed) = match decode_file(bytes) {
            Ok(parts) => parts,
            Err(e) => {
                return Err(e);
            },
        };
        let outcome = aead_open(&master_key.0, &nonce, sealed.as_slice());
        KeyStore::from_opened(outcome)
    }
}

} // verus!
