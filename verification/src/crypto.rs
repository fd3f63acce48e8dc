//! Session material for image capture and decryption of captured images.
use aes::cipher::{block_padding::NoPadding, BlockModeDecrypt, KeyIvInit};
use vstd::prelude::*;

use crate::text;

verus! {

pub const D2_MATERIAL_LEN: usize = 32;

pub const AES_KEY_LEN: usize = 16;

pub const AES_BLOCK_LEN: usize = 16;

/// Where the image key starts in the session material.
pub const IMAGE_KEY_OFFSET: usize = 16;

pub const ZERO_IV: [u8; 16] = [0, 0, 0, 0, 0, 0, 0, 0, 0, 0, 0, 0, 0, 0, 0, 0];

/// The error of the operating system's random source.
#[verifier::external_type_specification]
#[verifier::external_body]
pub struct ExRandomError(getrandom::Error);

/// `getrandom::fill` on a buffer of 32 bytes: either the buffer is filled, or an
/// error is returned. The bytes rest on the random source, so nothing is said of
/// them.
#[verifier::external_body]
fn random_material() -> (material: Result<[u8; 32], getrandom::Error>) {
    let mut material = [0u8; 32];
    getrandom::fill(&mut material).map(|()| material)
}

/// The plaintext of AES-128 in CBC mode, without padding.
pub uninterp spec fn aes128_cbc_decrypted(ciphertext: Seq<u8>, key: Seq<u8>, iv: Seq<u8>) -> Seq<
    u8,
>;

/// `cipher::BlockModeDecrypt::decrypt_padded_vec` with `NoPadding` on a
/// `cbc::Decryptor<aes::Aes128>`: it fails exactly when the input is not a whole
/// number of blocks; otherwise the plaintext is as long as the input and a
/// function of ciphertext, key and initialisation vector. What that function is
/// on given values is left unsaid.
#[verifier::external_body]
fn aes128_cbc_decrypt(ciphertext: &[u8], key: &[u8; 16], iv: &[u8; 16]) -> (plaintext: Option<
    Vec<u8>,
>)
    ensures
        plaintext is Some <==> ciphertext@.len() % 16 == 0,
        plaintext is Some ==> plaintext->Some_0@ == aes128_cbc_decrypted(
            ciphertext@,
            key@,
            iv@,
        ) && plaintext->Some_0@.len() == ciphertext@.len(),
{
    cbc::Decryptor::<aes::Aes128>::new_from_slices(key, iv)
        .expect("key and vector have the lengths of AES-128")
        .decrypt_padded_vec::<NoPadding>(ciphertext)
        .ok()
}

/// No session without random material.
#[derive(Debug, Clone, Copy, PartialEq, Eq)]
pub enum SessionMaterialError {
    /// The error of the random source.
    RandomSource(getrandom::Error),
}

/// Material of one capture session: the payload sent to the sensor, whose second
/// half is the image key.
#[derive(Debug, Clone, PartialEq, Eq)]
pub struct ImageSession {
    material: [u8; 32],
}

impl View for ImageSession {
    type V = Seq<u8>;

    closed spec fn view(&self) -> Seq<u8> {
        self.material@
    }
}

impl ImageSession {
    /// A session with the given material.
    pub fn from_material(material: [u8; 32]) -> (session: Self)
        ensures
            session@ == material@,
    {
        ImageSession { material }
    }

    /// The session of what the random source gave.
    pub fn from_random(outcome: Result<[u8; 32], getrandom::Error>) -> (result: Result<
        Self,
        SessionMaterialError,
    >)
        ensures
            match outcome {
                Ok(material) => result is Ok && result->Ok_0@ == material@,
                Err(error) => result == Err::<ImageSession, SessionMaterialError>(
                    SessionMaterialError::RandomSource(error),
                ),
            },
    {
        match outcome {
            Ok(material) => Ok(Self::from_material(material)),
            Err(error) => Err(SessionMaterialError::RandomSource(error)),
        }
    }

    /// A session with fresh random material: `from_random` of what the random
    /// source gave. Which bytes those are, and whether it gave any, is unsaid.
    pub fn generate() -> (result: Result<Self, SessionMaterialError>)
        ensures
            result is Ok ==> result->Ok_0@.len() == D2_MATERIAL_LEN,
    {
        Self::from_random(random_material())
    }

    pub fn d2_payload(&self) -> (payload: &[u8; 32])
        ensures
            payload@ == self@,
    {
        &self.material
    }

    /// The second half of the material.
    pub fn image_key(&self) -> (key: [u8; 16])
        ensures
            key@ == self@.subrange(IMAGE_KEY_OFFSET as int, D2_MATERIAL_LEN as int),
    {
        let mut key: [u8; 16] = [0u8;16];
        for i in 0..16usize
            invariant
                forall|j: int| 0 <= j < i ==> key@[j] == self.material@[j + 16],
        {
            key[i] = self.material[i + IMAGE_KEY_OFFSET];
        }
        assert(key@ =~= self@.subrange(16, 32));
        key
    }
}

#[derive(Debug, Clone, PartialEq, Eq)]
pub enum CryptoError {
    CiphertextNotBlockAligned { length: usize, block_size: usize },
    DecryptionFailed,
}

/// The result of a decryption that gave a plaintext or failed.
pub fn decryption_outcome(plaintext: Option<Vec<u8>>) -> (result: Result<Vec<u8>, CryptoError>)
    ensures
        result == (match plaintext {
            Some(plaintext) => Ok::<Vec<u8>, CryptoError>(plaintext),
            None => Err(CryptoError::DecryptionFailed),
        }),
{
    match plaintext {
        Some(plaintext) => Ok(plaintext),
        None => Err(CryptoError::DecryptionFailed),
    }
}

/// Decrypts an image: AES-128 in CBC mode with a zero initialisation vector and
/// no padding.
pub fn decrypt_image(ciphertext: &[u8], key: &[u8; 16]) -> (result: Result<Vec<u8>, CryptoError>)
    ensures
        ciphertext@.len() % AES_BLOCK_LEN as nat != 0 ==> result == Err::<Vec<u8>, CryptoError>(
            CryptoError::CiphertextNotBlockAligned {
                length: ciphertext@.len() as usize,
                block_size: AES_BLOCK_LEN,
            },
        ),
        ciphertext@.len() % AES_BLOCK_LEN as nat == 0 ==> {
            &&& result is Ok
            &&& result->Ok_0@ == aes128_cbc_decrypted(ciphertext@, key@, ZERO_IV@)
            &&& result->Ok_0@.len() == ciphertext@.len()
        },
{
    if ciphertext.len() % AES_BLOCK_LEN != 0 {
        return Err(
            CryptoError::CiphertextNotBlockAligned {
                length: ciphertext.len(),
                block_size: AES_BLOCK_LEN,
            },
        );
    }
    let iv: [u8; 16] = ZERO_IV;
    decryption_outcome(aes128_cbc_decrypt(ciphertext, key, &iv))
}

impl CryptoError {
    pub open spec fn message_spec(&self) -> Seq<char> {
        match self {
            CryptoError::CiphertextNotBlockAligned { length, block_size } => {
                "AES-CBC ciphertext length "@ + text::decimal(*length as nat)
                    + " is not a multiple of the "@ + text::decimal(*block_size as nat)
                    + "-byte AES block size"@
            },
            CryptoError::DecryptionFailed => "AES-128-CBC image decryption failed"@,
        }
    }

    /// The message of this error.
    pub fn message(&self) -> (text: String)
        ensures
            text@ == self.message_spec(),
    {
        match self {
            CryptoError::CiphertextNotBlockAligned { length, block_size } => {
                let mut out: String = "AES-CBC ciphertext length ".to_owned();
                text::push_decimal(&mut out, *length as u64);
                out.append(" is not a multiple of the ");
                text::push_decimal(&mut out, *block_size as u64);
                out.append("-byte AES block size");
                out
            },
            CryptoError::DecryptionFailed => "AES-128-CBC image decryption failed".to_owned(),
        }
    }
}

} // verus!
