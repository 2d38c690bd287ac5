use vstd::prelude::*;

use aes::cipher::generic_array::GenericArray;
use aes::cipher::{BlockDecrypt, BlockEncrypt, KeyInit};
use aes::Aes128;

verus! {

/// The length of a key, and of a block, of AES-128.
pub const BLOCK_LEN: usize = 16;

/// AES-128 encryption of one 16-byte block under a 16-byte key.
pub uninterp spec fn aes128_encrypt(key: Seq<u8>, block: Seq<u8>) -> Seq<u8>;

/// AES-128 decryption of one 16-byte block under a 16-byte key.
pub uninterp spec fn aes128_decrypt(key: Seq<u8>, block: Seq<u8>) -> Seq<u8>;

/// The 16 bytes that PBKDF2 with HMAC-SHA-256 derives from a password, a salt
/// and a number of rounds.
pub uninterp spec fn pbkdf2_sha256_16(password: Seq<u8>, salt: Seq<u8>, rounds: u32) -> Seq<u8>;

/// Relies on `aes::Aes128` (`KeyInit::new`, `BlockEncrypt::encrypt_block`):
/// the block encrypted under the key. AES is a permutation of blocks, so
/// decrypting the result under the same key gives the block back.
#[verifier::external_body]
pub(crate) fn encrypt_block(key: &[u8; 16], block: &[u8]) -> (r: Vec<u8>)
    requires
        block@.len() == BLOCK_LEN,
    ensures
        r@ == aes128_encrypt(key@, block@),
        r@.len() == BLOCK_LEN,
        aes128_decrypt(key@, r@) == block@,
{
    let cipher = Aes128::new(&GenericArray::from(*key));
    let mut b = GenericArray::clone_from_slice(block);
    cipher.encrypt_block(&mut b);
    b.to_vec()
}

/// Relies on `aes::Aes128` (`KeyInit::new`, `BlockDecrypt::decrypt_block`):
/// the block decrypted under the key.
#[verifier::external_body]
pub(crate) fn decrypt_block(key: &[u8; 16], block: &[u8]) -> (r: Vec<u8>)
    requires
        block@.len() == BLOCK_LEN,
    ensures
        r@ == aes128_decrypt(key@, block@),
        r@.len() == BLOCK_LEN,
{
    let cipher = Aes128::new(&GenericArray::from(*key));
    let mut b = GenericArray::clone_from_slice(block);
    cipher.decrypt_block(&mut b);
    b.to_vec()
}

/// Relies on `pbkdf2::pbkdf2_hmac_array::<sha2::Sha256, 16>`: a 16-byte key,
/// a function of the password, the salt and the rounds alone.
#[verifier::external_body]
pub(crate) fn pbkdf2_key(password: &[u8], salt: &[u8], rounds: u32) -> (r: [u8; 16])
    ensures
        r@ == pbkdf2_sha256_16(password@, salt@, rounds),
{
    pbkdf2::pbkdf2_hmac_array::<sha2::Sha256, 16>(password, salt, rounds)
}

} // verus!
