//! The secret-protection layer: authenticated symmetric encryption of byte
//! strings under one process-wide key, stored as hex text.
//!
//! The cipher itself is the outside crate `simple_crypt` (AES-256-GCM-SIV
//! keyed through Argon2); the hex framing around it and the error mapping
//! are verified here.  Decryption is a pure function of ciphertext and key,
//! named `decrypt_of`; encryption draws a fresh salt and nonce, so all that
//! is stated of its result is that it decrypts back to the plaintext.

use vstd::prelude::*;
use crate::error::CoreError;
use crate::hex::{bytes_of_hex, from_hex, hex_of, lemma_hex_roundtrip, to_hex, valid_hex};

verus! {

/// What `simple_crypt::decrypt` returns for a ciphertext and a key:
/// `Some(plaintext)` when the ciphertext verifies under the key, `None`
/// when decoding or authentication fails.
pub uninterp spec fn decrypt_of(ciphertext: Seq<u8>, key: Seq<u8>) -> Option<Seq<u8>>;

/// Relies on `simple_crypt::encrypt`: the returned ciphertext embeds the
/// salt and nonce it drew, so `simple_crypt::decrypt` with the same key
/// recovers exactly the plaintext.
#[verifier::external_body]
fn seal(data: &[u8], key: &[u8]) -> (r: Option<Vec<u8>>)
    ensures
        r matches Some(c) ==> decrypt_of(c@, key@) == Some(data@),
{
    simple_crypt::encrypt(data, key).ok()
}

/// Relies on `simple_crypt::decrypt`: deserializes the ciphertext, rederives
/// the key from the embedded salt and decrypts; a pure function of its two
/// arguments, failing exactly when `decrypt_of` is `None`.
#[verifier::external_body]
fn unseal(data: &[u8], key: &[u8]) -> (r: Option<Vec<u8>>)
    ensures
        r matches Some(p) ==> decrypt_of(data@, key@) == Some(p@),
        r is None ==> decrypt_of(data@, key@) is None,
{
    simple_crypt::decrypt(data, key).ok()
}

/// What decrypting a hex text under a key yields: the hex error on invalid
/// hex, the plaintext when the decoded ciphertext verifies under the key,
/// and an authentication failure otherwise.
pub open spec fn decrypt_spec(input: Seq<char>, key: Seq<u8>) -> Result<Seq<u8>, CoreError> {
    if !valid_hex(input) {
        Err(CoreError::DecodingError)
    } else {
        match decrypt_of(bytes_of_hex(input), key) {
            Some(p) => Ok(p),
            None => Err(CoreError::AuthenticationFailure),
        }
    }
}

/// Symmetric encryption under one immutable process-wide key.
pub struct SecretCipher {
    key: Vec<u8>,
}

impl SecretCipher {
    /// The key every call of this cipher uses.
    pub closed spec fn key(&self) -> Seq<u8> {
        self.key@
    }

    /// A cipher over the given site-wide key.
    pub fn new(key: Vec<u8>) -> (c: Self)
        ensures
            c.key() == key@,
    {
        SecretCipher { key }
    }

    /// Encrypts a byte string; the resulting hex text decrypts back to
    /// exactly the plaintext under the same key.
    pub fn encrypt(&self, data: &[u8]) -> (r: Result<String, CoreError>)
        ensures
            r matches Ok(s) ==> decrypt_spec(s@, self.key()) == Ok::<Seq<u8>, CoreError>(data@),
            r matches Err(e) ==> e == CoreError::EncryptionFailure,
    {
        match seal(data, self.key.as_slice()) {
            Some(c) => {
                proof {
                    lemma_hex_roundtrip(c@);
                }
                Ok(to_hex(c.as_slice()))
            },
            None => Err(CoreError::EncryptionFailure),
        }
    }

    /// Decrypts a hex text: fails with `DecodingError` on text that is not
    /// valid hex and with `AuthenticationFailure` on ciphertext that does
    /// not verify under this cipher's key.
    pub fn decrypt(&self, input: &str) -> (r: Result<Vec<u8>, CoreError>)
        ensures
            match r {
                Ok(p) => decrypt_spec(input@, self.key()) == Ok::<Seq<u8>, CoreError>(p@),
                Err(e) => decrypt_spec(input@, self.key()) == Err::<Seq<u8>, CoreError>(e),
            },
    {
        let bytes = match from_hex(input) {
            Ok(b) => b,
            Err(e) => {
                return Err(e);
            },
        };
        match unseal(bytes.as_slice(), self.key.as_slice()) {
            Some(p) => Ok(p),
            None => Err(CoreError::AuthenticationFailure),
        }
    }
}

} // verus!
