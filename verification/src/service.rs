//! The bundle a process works with: one policy index and one secret
//! cipher, built once at startup and shared from there.  Callers that
//! serve concurrent requests put the whole bundle behind a single
//! reader-writer lock: queries under a read lock, mutations under a write
//! lock held for the whole operation.

use vstd::prelude::*;
use crate::cipher::{decrypt_spec, SecretCipher};
use crate::error::CoreError;
use crate::store::PolicyStore;

verus! {

/// The core's components: the policy index and the secret cipher.
pub struct Service {
    pub policy: PolicyStore,
    pub cipher: SecretCipher,
}

impl Service {
    pub open spec fn wf(&self) -> bool {
        self.policy.wf()
    }

    /// A fresh service: an empty policy index and a cipher over the
    /// site-wide key loaded from configuration.
    pub fn new(key: Vec<u8>) -> (s: Self)
        ensures
            s.wf(),
            s.policy.policies@.len() == 0,
            s.policy.assignments@.len() == 0,
            s.cipher.key() == key@,
    {
        Service { policy: PolicyStore::new(), cipher: SecretCipher::new(key) }
    }

    /// Encrypts a secret under the service's key; see
    /// [`SecretCipher::encrypt`].
    pub fn encrypt(&self, data: &[u8]) -> (r: Result<String, CoreError>)
        ensures
            r matches Ok(s) ==> decrypt_spec(s@, self.cipher.key()) == Ok::<Seq<u8>, CoreError>(
                data@,
            ),
            r matches Err(e) ==> e == CoreError::EncryptionFailure,
    {
        self.cipher.encrypt(data)
    }

    /// Decrypts a stored secret under the service's key; see
    /// [`SecretCipher::decrypt`].
    pub fn decrypt(&self, input: &str) -> (r: Result<Vec<u8>, CoreError>)
        ensures
            match r {
                Ok(p) => decrypt_spec(input@, self.cipher.key()) == Ok::<Seq<u8>, CoreError>(p@),
                Err(e) => decrypt_spec(input@, self.cipher.key()) == Err::<Seq<u8>, CoreError>(e),
            },
    {
        self.cipher.decrypt(input)
    }
}

} // verus!
