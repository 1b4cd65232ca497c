//! Secret-key storage behind a narrow interface, for keys kept in an
//! OS-level secret service rather than in plain files.
//!
//! A stored key is the standard base64 encoding of its 64 raw bytes. This
//! module owns the decision logic: what a lookup result means, and what to
//! write back when the key does not exist yet. The secret-service calls
//! themselves are I/O that an implementation of [`SecretKeyStore`] performs.

use vstd::prelude::*;

use base64::Engine;

verus! {

use crate::secrets::SERVICE_KEY_LEN;

/// An error of the key storage.
#[derive(Debug)]
pub enum SecretsError {
    /// The secret service failed; the payload describes the failure.
    Keyring(String),
    /// A stored value was not the base64 encoding of a 64-byte key.
    Decode(String),
}

impl SecretsError {
    /// The error rendered as a message.
    pub fn message(&self) -> (r: String)
        ensures
            match self {
                SecretsError::Keyring(m) => r@ == "secret storage error: "@ + m@,
                SecretsError::Decode(m) => r@ == "decode error: "@ + m@,
            },
    {
        match self {
            SecretsError::Keyring(m) => {
                let mut s = String::from_str("secret storage error: ");
                s.append(m.as_str());
                s
            },
            SecretsError::Decode(m) => {
                let mut s = String::from_str("decode error: ");
                s.append(m.as_str());
                s
            },
        }
    }
}

/// A store of 64-byte service keys by pet name. Implementations perform the
/// lookups and writes; `ensure_key` returns the named key, creating it when
/// absent, and `destroy_key` removes it.
pub trait SecretKeyStore {
    fn ensure_key(&self, petname: &str) -> Result<Vec<u8>, SecretsError>;

    fn destroy_key(&self, petname: &str) -> Result<(), SecretsError>;
}

/// Key storage over some concrete [`SecretKeyStore`].
pub struct SecretKeyStorage<S: SecretKeyStore> {
    store: S,
}

impl<S: SecretKeyStore> SecretKeyStorage<S> {
    /// Wraps a concrete store.
    pub fn new(store: S) -> SecretKeyStorage<S> {
        SecretKeyStorage { store }
    }

    /// Returns the key of the given pet name, creating it when absent.
    pub fn ensure_key(&self, petname: &str) -> Result<Vec<u8>, SecretsError> {
        self.store.ensure_key(petname)
    }

    /// Removes the key of the given pet name.
    pub fn destroy_key(&self, petname: &str) -> Result<(), SecretsError> {
        self.store.destroy_key(petname)
    }
}

/// The standard base64 encoding (with padding) of a byte sequence.
pub uninterp spec fn base64_of(b: Seq<u8>) -> Seq<char>;

/// What standard base64 decoding returns for a character sequence: the
/// decoded bytes, or none when the input is not valid base64.
pub uninterp spec fn base64_decoded(s: Seq<char>) -> Option<Seq<u8>>;

/// Relies on base64's standard, padded alphabet: encoding is a function of
/// the input bytes alone.
#[verifier::external_body]
pub(crate) fn base64_encode(b: &[u8]) -> (r: String)
    ensures
        r@ == base64_of(b@),
{
    base64::engine::general_purpose::STANDARD.encode(b)
}

/// Relies on base64's standard, padded alphabet: decoding is a function of
/// the input characters alone, fails exactly on inputs that are not valid
/// base64, and inverts encoding — decoding an encoded value returns the
/// bytes it encodes.
#[verifier::external_body]
fn base64_decode(s: &str) -> (r: Option<Vec<u8>>)
    ensures
        r matches Some(v) ==> base64_decoded(s@) == Some(v@),
        r is None <==> base64_decoded(s@) is None,
        r is None ==> (forall|b: Seq<u8>| s@ != base64_of(b)),
        r matches Some(v) ==> (forall|b: Seq<u8>| s@ == base64_of(b) ==> v@ == b),
{
    match base64::engine::general_purpose::STANDARD.decode(s) {
        Ok(v) => Some(v),
        Err(_) => None,
    }
}

/// What a key store writes back after `ensure_key`: nothing, or a fresh
/// key's encoding under the pet name.
#[derive(Debug, PartialEq, Eq)]
pub enum StoreWrite {
    Nothing,
    SetPassword(String),
}

/// Decides what `ensure_key` returns from a lookup's outcome: a stored
/// value must decode to exactly 64 key bytes, and an absent entry yields
/// the fresh key, whose encoding must then be stored under the pet name.
pub fn resolve_stored_key(stored: Option<&String>, fresh: Vec<u8>) -> (r: Result<
    (Vec<u8>, StoreWrite),
    SecretsError,
>)
    requires
        fresh@.len() == SERVICE_KEY_LEN,
    ensures
        match stored {
            Some(s) => {
                match base64_decoded(s@) {
                    Some(b) => {
                        if b.len() == SERVICE_KEY_LEN {
                            r matches Ok(p) && p.0@ == b && p.1 == StoreWrite::Nothing
                        } else {
                            r is Err
                        }
                    },
                    None => r is Err,
                }
            },
            None => r matches Ok(p) && p.0@ == fresh@ && (p.1 matches StoreWrite::SetPassword(e)
                && e@ == base64_of(fresh@)),
        },
        r matches Ok(p) ==> p.0@.len() == SERVICE_KEY_LEN,
{
    match stored {
        Some(s) => {
            match base64_decode(s.as_str()) {
                Some(b) => {
                    if b.len() == SERVICE_KEY_LEN {
                        Ok((b, StoreWrite::Nothing))
                    } else {
                        Err(SecretsError::Decode(String::from_str("stored key has wrong length")))
                    }
                },
                None => Err(SecretsError::Decode(String::from_str("stored key is not base64"))),
            }
        },
        None => {
            let encoded = base64_encode(fresh.as_slice());
            Ok((fresh, StoreWrite::SetPassword(encoded)))
        },
    }
}

} // verus!
