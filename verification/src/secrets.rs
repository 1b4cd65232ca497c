//! Bookkeeping for persistent service and client keys.
//!
//! Keys live as raw bytes in per-name files under a secrets directory:
//! `<dir>/services/<name>` holds a 64-byte v3 onion service key, and
//! `<dir>/clients/<name>` a 32-byte client key. This module owns the paths,
//! the decision logic of the `ensure`/`delete` operations, and the laws that
//! the store obeys; reading and writing the files themselves is I/O that the
//! caller performs.

use vstd::prelude::*;

verus! {


/// An error of the secret store.
#[derive(Debug, PartialEq, Eq)]
pub enum SecretsError {
    /// A file could not be read or written; the payload describes the
    /// failure.
    IO(String),
}

impl SecretsError {
    /// The error rendered as a message.
    pub fn message(&self) -> (r: String)
        ensures
            match self {
                SecretsError::IO(m) => r@ == "i/o error: "@ + m@,
            },
    {
        match self {
            SecretsError::IO(m) => {
                let mut s = String::from_str("i/o error: ");
                s.append(m.as_str());
                s
            },
        }
    }
}

/// The length in bytes of a stored v3 onion service key.
pub const SERVICE_KEY_LEN: usize = 64;

/// The length in bytes of a stored client key.
pub const CLIENT_KEY_LEN: usize = 32;

/// A store of long-lived keys under a secrets directory.
pub struct SecretStore {
    secrets_dir: String,
}

/// The path of a named service key file: `<dir>/services/<name>`.
pub open spec fn spec_service_path(dir: Seq<char>, name: Seq<char>) -> Seq<char> {
    dir + "/services/"@ + name
}

/// The path of a named client key file: `<dir>/clients/<name>`.
pub open spec fn spec_client_path(dir: Seq<char>, name: Seq<char>) -> Seq<char> {
    dir + "/clients/"@ + name
}

impl SecretStore {
    /// The store's secrets directory.
    pub closed spec fn dir(&self) -> Seq<char> {
        self.secrets_dir@
    }

    /// Creates a store rooted at the given secrets directory.
    pub fn new(secrets_dir: &str) -> (r: SecretStore)
        ensures
            r.dir() == secrets_dir@,
    {
        SecretStore { secrets_dir: String::from_str(secrets_dir) }
    }

    /// The store's secrets directory as text.
    pub fn dir_string(&self) -> (r: String)
        ensures
            r@ == self.dir(),
    {
        self.secrets_dir.clone()
    }

    /// The directory that holds service key files: `<dir>/services`.
    pub fn services_dir(&self) -> (r: String)
        ensures
            r@ == self.dir() + "/services"@,
    {
        let mut s = self.secrets_dir.clone();
        s.append("/services");
        s
    }

    /// The directory that holds client key files: `<dir>/clients`.
    pub fn clients_dir(&self) -> (r: String)
        ensures
            r@ == self.dir() + "/clients"@,
    {
        let mut s = self.secrets_dir.clone();
        s.append("/clients");
        s
    }

    /// The path of a named service key file.
    pub fn service_path(&self, name: &str) -> (r: String)
        ensures
            r@ == spec_service_path(self.dir(), name@),
    {
        let mut s = self.secrets_dir.clone();
        s.append("/services/");
        s.append(name);
        s
    }

    /// The path of a named client key file.
    pub fn client_path(&self, name: &str) -> (r: String)
        ensures
            r@ == spec_client_path(self.dir(), name@),
    {
        let mut s = self.secrets_dir.clone();
        s.append("/clients/");
        s.append(name);
        s
    }
}

/// What the caller must do with the key file after an `ensure` decision.
#[derive(Debug, PartialEq, Eq, Structural, Clone, Copy)]
pub enum EnsureAction {
    /// The file already held a key: leave it untouched.
    UseExisting,
    /// The file was absent: write the fresh key with mode `0600`, creating
    /// missing parent directories with mode `0700`.
    WriteFresh,
}

/// Decides what an `ensure` operation returns: the file's current contents
/// when the file exists, else a freshly generated key that must then be
/// written. The returned key always has `key_len` bytes.
pub fn ensure_key_bytes(existing: Option<Vec<u8>>, fresh: Vec<u8>, key_len: usize) -> (r: (
    Vec<u8>,
    EnsureAction,
))
    requires
        fresh@.len() == key_len,
        existing matches Some(c) ==> c@.len() == key_len,
    ensures
        match existing {
            Some(c) => r.0@ == c@ && r.1 == EnsureAction::UseExisting,
            None => r.0@ == fresh@ && r.1 == EnsureAction::WriteFresh,
        },
        r.0@.len() == key_len,
{
    match existing {
        Some(c) => (c, EnsureAction::UseExisting),
        None => (fresh, EnsureAction::WriteFresh),
    }
}

/// Decides what a `delete` operation returns: deleting an existing key file
/// yields `Some(())`, deleting an absent one yields `None`; neither is an
/// error.
pub fn delete_key_decision(exists: bool) -> (r: Option<()>)
    ensures
        r == (if exists { Some(()) } else { None::<()> }),
{
    if exists {
        Some(())
    } else {
        None
    }
}

/// Relies on crypto_box's key generation from operating-system entropy;
/// nothing is promised of the bytes beyond their number.
#[verifier::external_body]
fn generate_client_key() -> (r: Vec<u8>)
    ensures
        r@.len() == CLIENT_KEY_LEN,
{
    crypto_box::SecretKey::generate(&mut rand::rngs::OsRng).to_bytes().to_vec()
}

/// Returns the client key an `ensure` operation yields: the existing one
/// when the file holds it, else a freshly generated X25519-style key that
/// must then be written.
pub fn ensure_client_key(existing: Option<Vec<u8>>) -> (r: (Vec<u8>, EnsureAction))
    requires
        existing matches Some(c) ==> c@.len() == CLIENT_KEY_LEN,
    ensures
        match existing {
            Some(c) => r.0@ == c@ && r.1 == EnsureAction::UseExisting,
            None => r.1 == EnsureAction::WriteFresh,
        },
        r.0@.len() == CLIENT_KEY_LEN,
{
    match existing {
        Some(c) => (c, EnsureAction::UseExisting),
        None => (generate_client_key(), EnsureAction::WriteFresh),
    }
}

/// The store modelled as a map from key names to key bytes.
pub open spec fn store_wf(m: Map<Seq<char>, Seq<u8>>, key_len: nat) -> bool {
    forall|n: Seq<char>| m.dom().contains(n) ==> (#[trigger] m[n]).len() == key_len
}

/// The `ensure` operation on the store model: the stored key when the name
/// is present, else the fresh key, now stored.
pub open spec fn store_ensure(m: Map<Seq<char>, Seq<u8>>, name: Seq<char>, fresh: Seq<u8>) -> (
    Map<Seq<char>, Seq<u8>>,
    Seq<u8>,
) {
    if m.dom().contains(name) {
        (m, m[name])
    } else {
        (m.insert(name, fresh), fresh)
    }
}

/// The `delete` operation on the store model.
pub open spec fn store_delete(m: Map<Seq<char>, Seq<u8>>, name: Seq<char>) -> (
    Map<Seq<char>, Seq<u8>>,
    Option<()>,
) {
    if m.dom().contains(name) {
        (m.remove(name), Some(()))
    } else {
        (m, None)
    }
}

/// Two successive `ensure` operations on one name return byte-identical
/// keys of the full key length, and the second changes nothing.
pub proof fn lemma_ensure_stable(
    m: Map<Seq<char>, Seq<u8>>,
    name: Seq<char>,
    fresh1: Seq<u8>,
    fresh2: Seq<u8>,
    key_len: nat,
)
    requires
        store_wf(m, key_len),
        fresh1.len() == key_len,
        fresh2.len() == key_len,
    ensures
        ({
            let (m1, k1) = store_ensure(m, name, fresh1);
            let (m2, k2) = store_ensure(m1, name, fresh2);
            &&& k2 == k1
            &&& m2 == m1
            &&& k1.len() == key_len
            &&& store_wf(m1, key_len)
        }),
{
    let (m1, k1) = store_ensure(m, name, fresh1);
    assert(m1.dom().contains(name));
}

/// Deleting a name right after ensuring it yields `Some(())`; deleting it
/// again yields `None`. Neither is an error.
pub proof fn lemma_delete_after_ensure(
    m: Map<Seq<char>, Seq<u8>>,
    name: Seq<char>,
    fresh: Seq<u8>,
)
    ensures
        ({
            let (m1, _) = store_ensure(m, name, fresh);
            let (m2, d1) = store_delete(m1, name);
            let (m3, d2) = store_delete(m2, name);
            &&& d1 == Some(())
            &&& d2 == None::<()>
            &&& m3 == m2
        }),
{
    let (m1, _) = store_ensure(m, name, fresh);
    assert(m1.dom().contains(name));
    let (m2, d1) = store_delete(m1, name);
    assert(!m2.dom().contains(name));
}

} // verus!
