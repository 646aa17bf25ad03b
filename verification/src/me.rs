//! The identity record: a username with a signing key pair whose private
//! key is encrypted at rest under a password-derived key, and the verb
//! operations an unlocked identity performs against a store.
//!
//! Lifecycle: `create` makes and persists a new record, `load` unlocks a
//! persisted one, `change_password` re-encrypts the same raw key under a
//! new password. The context id is derived from the raw key alone, so it
//! survives a password change and is identical across processes.

use vstd::prelude::*;
use vstd::string::StringSliceAdditionalSpecFns;
use vstd::utf8::encode_utf8;
use crate::crypto::{
    decrypt_string, encrypt_string, random_bytes, sha256, sha256_of, spec_decrypt,
};
use crate::encoding::{b64_decode, b64_decode_of, b64_encode, b64_of};
use crate::errors::MeError;
use crate::model::{Entry, EntryView, GetFilter, Verb};
use crate::query::spec_get;
use crate::store::{IdentityView, MeStore};
use crate::validate::{password_valid, username_valid, validate_password, validate_username};

verus! {

/// The 32-byte symmetric key derived from a username and password.
pub open spec fn derive_key_of(u: Seq<char>, p: Seq<char>) -> Seq<u8> {
    sha256_of(encode_utf8(u) + encode_utf8(p))
}

/// The hash string under which the private key is encrypted: the derived
/// key, as base64 text.
pub open spec fn hash_string_of(u: Seq<char>, p: Seq<char>) -> Seq<char> {
    b64_of(derive_key_of(u, p))
}

/// The context id of raw key material: the base64 text of its SHA-256
/// digest. Identical key material always yields the identical context id.
pub open spec fn context_of(raw: Seq<char>) -> Seq<char> {
    b64_of(sha256_of(encode_utf8(raw)))
}

/// What unlocking a stored encrypted private key under a username and
/// password yields: the raw key text, or `None` when the text is not
/// base64 or does not authenticate under the derived key.
pub open spec fn spec_unlock(epk: Seq<char>, u: Seq<char>, p: Seq<char>) -> Option<Seq<char>> {
    match b64_decode_of(epk) {
        Some(blob) => spec_decrypt(hash_string_of(u, p), blob),
        None => None,
    }
}

/// The 32-byte Ed25519 verification key a 32-byte seed expands to.
pub uninterp spec fn ed25519_public_of(seed: Seq<u8>) -> Seq<u8>;

/// Relies on ed25519_dalek: `SigningKey::from_bytes` deterministically
/// expands a 32-byte seed into a signing key, and `verifying_key().to_bytes()`
/// is its 32-byte verification key.
#[verifier::external_body]
fn ed25519_public_key(seed: &[u8]) -> (r: Vec<u8>)
    requires
        seed@.len() == 32,
    ensures
        r@ == ed25519_public_of(seed@),
        r@.len() == 32,
{
    let mut s = [0u8; 32];
    s.copy_from_slice(seed);
    ed25519_dalek::SigningKey::from_bytes(&s).verifying_key().to_bytes().to_vec()
}

/// Relies on chrono::Utc::now and to_rfc3339: the moment of the call as
/// ISO-8601 text. The clock decides the value, so nothing is stated of it.
#[verifier::external_body]
pub fn now_rfc3339() -> String {
    chrono::Utc::now().to_rfc3339()
}

/// An unlocked identity: the raw signing key is held in memory for the
/// lifetime of this value and exists nowhere else in decrypted form.
pub struct Me {
    pub username: String,
    pub public_key: String,
    pub context_id: String,
    pub private_key_raw: String,
}

impl Me {
    /// The raw key text this identity holds in memory.
    pub open spec fn raw(&self) -> Seq<char> {
        self.private_key_raw@
    }

    /// The context id is exactly the one the raw key derives.
    pub open spec fn wf(&self) -> bool {
        self.context_id@ == context_of(self.raw())
    }

    /// Derives the symmetric key from a username and password: the SHA-256
    /// digest of the username's bytes followed by the password's bytes.
    pub fn derive_key(username: &str, password: &str) -> (r: Vec<u8>)
        ensures
            r@ == derive_key_of(username@, password@),
            r@.len() == 32,
    {
        let mut data: Vec<u8> = Vec::new();
        data.extend_from_slice(username.as_bytes());
        data.extend_from_slice(password.as_bytes());
        proof {
            assert(data@ =~= encode_utf8(username@) + encode_utf8(password@));
        }
        sha256(data.as_slice())
    }

    /// Derives the context id from raw key material: deterministic and
    /// one-way, so entries can be scoped without exposing the username.
    pub fn derive_context(private_key_raw: &str) -> (r: String)
        ensures
            r@ == context_of(private_key_raw@),
    {
        let digest = sha256(private_key_raw.as_bytes());
        b64_encode(digest.as_slice())
    }

    /// Deriving a context is deterministic: the same key material always
    /// yields the same context id, in every process and on every machine.
    pub proof fn lemma_derive_context_deterministic(k1: Seq<char>, k2: Seq<char>)
        requires
            k1 == k2,
        ensures
            context_of(k1) == context_of(k2),
    {
    }

    /// Rotating the password never changes the context id: the context
    /// depends on the raw key alone, not on the password.
    pub proof fn lemma_context_survives_password_change(
        raw: Seq<char>,
        u: Seq<char>,
        p1: Seq<char>,
        p2: Seq<char>,
        epk1: Seq<char>,
        epk2: Seq<char>,
    )
        requires
            spec_unlock(epk1, u, p1) == Some(raw),
            spec_unlock(epk2, u, p2) == Some(raw),
        ensures
            context_of(spec_unlock(epk1, u, p1)->Some_0) == context_of(
                spec_unlock(epk2, u, p2)->Some_0,
            ),
    {
    }

    /// Assembles an unlocked identity from its parts, deriving the context
    /// id from the raw key.
    pub fn with_keys(username: &str, public_key: &str, private_key_raw: &str) -> (r: Me)
        ensures
            r.wf(),
            r.username@ == username@,
            r.public_key@ == public_key@,
            r.raw() == private_key_raw@,
    {
        let context_id = Self::derive_context(private_key_raw);
        Me {
            username: username.to_owned(),
            public_key: public_key.to_owned(),
            context_id,
            private_key_raw: private_key_raw.to_owned(),
        }
    }

    /// Creates a new identity: validates the username and password before
    /// any key generation or storage access, generates a key pair, encrypts
    /// the raw private key under the password-derived key, persists the
    /// record, and returns the unlocked identity. The persisted record
    /// unlocks back to exactly the raw key this identity holds.
    pub fn create<S: MeStore>(store: &mut S, username: &str, password: &str) -> (r: Result<
        Me,
        MeError,
    >)
        ensures
            match r {
                Ok(me) => ({
                    &&& username_valid(username@) && password_valid(password)
                    &&& me.wf() && me.username@ == username@
                    &&& !old(store).identities().dom().contains(username@)
                    &&& final(store).identities().dom().contains(username@)
                    &&& ({
                        let rec = final(store).identities()[username@];
                        &&& final(store).identities() == old(store).identities().insert(
                            username@,
                            rec,
                        )
                        &&& rec.public_key == me.public_key@
                        &&& spec_unlock(rec.encrypted_private_key, username@, password@)
                            == Some(me.raw())
                    })
                    &&& final(store).ledger() == old(store).ledger()
                }),
                Err(e) => match e {
                    MeError::Validation => ({
                        &&& !(username_valid(username@) && password_valid(password))
                        &&& final(store).identities() == old(store).identities()
                        &&& final(store).ledger() == old(store).ledger()
                    }),
                    MeError::AlreadyExists => ({
                        &&& old(store).identities().dom().contains(username@)
                        &&& final(store).identities() == old(store).identities()
                        &&& final(store).ledger() == old(store).ledger()
                    }),
                    MeError::EncryptionFailed => ({
                        &&& final(store).identities() == old(store).identities()
                        &&& final(store).ledger() == old(store).ledger()
                    }),
                    MeError::StoreConnectivity => ({
                        &&& final(store).identities() == old(store).identities()
                        &&& final(store).ledger() == old(store).ledger()
                    }),
                    _ => false,
                },
            },
            !(username_valid(username@) && password_valid(password)) ==> r matches Err(
                MeError::Validation,
            ),
            r matches Ok(me) ==> (exists|seed: Seq<u8>|
                {
                    &&& seed.len() == 32
                    &&& me.public_key@ == b64_of(#[trigger] ed25519_public_of(seed))
                    &&& me.raw() == b64_of(seed)
                }),
    {
        if !validate_username(username) {
            return Err(MeError::Validation);
        }
        if !validate_password(password) {
            return Err(MeError::Validation);
        }
        let seed = match random_bytes(32) {
            Ok(s) => s,
            Err(_) => {
                return Err(MeError::EncryptionFailed);
            },
        };
        let pk = ed25519_public_key(seed.as_slice());
        let public_key = b64_encode(pk.as_slice());
        let private_key_raw = b64_encode(seed.as_slice());
        let key = Self::derive_key(username, password);
        let encoded_key = b64_encode(key.as_slice());
        let blob = match encrypt_string(encoded_key.as_str(), private_key_raw.as_str()) {
            Ok(b) => b,
            Err(_) => {
                return Err(MeError::EncryptionFailed);
            },
        };
        let epk = b64_encode(blob.as_slice());
        let created_at = now_rfc3339();
        match store.create_identity(username, public_key.as_str(), epk.as_str(),
            created_at.as_str(),
        ) {
            Ok(()) => {
                let me = Self::with_keys(username, public_key.as_str(), private_key_raw.as_str());
                proof {
                    assert(spec_unlock(epk@, username@, password@) == Some(private_key_raw@));
                    assert(seed@.len() == 32 && me.public_key@ == b64_of(
                        ed25519_public_of(seed@),
                    ) && me.raw() == b64_of(seed@));
                }
                Ok(me)
            },
            Err(e) => match e {
                MeError::AlreadyExists => Err(MeError::AlreadyExists),
                _ => Err(MeError::StoreConnectivity),
            },
        }
    }

    /// Loads and unlocks a persisted identity: reads the stored keys,
    /// decrypts the private key under the password-derived key, and
    /// recomputes the context id from the decrypted key. A missing record
    /// and a failed decryption are reported as distinct errors, and a
    /// wrong password is indistinguishable from a corrupted record.
    pub fn load<S: MeStore>(store: &S, username: &str, password: &str) -> (r: Result<Me, MeError>)
        ensures
            match r {
                Ok(me) => ({
                    &&& store.identities().dom().contains(username@)
                    &&& spec_unlock(
                        store.identities()[username@].encrypted_private_key,
                        username@,
                        password@,
                    ) == Some(me.raw())
                    &&& me.wf() && me.username@ == username@
                    &&& me.public_key@ == store.identities()[username@].public_key
                }),
                Err(e) => match e {
                    MeError::NotFound => !store.identities().dom().contains(username@),
                    MeError::AuthenticationFailed => ({
                        &&& store.identities().dom().contains(username@)
                        &&& spec_unlock(
                            store.identities()[username@].encrypted_private_key,
                            username@,
                            password@,
                        ) is None
                    }),
                    MeError::StoreConnectivity => true,
                    _ => false,
                },
            },
    {
        let keys = match store.load_keys(username) {
            Ok(t) => t,
            Err(e) => {
                return Err(
                    match e {
                        MeError::NotFound => MeError::NotFound,
                        _ => MeError::StoreConnectivity,
                    },
                );
            },
        };
        let (public_key, epk) = keys;
        let blob = match b64_decode(epk.as_str()) {
            Some(b) => b,
            None => {
                return Err(MeError::AuthenticationFailed);
            },
        };
        let key = Self::derive_key(username, password);
        let encoded_key = b64_encode(key.as_slice());
        let raw = match decrypt_string(encoded_key.as_str(), blob.as_slice()) {
            Ok(s) => s,
            Err(_) => {
                return Err(MeError::AuthenticationFailed);
            },
        };
        Ok(Self::with_keys(username, public_key.as_str(), raw.as_str()))
    }

    /// Re-encrypts the raw key this unlocked identity holds under a key
    /// derived from the new password, and overwrites the stored ciphertext.
    /// On any failure the previously stored ciphertext remains valid. The
    /// context id does not change: the raw key is the same.
    pub fn change_password<S: MeStore>(
        &self,
        store: &mut S,
        _old_password: &str,
        new_password: &str,
    ) -> (r: Result<(), MeError>)
        ensures
            match r {
                Ok(()) => ({
                    &&& old(store).identities().dom().contains(self.username@)
                    &&& final(store).identities().dom().contains(self.username@)
                    &&& final(store).identities() == old(store).identities().insert(
                        self.username@,
                        final(store).identities()[self.username@],
                    )
                    &&& final(store).identities()[self.username@].public_key == old(
                        store,
                    ).identities()[self.username@].public_key
                    &&& final(store).identities()[self.username@].created_at == old(
                        store,
                    ).identities()[self.username@].created_at
                    &&& spec_unlock(
                        final(store).identities()[self.username@].encrypted_private_key,
                        self.username@,
                        new_password@,
                    ) == Some(self.raw())
                    &&& final(store).ledger() == old(store).ledger()
                }),
                Err(e) => match e {
                    MeError::NotFound => ({
                        &&& !old(store).identities().dom().contains(self.username@)
                        &&& final(store).identities() == old(store).identities()
                        &&& final(store).ledger() == old(store).ledger()
                    }),
                    MeError::EncryptionFailed => ({
                        &&& final(store).identities() == old(store).identities()
                        &&& final(store).ledger() == old(store).ledger()
                    }),
                    MeError::StoreConnectivity => ({
                        &&& final(store).identities() == old(store).identities()
                        &&& final(store).ledger() == old(store).ledger()
                    }),
                    _ => false,
                },
            },
    {
        let key = Self::derive_key(self.username.as_str(), new_password);
        let encoded_key = b64_encode(key.as_slice());
        let blob = match encrypt_string(encoded_key.as_str(), self.private_key_raw.as_str()) {
            Ok(b) => b,
            Err(_) => {
                return Err(MeError::EncryptionFailed);
            },
        };
        let epk = b64_encode(blob.as_slice());
        match store.update_encrypted_private(self.username.as_str(), epk.as_str()) {
            Ok(()) => {
                proof {
                    assert(spec_unlock(epk@, self.username@, new_password@) == Some(
                        self.private_key_raw@,
                    ));
                }
                Ok(())
            },
            Err(e) => match e {
                MeError::NotFound => Err(MeError::NotFound),
                _ => Err(MeError::StoreConnectivity),
            },
        }
    }

    /// Records a new identity from already-prepared key material.
    pub fn create_identity<S: MeStore>(
        store: &mut S,
        username: &str,
        encrypted_private_key: &str,
        public_key: &str,
    ) -> (r: Result<(), MeError>)
        ensures
            match r {
                Ok(()) => ({
                    &&& !old(store).identities().dom().contains(username@)
                    &&& final(store).identities().dom().contains(username@)
                    &&& ({
                        let rec = final(store).identities()[username@];
                        &&& final(store).identities() == old(store).identities().insert(
                            username@,
                            rec,
                        )
                        &&& rec.public_key == public_key@
                        &&& rec.encrypted_private_key == encrypted_private_key@
                    })
                    &&& final(store).ledger() == old(store).ledger()
                }),
                Err(e) => match e {
                    MeError::AlreadyExists => ({
                        &&& old(store).identities().dom().contains(username@)
                        &&& final(store).identities() == old(store).identities()
                        &&& final(store).ledger() == old(store).ledger()
                    }),
                    MeError::StoreConnectivity => ({
                        &&& final(store).identities() == old(store).identities()
                        &&& final(store).ledger() == old(store).ledger()
                    }),
                    _ => false,
                },
            },
    {
        let created_at = now_rfc3339();
        store.create_identity(username, public_key, encrypted_private_key, created_at.as_str())
    }

    /// Appends one fact under the named verb, timestamped at insertion.
    pub fn insert<S: MeStore>(
        &self,
        store: &mut S,
        verb: &str,
        context_id: &str,
        key: &str,
        value: &str,
    ) -> (r: Result<(), MeError>)
        ensures
            match r {
                Ok(()) => ({
                    &&& Verb::spec_parse(verb@) matches Some(vb) && (exists|ts: Seq<char>|
                        final(store).ledger() == old(store).ledger().push(
                            EntryView {
                                verb: vb,
                                context_id: context_id@,
                                key: key@,
                                value: value@,
                                timestamp: ts,
                            },
                        ))
                    &&& final(store).identities() == old(store).identities()
                }),
                Err(e) => match e {
                    MeError::Validation => ({
                        &&& Verb::spec_parse(verb@) is None
                        &&& final(store).identities() == old(store).identities()
                        &&& final(store).ledger() == old(store).ledger()
                    }),
                    MeError::StoreConnectivity => ({
                        &&& final(store).identities() == old(store).identities()
                        &&& final(store).ledger() == old(store).ledger()
                    }),
                    _ => false,
                },
            },
    {
        let ts = now_rfc3339();
        let r = store.insert(verb, context_id, key, value, ts.as_str());
        proof {
            if r is Ok {
                assert(Verb::spec_parse(verb@) matches Some(vb) && final(store).ledger() == old(
                    store,
                ).ledger().push(
                    EntryView {
                        verb: vb,
                        context_id: context_id@,
                        key: key@,
                        value: value@,
                        timestamp: ts@,
                    },
                ));
            }
        }
        r
    }

    /// Records what the identity is in a context.
    pub fn be<S: MeStore>(
        &self,
        store: &mut S,
        context_id: &str,
        key: &str,
        value: &str,
    ) -> (r: Result<(), MeError>)
        ensures
            match r {
                Ok(()) => ({
                    &&& (exists|ts: Seq<char>|
                        final(store).ledger() == old(store).ledger().push(
                            EntryView {
                                verb: Verb::Be,
                                context_id: context_id@,
                                key: key@,
                                value: value@,
                                timestamp: ts,
                            },
                        ))
                    &&& final(store).identities() == old(store).identities()
                }),
                Err(e) => ({
                    &&& e == MeError::StoreConnectivity
                    &&& final(store).identities() == old(store).identities()
                    &&& final(store).ledger() == old(store).ledger()
                }),
            },
    {
        proof {
            reveal_strlit("be");
            assert("be"@ =~= Verb::Be.spec_name());
        }
        self.insert(store, "be", context_id, key, value)
    }

    /// Records what the identity has in a context.
    pub fn have<S: MeStore>(
        &self,
        store: &mut S,
        context_id: &str,
        key: &str,
        value: &str,
    ) -> (r: Result<(), MeError>)
        ensures
            match r {
                Ok(()) => ({
                    &&& (exists|ts: Seq<char>|
                        final(store).ledger() == old(store).ledger().push(
                            EntryView {
                                verb: Verb::Have,
                                context_id: context_id@,
                                key: key@,
                                value: value@,
                                timestamp: ts,
                            },
                        ))
                    &&& final(store).identities() == old(store).identities()
                }),
                Err(e) => ({
                    &&& e == MeError::StoreConnectivity
                    &&& final(store).identities() == old(store).identities()
                    &&& final(store).ledger() == old(store).ledger()
                }),
            },
    {
        proof {
            reveal_strlit("have");
            assert("have"@ =~= Verb::Have.spec_name());
        }
        self.insert(store, "have", context_id, key, value)
    }

    /// Records what the identity does in a context.
    pub fn do_<S: MeStore>(
        &self,
        store: &mut S,
        context_id: &str,
        key: &str,
        value: &str,
    ) -> (r: Result<(), MeError>)
        ensures
            match r {
                Ok(()) => ({
                    &&& (exists|ts: Seq<char>|
                        final(store).ledger() == old(store).ledger().push(
                            EntryView {
                                verb: Verb::Do,
                                context_id: context_id@,
                                key: key@,
                                value: value@,
                                timestamp: ts,
                            },
                        ))
                    &&& final(store).identities() == old(store).identities()
                }),
                Err(e) => ({
                    &&& e == MeError::StoreConnectivity
                    &&& final(store).identities() == old(store).identities()
                    &&& final(store).ledger() == old(store).ledger()
                }),
            },
    {
        proof {
            reveal_strlit("do");
            assert("do"@ =~= Verb::Do.spec_name());
        }
        self.insert(store, "do", context_id, key, value)
    }

    /// Records where the identity is in a context.
    pub fn at<S: MeStore>(
        &self,
        store: &mut S,
        context_id: &str,
        key: &str,
        value: &str,
    ) -> (r: Result<(), MeError>)
        ensures
            match r {
                Ok(()) => ({
                    &&& (exists|ts: Seq<char>|
                        final(store).ledger() == old(store).ledger().push(
                            EntryView {
                                verb: Verb::At,
                                context_id: context_id@,
                                key: key@,
                                value: value@,
                                timestamp: ts,
                            },
                        ))
                    &&& final(store).identities() == old(store).identities()
                }),
                Err(e) => ({
                    &&& e == MeError::StoreConnectivity
                    &&& final(store).identities() == old(store).identities()
                    &&& final(store).ledger() == old(store).ledger()
                }),
            },
    {
        proof {
            reveal_strlit("at");
            assert("at"@ =~= Verb::At.spec_name());
        }
        self.insert(store, "at", context_id, key, value)
    }

    /// Records a relation to a target in a context.
    pub fn relate<S: MeStore>(
        &self,
        store: &mut S,
        context_id: &str,
        key: &str,
        value: &str,
    ) -> (r: Result<(), MeError>)
        ensures
            match r {
                Ok(()) => ({
                    &&& (exists|ts: Seq<char>|
                        final(store).ledger() == old(store).ledger().push(
                            EntryView {
                                verb: Verb::Relate,
                                context_id: context_id@,
                                key: key@,
                                value: value@,
                                timestamp: ts,
                            },
                        ))
                    &&& final(store).identities() == old(store).identities()
                }),
                Err(e) => ({
                    &&& e == MeError::StoreConnectivity
                    &&& final(store).identities() == old(store).identities()
                    &&& final(store).ledger() == old(store).ledger()
                }),
            },
    {
        proof {
            reveal_strlit("relate");
            assert("relate"@ =~= Verb::Relate.spec_name());
        }
        self.insert(store, "relate", context_id, key, value)
    }

    /// Records a reaction to a target in a context.
    pub fn react<S: MeStore>(
        &self,
        store: &mut S,
        context_id: &str,
        key: &str,
        value: &str,
    ) -> (r: Result<(), MeError>)
        ensures
            match r {
                Ok(()) => ({
                    &&& (exists|ts: Seq<char>|
                        final(store).ledger() == old(store).ledger().push(
                            EntryView {
                                verb: Verb::React,
                                context_id: context_id@,
                                key: key@,
                                value: value@,
                                timestamp: ts,
                            },
                        ))
                    &&& final(store).identities() == old(store).identities()
                }),
                Err(e) => ({
                    &&& e == MeError::StoreConnectivity
                    &&& final(store).identities() == old(store).identities()
                    &&& final(store).ledger() == old(store).ledger()
                }),
            },
    {
        proof {
            reveal_strlit("react");
            assert("react"@ =~= Verb::React.spec_name());
        }
        self.insert(store, "react", context_id, key, value)
    }

    /// Records a message to a target in a context.
    pub fn communicate<S: MeStore>(
        &self,
        store: &mut S,
        context_id: &str,
        key: &str,
        value: &str,
    ) -> (r: Result<(), MeError>)
        ensures
            match r {
                Ok(()) => ({
                    &&& (exists|ts: Seq<char>|
                        final(store).ledger() == old(store).ledger().push(
                            EntryView {
                                verb: Verb::Communicate,
                                context_id: context_id@,
                                key: key@,
                                value: value@,
                                timestamp: ts,
                            },
                        ))
                    &&& final(store).identities() == old(store).identities()
                }),
                Err(e) => ({
                    &&& e == MeError::StoreConnectivity
                    &&& final(store).identities() == old(store).identities()
                    &&& final(store).ledger() == old(store).ledger()
                }),
            },
    {
        proof {
            reveal_strlit("communicate");
            assert("communicate"@ =~= Verb::Communicate.spec_name());
        }
        self.insert(store, "communicate", context_id, key, value)
    }

    /// Runs a query through the store; the result is exactly what
    /// [`spec_get`] denotes on the ledger.
    pub fn get<S: MeStore>(&self, store: &S, filter: &GetFilter) -> (r: Result<Vec<Entry>, MeError>)
        ensures
            match r {
                Ok(out) => spec_get(store.ledger(), filter@) == Some(
                    crate::model::entries_view(out@),
                ),
                Err(e) => match e {
                    MeError::Validation => spec_get(store.ledger(), filter@) is None,
                    MeError::StoreConnectivity => true,
                    _ => false,
                },
            },
    {
        store.get(filter)
    }
}

} // verus!
