//! Keys, signatures and encryption.

use vstd::prelude::*;
use vstd::utf8::{encode_utf8, valid_utf8};

use crate::error::{bare, fail, fail_with, seen, with, Error, ErrorV, Fault};
use crate::primitives::{
    aes_open, aes_opened, aes_seal, aes_sealed, argon2_hash, argon2_hashed, canonical_json, canonicalize, clamped,
    ed25519_check_key, ed25519_key, ed25519_public, ed25519_sign, ed25519_signature, ed25519_to_public,
    ed25519_verdict, ed25519_verify, fits_cipher, hkdf_expand, hkdf_expanded, hpke_open, hpke_opened, hpke_seal,
    montgomery, other_tag, random_bytes, sha256, sha256_of, sha512, to_montgomery, utf8_text,
};
use crate::text::{append_bytes, copy_bytes, same, same_bytes};
use crate::types::{Identity, Key, Signature, Tagged};

verus! {

/// The algorithm that file bodies are encrypted with by default.
pub const DEFAULT_ENCRYPTION_ALGORITHM: &'static str = "aes-256-gcm";

/// The algorithm that bodies are hashed with.
pub const DEFAULT_HASH_ALGORITHM: &'static str = "sha-256";

/// The algorithm of keys that a password stands for.
pub const DEFAULT_PASSWORD_ALGORITHM: &'static str = "argon2id-ed25519";

/// The algorithm that documents are signed with by default.
pub const DEFAULT_SIGNING_ALGORITHM: &'static str = "ed25519";

/// The algorithm that file keys are wrapped with for a member.
pub const WRAP_ALGORITHM: &'static str = "hpke-x25519-hkdf-sha256-aes256gcm";

/// The length of a password verifier.
pub const PASSWORD_VERIFIER_LEN: usize = 32;

/// The length of a password salt.
pub const PASSWORD_SALT_LEN: usize = 16;

/// The length of the Ed25519 key in a password's public key.
pub const PASSWORD_PUBKEY_LEN: usize = 32;

/// Where the Ed25519 key stands in a password's public key.
pub const PASSWORD_SEED_OFFSET: usize = 48;

/// The length of a password's public key.
pub const PASSWORD_KEY_LEN: usize = 80;

// Deriving keys.

/// What binds a wrapped file key to its use.
pub open spec fn wrap_info() -> Seq<u8> {
    encode_utf8("ark-hpke-v1"@)
}

/// The verifier and the Ed25519 secret key that a password and a salt expand
/// to.
pub open spec fn expanded(password: Seq<u8>, salt: Seq<u8>) -> Result<(Seq<u8>, Seq<u8>), ErrorV> {
    match argon2_hashed(password, salt) {
        Ok(h) => Ok(
            (
                sha256_of(hkdf_expanded(h, encode_utf8("ark-auth-v1"@))),
                hkdf_expanded(h, encode_utf8("ark-ed25519-v1"@)),
            ),
        ),
        Err(t) => Err(with(Fault::Argon2, t)),
    }
}

fn expand_argon2id_ed25519(password: &[u8], salt: &[u8]) -> (r: Result<(Vec<u8>, Vec<u8>), Error>)
    ensures
        seen(r) == expanded(password@, salt@),
        r matches Ok(e) ==> e.0@.len() == PASSWORD_VERIFIER_LEN && e.1@.len() == 32,
{
    match argon2_hash(password, salt) {
        Ok(hash) => {
            let auth = hkdf_expand(&hash, "ark-auth-v1".as_bytes());
            let seed = hkdf_expand(&hash, "ark-ed25519-v1".as_bytes());
            Ok((sha256(&auth), seed))
        },
        Err(t) => Err(fail_with(Fault::Argon2, t)),
    }
}

/// The Ed25519 secret key inside a password's secret key, which is a salt and
/// the password's UTF-8 bytes.
pub open spec fn password_seed(value: Seq<u8>) -> Result<Seq<u8>, ErrorV> {
    if value.len() < PASSWORD_SALT_LEN {
        Err(bare(Fault::SecretKeyTooShort))
    } else if !valid_utf8(value.skip(16)) {
        Err(bare(Fault::PasswordNotUtf8))
    } else {
        match expanded(value.skip(16), value.take(16)) {
            Ok(e) => Ok(e.1),
            Err(e) => Err(e),
        }
    }
}

fn derive_secret_ed25519_from_argon2id_ed25519(secret_key: &Key) -> (r: Result<Key, Error>)
    ensures
        r matches Ok(k) ==> k@.algorithm == DEFAULT_SIGNING_ALGORITHM@ && k@.value.len() == 32
            && password_seed(secret_key@.value) == Ok::<Seq<u8>, ErrorV>(k@.value),
        r matches Err(e) ==> password_seed(secret_key@.value) == Err::<Seq<u8>, ErrorV>(e@),
{
    if secret_key.value.len() < PASSWORD_SALT_LEN {
        return Err(fail(Fault::SecretKeyTooShort));
    }
    let (salt, password) = secret_key.value.as_slice().split_at(PASSWORD_SALT_LEN);
    proof {
        assert(salt@ =~= secret_key@.value.take(16));
        assert(password@ =~= secret_key@.value.skip(16));
    }
    if utf8_text(password).is_none() {
        return Err(fail(Fault::PasswordNotUtf8));
    }
    match expand_argon2id_ed25519(password, salt) {
        Ok((_, seed)) => Ok(Key { algorithm: DEFAULT_SIGNING_ALGORITHM.to_owned(), value: seed }),
        Err(e) => Err(e),
    }
}

/// The Ed25519 public key inside a password's public key.
pub open spec fn password_point(value: Seq<u8>) -> Result<Seq<u8>, ErrorV> {
    if value.len() < PASSWORD_KEY_LEN {
        Err(bare(Fault::PublicKeyTooShort))
    } else {
        Ok(value.subrange(PASSWORD_SEED_OFFSET as int, PASSWORD_KEY_LEN as int))
    }
}

fn derive_public_ed25519_from_argon2id_ed25519(public_key: &Key) -> (r: Result<Key, Error>)
    ensures
        r matches Ok(k) ==> k@.algorithm == DEFAULT_SIGNING_ALGORITHM@ && password_point(public_key@.value) == Ok::<
            Seq<u8>,
            ErrorV,
        >(k@.value),
        r matches Err(e) ==> password_point(public_key@.value) == Err::<Seq<u8>, ErrorV>(e@),
{
    if public_key.value.len() < PASSWORD_KEY_LEN {
        return Err(fail(Fault::PublicKeyTooShort));
    }
    let value = copy_bytes(
        vstd::slice::slice_subrange(public_key.value.as_slice(), PASSWORD_SEED_OFFSET, PASSWORD_KEY_LEN),
    );
    Ok(Key { algorithm: DEFAULT_SIGNING_ALGORITHM.to_owned(), value })
}

/// The X25519 public key that goes with an Ed25519 public key.
pub open spec fn x25519_of(public: Seq<u8>) -> Result<Seq<u8>, ErrorV> {
    if public.len() != 32 {
        Err(bare(Fault::PublicKeySize))
    } else {
        match montgomery(public) {
            Some(p) => Ok(p),
            None => Err(bare(Fault::PointInvalid)),
        }
    }
}

/// The X25519 public key that goes with an Ed25519 public key.
pub fn derive_public_x25519_from_ed25519(public_key: &Key) -> (r: Result<Key, Error>)
    ensures
        r matches Ok(k) ==> k@.algorithm == "x25519"@ && x25519_of(public_key@.value) == Ok::<Seq<u8>, ErrorV>(
            k@.value,
        ) && k@.value.len() == 32,
        r matches Err(e) ==> x25519_of(public_key@.value) == Err::<Seq<u8>, ErrorV>(e@),
{
    if public_key.value.len() != 32 {
        return Err(fail(Fault::PublicKeySize));
    }
    match to_montgomery(&public_key.value) {
        Some(value) => Ok(Key { algorithm: "x25519".to_owned(), value }),
        None => Err(fail(Fault::PointInvalid)),
    }
}

fn derive_secret_x25519_from_ed25519(secret_key: &[u8]) -> (r: Key)
    ensures
        r@.algorithm == "x25519"@,
        r@.value == clamped(secret_key@),
        r@.value.len() == 32,
{
    let digest = sha512(secret_key);
    let mut value = copy_bytes(vstd::slice::slice_subrange(digest.as_slice(), 0, 32));
    assert(value@ =~= digest@.take(32));
    value.set(0, value[0] & 248);
    value.set(31, value[31] & 127);
    value.set(31, value[31] | 64);
    assert(value@ =~= clamped(secret_key@));
    Key { algorithm: "x25519".to_owned(), value }
}

// Creating keys.

/// Whether a fresh key of this algorithm is 32 random bytes.
pub open spec fn has_random_keys(algorithm: Seq<char>) -> bool {
    algorithm == DEFAULT_ENCRYPTION_ALGORITHM@ || algorithm == DEFAULT_SIGNING_ALGORITHM@
}

/// A fresh random key: a file key or an Ed25519 secret key.
pub fn create_secret_key(algorithm: &str) -> (r: Result<Key, Error>)
    ensures
        r matches Ok(k) ==> has_random_keys(algorithm@) && k@.algorithm == algorithm@ && k@.value.len() == 32,
        r matches Err(e) ==> if has_random_keys(algorithm@) {
            e.fault == Fault::Random
        } else {
            e@ == bare(Fault::UnsupportedAlgorithm)
        },
{
    if same(algorithm, DEFAULT_ENCRYPTION_ALGORITHM) || same(algorithm, DEFAULT_SIGNING_ALGORITHM) {
        match random_bytes(32) {
            Ok(value) => Ok(Key { algorithm: algorithm.to_owned(), value }),
            Err(t) => Err(fail_with(Fault::Random, t)),
        }
    } else {
        Err(fail(Fault::UnsupportedAlgorithm))
    }
}

/// The secret key of a password with the given salt.
pub open spec fn password_key(salt: Seq<u8>, password: Seq<char>) -> Tagged {
    Tagged { algorithm: DEFAULT_PASSWORD_ALGORITHM@, value: salt + encode_utf8(password) }
}

fn salted(salt: &[u8], password: &str) -> (r: Key)
    ensures
        r@ == password_key(salt@, password@),
{
    let mut value = copy_bytes(salt);
    append_bytes(&mut value, password.as_bytes());
    Key { algorithm: DEFAULT_PASSWORD_ALGORITHM.to_owned(), value }
}

/// The secret key of a password with a fresh random salt.
pub fn create_secret_key_from_password(algorithm: &str, password: &str) -> (r: Result<Key, Error>)
    ensures
        r matches Ok(k) ==> algorithm@ == DEFAULT_PASSWORD_ALGORITHM@ && exists|salt: Seq<u8>|
            salt.len() == PASSWORD_SALT_LEN && k@ == #[trigger] password_key(salt, password@),
        r matches Err(e) ==> if algorithm@ == DEFAULT_PASSWORD_ALGORITHM@ {
            e.fault == Fault::Random
        } else {
            e@ == bare(Fault::UnsupportedAlgorithm)
        },
{
    if same(algorithm, DEFAULT_PASSWORD_ALGORITHM) {
        match random_bytes(PASSWORD_SALT_LEN) {
            Ok(salt) => {
                let key = salted(&salt, password);
                assert(key@ == password_key(salt@, password@));
                Ok(key)
            },
            Err(t) => Err(fail_with(Fault::Random, t)),
        }
    } else {
        Err(fail(Fault::UnsupportedAlgorithm))
    }
}

/// The secret key that a password stands for, as far as the public key in an
/// identity confirms the password.
pub open spec fn restored(public: Tagged, password: Seq<char>) -> Result<Tagged, ErrorV> {
    if public.algorithm != DEFAULT_PASSWORD_ALGORITHM@ {
        Err(bare(Fault::UnsupportedAlgorithm))
    } else if public.value.len() != PASSWORD_KEY_LEN {
        Err(bare(Fault::PublicKeyLength))
    } else {
        let salt = public.value.subrange(32, 48);
        match expanded(encode_utf8(password), salt) {
            Ok(e) => if e.0 == public.value.take(32) {
                Ok(password_key(salt, password))
            } else {
                Err(bare(Fault::PasswordMismatch))
            },
            Err(e) => Err(e),
        }
    }
}

/// The secret key of a password identity, when the password is the right one.
pub fn restore_secret_key_from_password(identity: &Identity, password: &str) -> (r: Result<Key, Error>)
    ensures
        seen(r) == restored(identity@.public_key, password@),
{
    let public = &identity.public_key;
    if !same(&public.algorithm, DEFAULT_PASSWORD_ALGORITHM) {
        return Err(fail(Fault::UnsupportedAlgorithm));
    }
    if public.value.len() != PASSWORD_KEY_LEN {
        return Err(fail(Fault::PublicKeyLength));
    }
    let verifier = vstd::slice::slice_subrange(public.value.as_slice(), 0, PASSWORD_VERIFIER_LEN);
    let salt = vstd::slice::slice_subrange(public.value.as_slice(), PASSWORD_VERIFIER_LEN, PASSWORD_SEED_OFFSET);
    assert(verifier@ =~= public@.value.take(32));
    match expand_argon2id_ed25519(password.as_bytes(), salt) {
        Ok((expected, _)) => {
            if !same_bytes(&expected, verifier) {
                return Err(fail(Fault::PasswordMismatch));
            }
            Ok(salted(salt, password))
        },
        Err(e) => Err(e),
    }
}

/// The public key of a secret key.
pub open spec fn public_key(secret: Tagged) -> Result<Tagged, ErrorV> {
    if secret.algorithm == DEFAULT_PASSWORD_ALGORITHM@ {
        if secret.value.len() < PASSWORD_SALT_LEN {
            Err(bare(Fault::SecretKeyTooShort))
        } else if !valid_utf8(secret.value.skip(16)) {
            Err(bare(Fault::PasswordNotUtf8))
        } else {
            match expanded(secret.value.skip(16), secret.value.take(16)) {
                Ok(e) => Ok(
                    Tagged {
                        algorithm: DEFAULT_PASSWORD_ALGORITHM@,
                        value: e.0 + secret.value.take(16) + ed25519_public(e.1),
                    },
                ),
                Err(e) => Err(e),
            }
        }
    } else if secret.algorithm == DEFAULT_SIGNING_ALGORITHM@ {
        if secret.value.len() != 32 {
            Err(bare(Fault::SecretKeySize))
        } else {
            Ok(Tagged { algorithm: DEFAULT_SIGNING_ALGORITHM@, value: ed25519_public(secret.value) })
        }
    } else {
        Err(bare(Fault::UnsupportedAlgorithm))
    }
}

/// Whether what is done with `public` can be undone or confirmed with
/// `secret`: a key pair, or one and the same file key.
pub open spec fn keys_match(secret: Tagged, public: Tagged) -> bool {
    if public.algorithm == DEFAULT_ENCRYPTION_ALGORITHM@ {
        secret == public
    } else if public.algorithm == DEFAULT_SIGNING_ALGORITHM@ {
        &&& secret.algorithm == DEFAULT_SIGNING_ALGORITHM@
        &&& secret.value.len() == 32
        &&& public.value == ed25519_public(secret.value)
    } else {
        &&& public.algorithm == DEFAULT_PASSWORD_ALGORITHM@
        &&& secret.algorithm == DEFAULT_PASSWORD_ALGORITHM@
        &&& password_seed(secret.value) matches Ok(seed)
        &&& seed.len() == 32
        &&& password_point(public.value) == Ok::<Seq<u8>, ErrorV>(ed25519_public(seed))
    }
}

proof fn lemma_algorithms()
    ensures
        DEFAULT_ENCRYPTION_ALGORITHM@ != DEFAULT_SIGNING_ALGORITHM@,
        DEFAULT_ENCRYPTION_ALGORITHM@ != DEFAULT_PASSWORD_ALGORITHM@,
        DEFAULT_ENCRYPTION_ALGORITHM@ != WRAP_ALGORITHM@,
        DEFAULT_SIGNING_ALGORITHM@ != DEFAULT_PASSWORD_ALGORITHM@,
        DEFAULT_SIGNING_ALGORITHM@ != WRAP_ALGORITHM@,
        DEFAULT_PASSWORD_ALGORITHM@ != WRAP_ALGORITHM@,
{
    reveal_strlit("aes-256-gcm");
    reveal_strlit("ed25519");
    reveal_strlit("argon2id-ed25519");
    reveal_strlit("hpke-x25519-hkdf-sha256-aes256gcm");
    assert("aes-256-gcm"@.len() == 11);
    assert("ed25519"@.len() == 7);
    assert("argon2id-ed25519"@.len() == 16);
    assert("hpke-x25519-hkdf-sha256-aes256gcm"@.len() == 33);
}

/// The public key of a secret key. The two match, whatever fits the cipher can be
/// encrypted for it, and from the public key of a password the same password restores
/// the secret key.
pub fn to_public_key(secret_key: &Key) -> (r: Result<Key, Error>)
    ensures
        seen(r) == public_key(secret_key@),
        r matches Ok(p) ==> keys_match(secret_key@, p@) && owned(p@),
        r matches Ok(p) ==> forall|salt: Seq<u8>, password: Seq<char>|
            salt.len() == PASSWORD_SALT_LEN && secret_key@ == #[trigger] password_key(salt, password) ==> restored(
                p@,
                password,
            ) == Ok::<Tagged, ErrorV>(secret_key@),
{
    proof {
        lemma_algorithms();
    }
    if same(&secret_key.algorithm, DEFAULT_PASSWORD_ALGORITHM) {
        if secret_key.value.len() < PASSWORD_SALT_LEN {
            return Err(fail(Fault::SecretKeyTooShort));
        }
        let (salt, password) = secret_key.value.as_slice().split_at(PASSWORD_SALT_LEN);
        proof {
            assert(salt@ =~= secret_key@.value.take(16));
            assert(password@ =~= secret_key@.value.skip(16));
        }
        if utf8_text(password).is_none() {
            return Err(fail(Fault::PasswordNotUtf8));
        }
        match expand_argon2id_ed25519(password, salt) {
            Ok((verifier, seed)) => {
                let point = ed25519_to_public(&seed);
                let mut value = copy_bytes(&verifier);
                append_bytes(&mut value, salt);
                append_bytes(&mut value, &point);
                proof {
                    assert(value@.subrange(48, 80) =~= point@);
                    assert(value@.subrange(32, 48) =~= salt@);
                    assert(value@.take(32) =~= verifier@);
                    assert forall|s: Seq<u8>, p: Seq<char>|
                        s.len() == PASSWORD_SALT_LEN && secret_key@ == #[trigger] password_key(s, p) implies s == salt@
                        && encode_utf8(p) == password@ by {
                        let whole = s + encode_utf8(p);
                        assert(whole.take(16) =~= s);
                        assert(whole.skip(16) =~= encode_utf8(p));
                    }
                }
                let public = Key { algorithm: DEFAULT_PASSWORD_ALGORITHM.to_owned(), value };
                assert(keys_match(secret_key@, public@));
                Ok(public)
            },
            Err(e) => Err(e),
        }
    } else if same(&secret_key.algorithm, DEFAULT_SIGNING_ALGORITHM) {
        if secret_key.value.len() != 32 {
            return Err(fail(Fault::SecretKeySize));
        }
        let public = Key {
            algorithm: DEFAULT_SIGNING_ALGORITHM.to_owned(),
            value: ed25519_to_public(&secret_key.value),
        };
        assert(keys_match(secret_key@, public@));
        Ok(public)
    } else {
        Err(fail(Fault::UnsupportedAlgorithm))
    }
}

// Signing.

/// The signature of a message with an Ed25519 secret key.
pub open spec fn ed25519_signed(secret: Seq<u8>, bytes: Seq<u8>) -> Result<Tagged, ErrorV> {
    if secret.len() != 32 {
        Err(bare(Fault::SecretKeySize))
    } else {
        Ok(Tagged { algorithm: DEFAULT_SIGNING_ALGORITHM@, value: ed25519_signature(secret, bytes) })
    }
}

/// The signature of a message.
pub open spec fn signed(secret: Tagged, bytes: Seq<u8>) -> Result<Tagged, ErrorV> {
    if secret.algorithm == DEFAULT_PASSWORD_ALGORITHM@ {
        match password_seed(secret.value) {
            Ok(seed) => ed25519_signed(seed, bytes),
            Err(e) => Err(e),
        }
    } else if secret.algorithm == DEFAULT_SIGNING_ALGORITHM@ {
        ed25519_signed(secret.value, bytes)
    } else {
        Err(bare(Fault::UnsupportedSigningAlgorithm))
    }
}

/// Whether a signature of a message is valid under an Ed25519 public key, and
/// if not, why.
pub open spec fn ed25519_verified(public: Seq<u8>, signature: Seq<u8>, bytes: Seq<u8>) -> Result<(), ErrorV> {
    if public.len() != 32 {
        Err(bare(Fault::PublicKeySize))
    } else {
        match ed25519_key(public) {
            Err(t) => Err(with(Fault::PublicKeyInvalid, t)),
            Ok(_) => if signature.len() != 64 {
                Err(bare(Fault::SignatureSize))
            } else {
                match ed25519_verdict(public, signature, bytes) {
                    Err(t) => Err(with(Fault::SignatureRejected, t)),
                    Ok(u) => Ok(u),
                }
            },
        }
    }
}

/// Whether a signature of a message is valid under a public key, and if not,
/// why.
pub open spec fn verified(public: Tagged, signature: Tagged, bytes: Seq<u8>) -> Result<(), ErrorV> {
    if public.algorithm == DEFAULT_PASSWORD_ALGORITHM@ && (signature.algorithm == DEFAULT_PASSWORD_ALGORITHM@
        || signature.algorithm == DEFAULT_SIGNING_ALGORITHM@) {
        match password_point(public.value) {
            Ok(point) => ed25519_verified(point, signature.value, bytes),
            Err(e) => Err(e),
        }
    } else if public.algorithm == DEFAULT_SIGNING_ALGORITHM@ && signature.algorithm == DEFAULT_SIGNING_ALGORITHM@ {
        ed25519_verified(public.value, signature.value, bytes)
    } else {
        Err(bare(Fault::UnsupportedSigningAlgorithm))
    }
}

/// Signs a message. Every public key that matches the secret key accepts the
/// signature.
pub fn sign_bytes(secret_key: &Key, bytes: &[u8]) -> (r: Result<Signature, Error>)
    ensures
        seen(r) == signed(secret_key@, bytes@),
        r matches Ok(s) ==> forall|public: Tagged|
            public.algorithm != DEFAULT_ENCRYPTION_ALGORITHM@ && #[trigger] keys_match(secret_key@, public)
                ==> verified(public, s@, bytes@) is Ok,
{
    proof {
        lemma_algorithms();
    }
    let derived;
    let seed: &Key;
    if same(&secret_key.algorithm, DEFAULT_PASSWORD_ALGORITHM) {
        match derive_secret_ed25519_from_argon2id_ed25519(secret_key) {
            Ok(k) => {
                derived = k;
                seed = &derived;
            },
            Err(e) => {
                return Err(e);
            },
        }
    } else if same(&secret_key.algorithm, DEFAULT_SIGNING_ALGORITHM) {
        seed = secret_key;
    } else {
        return Err(fail(Fault::UnsupportedSigningAlgorithm));
    }
    if seed.value.len() != 32 {
        return Err(fail(Fault::SecretKeySize));
    }
    Ok(Signature { algorithm: DEFAULT_SIGNING_ALGORITHM.to_owned(), value: ed25519_sign(&seed.value, bytes) })
}

/// Checks the signature of a message.
pub fn verify_bytes(public_key: &Key, signature: &Signature, bytes: &[u8]) -> (r: Result<(), Error>)
    ensures
        seen(r) == verified(public_key@, signature@, bytes@),
{
    proof {
        lemma_algorithms();
    }
    let by_password = same(&signature.algorithm, DEFAULT_PASSWORD_ALGORITHM);
    let by_key = same(&signature.algorithm, DEFAULT_SIGNING_ALGORITHM);
    let derived;
    let point: &Key;
    if same(&public_key.algorithm, DEFAULT_PASSWORD_ALGORITHM) && (by_password || by_key) {
        match derive_public_ed25519_from_argon2id_ed25519(public_key) {
            Ok(k) => {
                derived = k;
                point = &derived;
            },
            Err(e) => {
                return Err(e);
            },
        }
    } else if same(&public_key.algorithm, DEFAULT_SIGNING_ALGORITHM) && by_key {
        point = public_key;
    } else {
        return Err(fail(Fault::UnsupportedSigningAlgorithm));
    }
    if point.value.len() != 32 {
        return Err(fail(Fault::PublicKeySize));
    }
    match ed25519_check_key(&point.value) {
        Ok(()) => {},
        Err(t) => {
            return Err(fail_with(Fault::PublicKeyInvalid, t));
        },
    }
    if signature.value.len() != 64 {
        return Err(fail(Fault::SignatureSize));
    }
    match ed25519_verify(&point.value, &signature.value, bytes) {
        Ok(()) => Ok(()),
        Err(t) => Err(fail_with(Fault::SignatureRejected, t)),
    }
}

/// A secret key that matches a public key, other than a file key, signs every message.
pub proof fn matching_keys_sign(secret: Tagged, public: Tagged, bytes: Seq<u8>)
    requires
        keys_match(secret, public),
        public.algorithm != DEFAULT_ENCRYPTION_ALGORITHM@,
    ensures
        signed(secret, bytes) is Ok,
{
    lemma_algorithms();
}

/// The signature of a JSON document: of its canonical form.
pub open spec fn json_signed(secret: Tagged, text: Seq<char>) -> Result<Tagged, ErrorV> {
    match canonical_json(text) {
        Some(bytes) => signed(secret, bytes),
        None => Err(bare(Fault::Canonicalize)),
    }
}

/// Whether a signature of a JSON document is valid, and if not, why.
pub open spec fn json_verified(public: Tagged, signature: Tagged, text: Seq<char>) -> Result<(), ErrorV> {
    match canonical_json(text) {
        Some(bytes) => verified(public, signature, bytes),
        None => Err(bare(Fault::Canonicalize)),
    }
}

/// Signs a JSON document in its canonical form. Every public key that matches
/// the secret key accepts the signature.
pub fn sign_json(secret_key: &Key, json: &str) -> (r: Result<Signature, Error>)
    ensures
        seen(r) == json_signed(secret_key@, json@),
        r matches Ok(s) ==> forall|public: Tagged|
            public.algorithm != DEFAULT_ENCRYPTION_ALGORITHM@ && #[trigger] keys_match(secret_key@, public)
                ==> json_verified(public, s@, json@) is Ok,
{
    match canonicalize(json) {
        Some(bytes) => sign_bytes(secret_key, &bytes),
        None => Err(fail(Fault::Canonicalize)),
    }
}

/// Checks the signature of a JSON document.
pub fn verify_json(key: &Key, signature: &Signature, json: &str) -> (r: Result<(), Error>)
    ensures
        seen(r) == json_verified(key@, signature@, json@),
{
    match canonicalize(json) {
        Some(bytes) => verify_bytes(key, signature, &bytes),
        None => Err(fail(Fault::Canonicalize)),
    }
}

// Encrypting.

/// Why nothing can be encrypted for a key, if so.
pub open spec fn cannot_encrypt(public: Tagged) -> Option<ErrorV> {
    if public.algorithm == DEFAULT_ENCRYPTION_ALGORITHM@ {
        if public.value.len() != 32 {
            Some(bare(Fault::CipherKeySize))
        } else {
            None
        }
    } else if public.algorithm == DEFAULT_PASSWORD_ALGORITHM@ {
        match password_point(public.value) {
            Ok(point) => match x25519_of(point) {
                Ok(_) => None,
                Err(e) => Some(e),
            },
            Err(e) => Some(e),
        }
    } else if public.algorithm == DEFAULT_SIGNING_ALGORITHM@ {
        match x25519_of(public.value) {
            Ok(_) => None,
            Err(e) => Some(e),
        }
    } else {
        Some(bare(Fault::UnsupportedEncryptionAlgorithm))
    }
}

/// Whether something can be encrypted for a key, and some secret key matches it.
pub open spec fn owned(public: Tagged) -> bool {
    cannot_encrypt(public) is None && exists|secret: Tagged| #[trigger] keys_match(secret, public)
}

/// The algorithm that encrypting for a key uses.
pub open spec fn encryption_for(public: Tagged) -> Seq<char> {
    if public.algorithm == DEFAULT_ENCRYPTION_ALGORITHM@ {
        DEFAULT_ENCRYPTION_ALGORITHM@
    } else {
        WRAP_ALGORITHM@
    }
}

/// A body encrypted under a file key with a given nonce: the nonce, then the
/// ciphertext with its tag.
pub open spec fn aes_framed(key: Seq<u8>, nonce: Seq<u8>, plaintext: Seq<u8>) -> Result<Seq<u8>, ErrorV> {
    if key.len() != 32 {
        Err(bare(Fault::CipherKeySize))
    } else {
        match aes_sealed(key, nonce, plaintext) {
            Ok(c) => Ok(nonce + c),
            Err(t) => Err(with(Fault::Encrypt, t)),
        }
    }
}

/// Encrypts under a file key with a given nonce. The same key decrypts.
pub fn encrypt_with_nonce(key: &Key, nonce: &[u8], plaintext: &[u8]) -> (r: Result<Vec<u8>, Error>)
    requires
        nonce@.len() == 12,
    ensures
        seen(r) == aes_framed(key@.value, nonce@, plaintext@),
        r is Ok <==> key@.value.len() == 32 && fits_cipher(plaintext@),
        r matches Ok(c) ==> forall|other: Seq<u8>| #[trigger]
            altered(c@, other) ==> aes_decrypted(key@.value, other) is Err,
        r matches Ok(c) ==> c@.len() == plaintext@.len() + 28 && aes_decrypted(key@.value, c@) == Ok::<
            Seq<u8>,
            ErrorV,
        >(plaintext@),
{
    if key.value.len() != 32 {
        return Err(fail(Fault::CipherKeySize));
    }
    match aes_seal(&key.value, nonce, plaintext) {
        Ok(ciphertext) => {
            let mut out = copy_bytes(nonce);
            append_bytes(&mut out, &ciphertext);
            assert(out@.take(12) =~= nonce@);
            assert(out@.skip(12) =~= ciphertext@);
            proof {
                lemma_altered(key@.value, nonce@, ciphertext@);
            }
            Ok(out)
        },
        Err(t) => Err(fail_with(Fault::Encrypt, t)),
    }
}

/// Whether a body differs from another one of the same length in the nonce alone or
/// in the tag alone.
pub open spec fn altered(ciphertext: Seq<u8>, other: Seq<u8>) -> bool {
    &&& other.len() == ciphertext.len() >= 28
    &&& other != ciphertext
    &&& other.skip(12) == ciphertext.skip(12) || other.take(other.len() - 16) == ciphertext.take(
        ciphertext.len() - 16,
    )
}

proof fn lemma_altered(key: Seq<u8>, nonce: Seq<u8>, ciphertext: Seq<u8>)
    requires
        key.len() == 32,
        nonce.len() == 12,
        ciphertext.len() >= 16,
        forall|other: Seq<u8>| #[trigger] other_tag(ciphertext, other) ==> aes_opened(key, nonce, other) is Err,
        forall|other: Seq<u8>|
            other.len() == 12 && other != nonce ==> (#[trigger] aes_opened(key, other, ciphertext)) is Err,
    ensures
        forall|other: Seq<u8>| #[trigger]
            altered(nonce + ciphertext, other) ==> aes_decrypted(key, other) is Err,
{
    let whole = nonce + ciphertext;
    assert(whole.skip(12) =~= ciphertext);
    assert forall|other: Seq<u8>| #[trigger] altered(whole, other) implies aes_decrypted(key, other) is Err by {
        assert(other =~= other.take(12) + other.skip(12));
        if other.skip(12) == ciphertext {
            assert(other.take(12) != nonce);
            assert(aes_opened(key, other.take(12), ciphertext) is Err);
        } else {
            let n = whole.len() - 16;
            assert(other.take(12) =~= other.take(n).take(12));
            assert(whole.take(n).take(12) =~= nonce);
            let rest = other.skip(12);
            assert(rest.take(rest.len() - 16) =~= other.take(n).skip(12));
            assert(ciphertext.take(ciphertext.len() - 16) =~= whole.take(n).skip(12));
            assert(other_tag(ciphertext, rest));
        }
    }
}

/// Whether encrypting for a key that can be encrypted for fails, and why: under a
/// file key for want of a nonce, or because the cipher does not take the plaintext;
/// for a public key only where the cipher does not take the plaintext or no secret
/// key matches the key.
pub open spec fn encrypt_fault(public: Tagged, plaintext: Seq<u8>, e: ErrorV) -> bool {
    if public.algorithm == DEFAULT_ENCRYPTION_ALGORITHM@ {
        ||| e.fault == Fault::Random
        ||| !fits_cipher(plaintext) && exists|nonce: Seq<u8>|
            nonce.len() == 12 && #[trigger] aes_framed(public.value, nonce, plaintext) == Err::<Seq<u8>, ErrorV>(e)
    } else {
        e.fault == Fault::WrapSeal && !(owned(public) && fits_cipher(plaintext))
    }
}

/// Encrypts `plaintext` for a key: under it when it is a file key, wrapped for
/// its owner when it is a public key. Whoever holds a matching secret key can
/// decrypt. For a public key that has an owner it succeeds with every plaintext that
/// fits the cipher; under a file key only the draw of a nonce can then fail.
pub fn encrypt_bytes(public_key: &Key, plaintext: &[u8]) -> (r: Result<(String, Vec<u8>), Error>)
    ensures
        r matches Ok(out) ==> cannot_encrypt(public_key@) is None && out.0@ == encryption_for(public_key@),
        r matches Ok(out) ==> if public_key@.algorithm == DEFAULT_ENCRYPTION_ALGORITHM@ {
            out.1@.len() == plaintext@.len() + 28 && aes_framed(
                public_key@.value,
                out.1@.take(12),
                plaintext@,
            ) == Ok::<Seq<u8>, ErrorV>(out.1@) && forall|other: Seq<u8>| #[trigger]
                altered(out.1@, other) ==> aes_decrypted(public_key@.value, other) is Err
        } else {
            out.1@.len() == plaintext@.len() + 48
        },
        r matches Ok(out) ==> forall|secret: Tagged| #[trigger]
            keys_match(secret, public_key@) ==> decrypted(secret, out.1@) == Ok::<Seq<u8>, ErrorV>(plaintext@),
        cannot_encrypt(public_key@) matches Some(x) ==> r matches Err(e) && e@ == x,
        cannot_encrypt(public_key@) is None ==> (r matches Err(e) ==> encrypt_fault(public_key@, plaintext@, e@)),
        owned(public_key@) && fits_cipher(plaintext@) && public_key@.algorithm != DEFAULT_ENCRYPTION_ALGORITHM@
            ==> r is Ok,
        owned(public_key@) && fits_cipher(plaintext@) ==> (r matches Err(e) ==> e.fault == Fault::Random),
{
    proof {
        lemma_algorithms();
    }
    if same(&public_key.algorithm, DEFAULT_ENCRYPTION_ALGORITHM) {
        if public_key.value.len() != 32 {
            return Err(fail(Fault::CipherKeySize));
        }
        let nonce = match random_bytes(12) {
            Ok(b) => b,
            Err(t) => {
                return Err(fail_with(Fault::Random, t));
            },
        };
        match encrypt_with_nonce(public_key, &nonce, plaintext) {
            Ok(out) => {
                assert(out@.take(12) =~= nonce@);
                Ok((DEFAULT_ENCRYPTION_ALGORITHM.to_owned(), out))
            },
            Err(e) => {
                assert(aes_framed(public_key@.value, nonce@, plaintext@) == Err::<Seq<u8>, ErrorV>(e@));
                Err(e)
            },
        }
    } else if same(&public_key.algorithm, DEFAULT_PASSWORD_ALGORITHM) {
        match derive_public_ed25519_from_argon2id_ed25519(public_key) {
            Ok(point) => match wrap(&point, plaintext) {
                Ok(out) => Ok((WRAP_ALGORITHM.to_owned(), out)),
                Err(e) => {
                    proof {
                        lemma_owner(public_key@, point@.value);
                    }
                    Err(e)
                },
            },
            Err(e) => Err(e),
        }
    } else if same(&public_key.algorithm, DEFAULT_SIGNING_ALGORITHM) {
        match wrap(public_key, plaintext) {
            Ok(out) => Ok((WRAP_ALGORITHM.to_owned(), out)),
            Err(e) => {
                proof {
                    lemma_owner(public_key@, public_key@.value);
                }
                Err(e)
            },
        }
    } else {
        Err(fail(Fault::UnsupportedEncryptionAlgorithm))
    }
}

proof fn lemma_owner(public: Tagged, point: Seq<u8>)
    requires
        public.algorithm == DEFAULT_SIGNING_ALGORITHM@ && point == public.value || public.algorithm
            == DEFAULT_PASSWORD_ALGORITHM@ && password_point(public.value) == Ok::<Seq<u8>, ErrorV>(point),
    ensures
        owned(public) ==> has_secret(point),
{
    lemma_algorithms();
    if owned(public) {
        let secret = choose|secret: Tagged| #[trigger] keys_match(secret, public);
        let seed = if public.algorithm == DEFAULT_SIGNING_ALGORITHM@ {
            secret.value
        } else {
            password_seed(secret.value)->Ok_0
        };
        assert(seed.len() == 32 && ed25519_public(seed) == point);
    }
}

/// Whether an Ed25519 public key was made from a secret key.
pub open spec fn has_secret(point: Seq<u8>) -> bool {
    exists|secret: Seq<u8>| secret.len() == 32 && #[trigger] ed25519_public(secret) == point
}

/// The view of what sealing gave, or of the text of its failure.
pub open spec fn sealed_parts(sealed: Result<(Vec<u8>, Vec<u8>), String>) -> Result<(Seq<u8>, Seq<u8>), Seq<char>> {
    match sealed {
        Ok(s) => Ok((s.0@, s.1@)),
        Err(t) => Err(t@),
    }
}

/// A wrapped text: the encapsulated key, then the ciphertext.
pub open spec fn wrap_framed(sealed: Result<(Seq<u8>, Seq<u8>), Seq<char>>) -> Result<Seq<u8>, ErrorV> {
    match sealed {
        Ok(s) => Ok(s.0 + s.1),
        Err(t) => Err(with(Fault::WrapSeal, t)),
    }
}

/// Makes a wrapped text of what sealing gave.
pub fn join_wrapped(sealed: Result<(Vec<u8>, Vec<u8>), String>) -> (r: Result<Vec<u8>, Error>)
    ensures
        seen(r) == wrap_framed(sealed_parts(sealed)),
{
    match sealed {
        Ok((encapped, ciphertext)) => {
            let mut out = encapped;
            append_bytes(&mut out, &ciphertext);
            Ok(out)
        },
        Err(t) => Err(fail_with(Fault::WrapSeal, t)),
    }
}

fn wrap(point: &Key, plaintext: &[u8]) -> (r: Result<Vec<u8>, Error>)
    ensures
        r matches Ok(out) ==> x25519_of(point@.value) is Ok && out@.len() == plaintext@.len() + 48,
        r matches Ok(out) ==> forall|secret: Seq<u8>|
            secret.len() == 32 && #[trigger] ed25519_public(secret) == point@.value ==> unwrapped(secret, out@)
                == Ok::<Seq<u8>, ErrorV>(plaintext@),
        x25519_of(point@.value) matches Err(x) ==> r matches Err(e) && e@ == x,
        x25519_of(point@.value) is Ok ==> (r matches Err(e) ==> e.fault == Fault::WrapSeal && !(has_secret(point@.value)
            && fits_cipher(plaintext@))),
{
    let public = match derive_public_x25519_from_ed25519(point) {
        Ok(k) => k,
        Err(e) => {
            return Err(e);
        },
    };
    let sealed = hpke_seal(&public.value, "ark-hpke-v1".as_bytes(), plaintext);
    let ghost parts = sealed_parts(sealed);
    proof {
        if has_secret(point@.value) {
            let secret = choose|secret: Seq<u8>|
                secret.len() == 32 && #[trigger] ed25519_public(secret) == point@.value;
            assert(montgomery(ed25519_public(secret)) == Some(public@.value));
        }
    }
    match join_wrapped(sealed) {
        Ok(out) => {
            proof {
                let encapped = parts->Ok_0.0;
                let ciphertext = parts->Ok_0.1;
                assert(out@.take(32) =~= encapped);
                assert(out@.skip(32) =~= ciphertext);
                assert forall|secret: Seq<u8>|
                    secret.len() == 32 && #[trigger] ed25519_public(secret) == point@.value implies unwrapped(
                    secret,
                    out@,
                ) == Ok::<Seq<u8>, ErrorV>(plaintext@) by {
                    assert(montgomery(ed25519_public(secret)) == Some(public@.value));
                }
            }
            Ok(out)
        },
        Err(e) => Err(e),
    }
}

/// The plaintext of a body encrypted under a file key.
pub open spec fn aes_decrypted(key: Seq<u8>, ciphertext: Seq<u8>) -> Result<Seq<u8>, ErrorV> {
    if ciphertext.len() < 12 {
        Err(bare(Fault::CiphertextTooShort))
    } else if key.len() != 32 {
        Err(bare(Fault::CipherSecretKeySize))
    } else {
        match aes_opened(key, ciphertext.take(12), ciphertext.skip(12)) {
            Ok(p) => Ok(p),
            Err(t) => Err(with(Fault::Decrypt, t)),
        }
    }
}

/// What was wrapped for the owner of an Ed25519 secret key.
pub open spec fn unwrapped(secret: Seq<u8>, ciphertext: Seq<u8>) -> Result<Seq<u8>, ErrorV> {
    if ciphertext.len() < 32 {
        Err(bare(Fault::CiphertextTooShort))
    } else {
        match hpke_opened(clamped(secret), ciphertext.take(32), wrap_info(), ciphertext.skip(32)) {
            Ok(p) => Ok(p),
            Err(t) => Err(with(Fault::WrapOpen, t)),
        }
    }
}

/// The plaintext of what was encrypted for the owner of a secret key.
pub open spec fn decrypted(secret: Tagged, ciphertext: Seq<u8>) -> Result<Seq<u8>, ErrorV> {
    if secret.algorithm == DEFAULT_ENCRYPTION_ALGORITHM@ {
        aes_decrypted(secret.value, ciphertext)
    } else if secret.algorithm == DEFAULT_PASSWORD_ALGORITHM@ {
        match password_seed(secret.value) {
            Ok(seed) => unwrapped(seed, ciphertext),
            Err(e) => Err(e),
        }
    } else if secret.algorithm == DEFAULT_SIGNING_ALGORITHM@ || secret.algorithm == WRAP_ALGORITHM@ {
        unwrapped(secret.value, ciphertext)
    } else {
        Err(bare(Fault::UnsupportedEncryptionAlgorithm))
    }
}

/// Decrypts what was encrypted for the owner of a secret key. What a file key decrypts
/// is what encrypting the plaintext under it with the same nonce gives.
pub fn decrypt_bytes(secret_key: &Key, ciphertext: &[u8]) -> (r: Result<Vec<u8>, Error>)
    ensures
        seen(r) == decrypted(secret_key@, ciphertext@),
        r matches Ok(p) ==> secret_key@.algorithm == DEFAULT_ENCRYPTION_ALGORITHM@ ==> ciphertext@.len() == p@.len() + 28
            && (fits_cipher(p@) ==> aes_framed(secret_key@.value, ciphertext@.take(12), p@) == Ok::<Seq<u8>, ErrorV>(
            ciphertext@,
        )),
{
    proof {
        lemma_algorithms();
    }
    if same(&secret_key.algorithm, DEFAULT_ENCRYPTION_ALGORITHM) {
        if ciphertext.len() < 12 {
            return Err(fail(Fault::CiphertextTooShort));
        }
        let (nonce, rest) = ciphertext.split_at(12);
        assert(nonce@ =~= ciphertext@.take(12));
        assert(rest@ =~= ciphertext@.skip(12));
        if secret_key.value.len() != 32 {
            return Err(fail(Fault::CipherSecretKeySize));
        }
        match aes_open(&secret_key.value, nonce, rest) {
            Ok(p) => {
                assert(nonce@ + rest@ =~= ciphertext@);
                Ok(p)
            },
            Err(t) => Err(fail_with(Fault::Decrypt, t)),
        }
    } else if same(&secret_key.algorithm, DEFAULT_PASSWORD_ALGORITHM) {
        match derive_secret_ed25519_from_argon2id_ed25519(secret_key) {
            Ok(seed) => unwrap(&seed.value, ciphertext),
            Err(e) => Err(e),
        }
    } else if same(&secret_key.algorithm, DEFAULT_SIGNING_ALGORITHM) || same(&secret_key.algorithm, WRAP_ALGORITHM) {
        unwrap(&secret_key.value, ciphertext)
    } else {
        Err(fail(Fault::UnsupportedEncryptionAlgorithm))
    }
}

fn unwrap(secret: &[u8], ciphertext: &[u8]) -> (r: Result<Vec<u8>, Error>)
    ensures
        seen(r) == unwrapped(secret@, ciphertext@),
{
    if ciphertext.len() < 32 {
        return Err(fail(Fault::CiphertextTooShort));
    }
    let (encapped, rest) = ciphertext.split_at(32);
    assert(encapped@ =~= ciphertext@.take(32));
    assert(rest@ =~= ciphertext@.skip(32));
    let key = derive_secret_x25519_from_ed25519(secret);
    match hpke_open(&key.value, encapped, "ark-hpke-v1".as_bytes(), rest) {
        Ok(p) => Ok(p),
        Err(t) => Err(fail_with(Fault::WrapOpen, t)),
    }
}

} // verus!
