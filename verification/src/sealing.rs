//! Encrypting and decrypting the bodies of files.

use vstd::prelude::*;

use crate::base64url::{decode_base64url, decoded};
use crate::crypto::{
    aes_decrypted, aes_framed, altered, cannot_encrypt, create_secret_key, decrypt_bytes, decrypted, encrypt_bytes,
    encrypt_fault, has_random_keys, json_signed, keys_match, matching_keys_sign, owned, DEFAULT_ENCRYPTION_ALGORITHM,
};
use crate::error::{bare, fail, fail_with, message_of, seen, with, Error, ErrorV, Fault};
use crate::fields::{
    attribute_fields, byte_pairs, fields_of, has_owner, local_fields, local_of, metadata_of_attributes,
    read_local_metadata_attributes, read_metadata_attributes, Field,
};
use crate::json::metadata_json;
use crate::membership::{
    apply_key_to_metadata, file_key, holds_key, reachable, resolve_key_from_members, wrap_fault,
    wrapped_key_is_recovered, Directory,
};
use crate::metadata::{
    create_metadata, get_member, hash_of, member_at, metadata_verified, new_metadata, sign_metadata, signature_verified,
    unsigned,
};
use crate::permissions::everyone;
use crate::primitives::{canonical_json, fits_cipher, sha256, sha256_of};
use crate::round_trip::{attribute_round_trip, lemma_attribute_name, local_round_trip};
use crate::text::{opt_str, opt_text, same, trim, trimmed, Trim};
use crate::types::{
    no_signature, Context, ContextV, IdentityV, Key, LocalMetadata, LocalV, Member, MemberV, Metadata, MetadataV,
    Permission, Tagged,
};

verus! {

/// The key under which the body of a file is encrypted, as the account finds
/// it.
pub open spec fn body_key(ctx: ContextV, m: MetadataV) -> Result<Tagged, ErrorV> {
    match file_key(ctx, m.members) {
        Err(e) => Err(e),
        Ok(None) => Err(with(Fault::NoKey, ctx.identity.address)),
        Ok(Some(value)) => match m.encryption_algorithm {
            None => Err(bare(Fault::NoAlgorithm)),
            Some(algorithm) => Ok(Tagged { algorithm, value }),
        },
    }
}

/// Finds the key under which the body of a file is encrypted.
pub fn find_body_key(ctx: &Context, metadata: &Metadata) -> (r: Result<Key, Error>)
    requires
        ctx@.identity_key is Some,
    ensures
        seen(r) == body_key(ctx@, metadata@),
{
    let value = match resolve_key_from_members(ctx, &metadata.members) {
        Ok(Some(k)) => k,
        Ok(None) => {
            return Err(fail_with(Fault::NoKey, ctx.identity.address.clone()));
        },
        Err(e) => {
            return Err(e);
        },
    };
    match &metadata.encryption_algorithm {
        Some(algorithm) => Ok(Key { algorithm: algorithm.clone(), value }),
        None => Err(fail(Fault::NoAlgorithm)),
    }
}

/// Whether a text is a body encrypted under a key.
pub open spec fn sealed(key: Tagged, ciphertext: Seq<u8>, plaintext: Seq<u8>) -> bool {
    &&& cannot_encrypt(key) is None
    &&& key.algorithm == DEFAULT_ENCRYPTION_ALGORITHM@ ==> {
        &&& ciphertext.len() == plaintext.len() + 28
        &&& aes_framed(key.value, ciphertext.take(12), plaintext) == Ok::<Seq<u8>, ErrorV>(ciphertext)
        &&& forall|other: Seq<u8>| #[trigger] altered(ciphertext, other) ==> aes_decrypted(key.value, other) is Err
    }
    &&& forall|secret: Tagged| #[trigger]
        keys_match(secret, key) ==> decrypted(secret, ciphertext) == Ok::<Seq<u8>, ErrorV>(plaintext)
}

/// Whether a text is a body encrypted under the key that the account finds.
pub open spec fn sealed_for(ctx: ContextV, m: MetadataV, ciphertext: Seq<u8>, plaintext: Seq<u8>) -> bool {
    body_key(ctx, m) matches Ok(key) && sealed(key, ciphertext, plaintext)
}

/// The plaintext of a body, as the account decrypts it.
pub open spec fn stream_decrypted(ctx: ContextV, m: MetadataV, ciphertext: Seq<u8>) -> Result<Seq<u8>, ErrorV> {
    match body_key(ctx, m) {
        Err(e) => Err(e),
        Ok(key) => match decrypted(key, ciphertext) {
            Ok(plaintext) => Ok(plaintext),
            Err(e) => Err(with(Fault::MaybePlain, message_of(e))),
        },
    }
}

/// Whether a body could not be encrypted with the file key that is wrapped for the
/// account, and why: for want of a key, because the key is no good, or in the cipher.
pub open spec fn stream_fault(ctx: ContextV, m: MetadataV, plaintext: Seq<u8>, e: ErrorV) -> bool {
    match body_key(ctx, m) {
        Err(x) => e == x,
        Ok(key) => match cannot_encrypt(key) {
            Some(x) => e == x,
            None => encrypt_fault(key, plaintext, e),
        },
    }
}

/// Encrypts a body with the file key that is wrapped for the account. The
/// account decrypts the result to the same body.
///
/// The secret key of the account must be there.
pub fn encrypt_stream(ctx: &Context, metadata: &Metadata, plaintext: &[u8]) -> (r: Result<Vec<u8>, Error>)
    requires
        ctx@.identity_key is Some,
    ensures
        r matches Ok(ciphertext) ==> sealed_for(ctx@, metadata@, ciphertext@, plaintext@) && cannot_encrypt(
            body_key(ctx@, metadata@)->Ok_0,
        ) is None,
        r matches Err(e) ==> stream_fault(ctx@, metadata@, plaintext@, e@),
        fits_cipher(plaintext@) && (body_key(ctx@, metadata@) matches Ok(key) && owned(key)) ==> (r matches Err(e)
            ==> e.fault == Fault::Random),
        r matches Ok(ciphertext) ==> metadata@.encryption_algorithm == Some(DEFAULT_ENCRYPTION_ALGORITHM@)
            ==> stream_decrypted(ctx@, metadata@, ciphertext@) == Ok::<Seq<u8>, ErrorV>(plaintext@),
{
    let key = match find_body_key(ctx, metadata) {
        Ok(k) => k,
        Err(e) => {
            return Err(e);
        },
    };
    match encrypt_bytes(&key, plaintext) {
        Ok((algorithm, ciphertext)) => {
            proof {
                if metadata@.encryption_algorithm == Some(DEFAULT_ENCRYPTION_ALGORITHM@) {
                    assert(keys_match(key@, key@));
                }
            }
            Ok(ciphertext)
        },
        Err(e) => Err(e),
    }
}

/// Decrypts a body with the file key that is wrapped for the account.
///
/// The secret key of the account must be there.
pub fn decrypt_stream(ctx: &Context, metadata: &Metadata, ciphertext: &[u8]) -> (r: Result<Vec<u8>, Error>)
    requires
        ctx@.identity_key is Some,
    ensures
        seen(r) == stream_decrypted(ctx@, metadata@, ciphertext@),
{
    let key = match find_body_key(ctx, metadata) {
        Ok(k) => k,
        Err(e) => {
            return Err(e);
        },
    };
    match decrypt_bytes(&key, ciphertext) {
        Ok(plaintext) => Ok(plaintext),
        Err(e) => Err(fail_with(Fault::MaybePlain, e.message())),
    }
}

// Files in place.

/// Whether a file carries metadata.
pub open spec fn carries_id(attributes: Seq<(Seq<char>, Seq<u8>)>) -> bool {
    exists|i: int| 0 <= i < attributes.len() && (#[trigger] attributes[i]).0 == "user.ark.id"@
}

/// Whether a file carries metadata.
pub fn has_id(attributes: &[(String, Vec<u8>)]) -> (r: bool)
    ensures
        r == carries_id(byte_pairs(attributes@)),
{
    let n: usize = attributes.len();
    let mut i: usize = 0;
    while i < n
        invariant
            i <= n == attributes@.len(),
            forall|k: int| 0 <= k < i ==> (#[trigger] byte_pairs(attributes@)[k]).0 != "user.ark.id"@,
        decreases n - i,
    {
        assert(byte_pairs(attributes@)[i as int] == (attributes@[i as int].0@, attributes@[i as int].1@));
        if same(&attributes[i].0, "user.ark.id") {
            return true;
        }
        i = i + 1;
    }
    false
}

/// A file with its metadata, as it is written back.
#[derive(Debug)]
pub struct Rewritten {
    pub metadata: Metadata,
    pub local: LocalMetadata,
    pub body: Vec<u8>,
}

/// The view of a file that is written back.
#[verifier::ext_equal]
pub struct RewrittenV {
    pub metadata: MetadataV,
    pub local: LocalV,
    pub body: Seq<u8>,
}

impl View for Rewritten {
    type V = RewrittenV;

    open spec fn view(&self) -> RewrittenV {
        RewrittenV { metadata: self.metadata@, local: self.local@, body: self.body@ }
    }
}

/// The local metadata of a file whose plaintext is known.
pub open spec fn local_after(encrypted: bool, plaintext: Seq<u8>, m: MetadataV) -> LocalV {
    LocalV { encrypted: Some(encrypted), sync_hash: Some(sha256_of(plaintext)), sync_modified: Some(m.modified) }
}

fn note_local(encrypted: bool, plaintext: &[u8], metadata: &Metadata) -> (r: LocalMetadata)
    ensures
        r@ == local_after(encrypted, plaintext@, metadata@),
{
    LocalMetadata {
        encrypted: Some(encrypted),
        sync_hash: Some(sha256(plaintext)),
        sync_modified: Some(metadata.modified.clone()),
    }
}

/// The algorithm that a file is encrypted with when none is asked for.
pub open spec fn algorithm_or_default(algorithm: Option<Seq<char>>) -> Seq<char> {
    match algorithm {
        Some(a) => a,
        None => DEFAULT_ENCRYPTION_ALGORITHM@,
    }
}

/// Why a file is not encrypted in place, if so.
pub open spec fn encrypt_refused(attributes: Seq<(Seq<char>, Seq<u8>)>, algorithm: Option<Seq<char>>) -> Option<
    ErrorV,
> {
    if carries_id(attributes) && algorithm is Some {
        Some(bare(Fault::AlgorithmFixed))
    } else {
        match local_of(attributes) {
            Err(e) => Some(e),
            Ok(local) => if local.encrypted == Some(true) {
                Some(bare(Fault::AlreadyEncrypted))
            } else if carries_id(attributes) {
                match metadata_of_attributes(attributes) {
                    Err(e) => Some(e),
                    Ok(_) => None,
                }
            } else if !has_random_keys(algorithm_or_default(algorithm)) {
                Some(bare(Fault::UnsupportedAlgorithm))
            } else {
                None
            },
        }
    }
}

/// Whether metadata was made for a file of the account's own, with a file key
/// wrapped for it.
pub open spec fn freshly_keyed(
    ctx: ContextV,
    dir: Seq<(Seq<char>, Result<IdentityV, ErrorV>)>,
    m: MetadataV,
    algorithm: Seq<char>,
    now: Seq<char>,
) -> bool {
    let fresh = new_metadata(m.id, now, ctx.identity.address, Some(algorithm));
    &&& m == MetadataV { members: m.members, ..fresh }
    &&& m.id.len() == 36
    &&& m.members.len() == 1
    &&& m.members[0].address == ctx.identity.address
    &&& m.members[0].permission == Permission::Owner
    &&& exists|key: Seq<u8>| #[trigger] keyed(ctx, dir, m, key)
}

/// Whether the only member of a file holds a file key.
pub open spec fn keyed(
    ctx: ContextV,
    dir: Seq<(Seq<char>, Result<IdentityV, ErrorV>)>,
    m: MetadataV,
    key: Seq<u8>,
) -> bool {
    key.len() == 32 && holds_key(ctx.identity, dir, m.members[0].address, m.members[0].key, key)
}

/// Whether metadata was made for a new file of the account's own, with a file key
/// wrapped for it, and signed for the encrypted body: whoever knows the account by a
/// matching public key accepts it.
pub open spec fn freshly_signed(
    ctx: ContextV,
    dir: Seq<(Seq<char>, Result<IdentityV, ErrorV>)>,
    m: MetadataV,
    algorithm: Seq<char>,
    now: Seq<char>,
    body: Seq<u8>,
) -> bool {
    &&& freshly_keyed(ctx, dir, MetadataV { body_hash: None, signature: no_signature(), ..m }, algorithm, now)
    &&& m.body_hash == hash_of(Some(body))
    &&& json_signed(ctx.identity_key->0, metadata_json(unsigned(m))) == Ok::<Tagged, ErrorV>(m.signature)
    &&& forall|public: Tagged|
        public.algorithm != DEFAULT_ENCRYPTION_ALGORITHM@ && #[trigger] keys_match(ctx.identity_key->0, public)
            ==> signature_verified(public, m) is Ok && metadata_verified(public, m, Some(body)) is Ok
}

/// Whether metadata and a body are those of a new file of the account's own, with the
/// hash of the encrypted body, whatever its signature.
pub open spec fn freshly_sealed(
    ctx: ContextV,
    dir: Seq<(Seq<char>, Result<IdentityV, ErrorV>)>,
    m: MetadataV,
    algorithm: Seq<char>,
    now: Seq<char>,
    body: Seq<u8>,
    plaintext: Seq<u8>,
) -> bool {
    &&& freshly_keyed(ctx, dir, MetadataV { body_hash: None, signature: no_signature(), ..m }, algorithm, now)
    &&& m.body_hash == hash_of(Some(body))
    &&& sealed_for(ctx, m, body, plaintext)
}

/// Whether metadata for a file of the account's own could not be made, and why, where
/// the algorithm has random keys: for want of randomness, or because the file key
/// could not be wrapped for the account.
pub open spec fn new_file_fault(
    ctx: ContextV,
    dir: Seq<(Seq<char>, Result<IdentityV, ErrorV>)>,
    e: ErrorV,
) -> bool {
    e.fault == Fault::Random || exists|key: Seq<u8>|
        key.len() == 32 && #[trigger] wrap_fault(ctx.identity, dir, ctx.identity.address, key, e)
}

/// Whether a body could not be encrypted with the file key of metadata made for it,
/// and why.
pub open spec fn new_stream_fault(
    ctx: ContextV,
    dir: Seq<(Seq<char>, Result<IdentityV, ErrorV>)>,
    algorithm: Seq<char>,
    now: Seq<char>,
    plaintext: Seq<u8>,
    e: ErrorV,
) -> bool {
    exists|m: MetadataV| #[trigger] freshly_keyed(ctx, dir, m, algorithm, now) && stream_fault(ctx, m, plaintext, e)
}

/// Whether a file that carries no metadata could not be encrypted in place, and why:
/// its metadata could not be made, its body not be encrypted, or that very metadata
/// not be signed.
pub open spec fn new_encrypt_fault(
    ctx: ContextV,
    dir: Seq<(Seq<char>, Result<IdentityV, ErrorV>)>,
    algorithm: Seq<char>,
    now: Seq<char>,
    plaintext: Seq<u8>,
    e: ErrorV,
) -> bool {
    ||| new_file_fault(ctx, dir, e)
    ||| new_stream_fault(ctx, dir, algorithm, now, plaintext, e)
    ||| exists|m: MetadataV, body: Seq<u8>| #[trigger]
        freshly_sealed(ctx, dir, m, algorithm, now, body, plaintext) && json_signed(
            ctx.identity_key->0,
            metadata_json(unsigned(m)),
        ) == Err::<Tagged, ErrorV>(e)
}

/// Whether a file is what encrypting it in place comes to: with the metadata that it
/// carries, or with new metadata, the body encrypted under its file key, and the
/// marks of an encrypted file.
pub open spec fn file_encrypted(
    ctx: ContextV,
    dir: Seq<(Seq<char>, Result<IdentityV, ErrorV>)>,
    attributes: Seq<(Seq<char>, Seq<u8>)>,
    plaintext: Seq<u8>,
    algorithm: Option<Seq<char>>,
    now: Seq<char>,
    file: RewrittenV,
) -> bool {
    &&& encrypt_refused(attributes, algorithm) is None
    &&& if carries_id(attributes) {
        metadata_of_attributes(attributes) == Ok::<MetadataV, ErrorV>(file.metadata)
    } else {
        freshly_signed(ctx, dir, file.metadata, algorithm_or_default(algorithm), now, file.body)
    }
    &&& sealed_for(ctx, file.metadata, file.body, plaintext)
    &&& file.local == local_after(true, plaintext, file.metadata)
    &&& file.metadata.encryption_algorithm == Some(DEFAULT_ENCRYPTION_ALGORITHM@) ==> stream_decrypted(
        ctx,
        file.metadata,
        file.body,
    ) == Ok::<Seq<u8>, ErrorV>(plaintext)
}

/// What encrypting a file in place comes to, given its metadata and its encrypted
/// body: new metadata is signed for the body, that of a file which carries some stays
/// as it is.
pub open spec fn encrypted_file(
    ctx: ContextV,
    m: MetadataV,
    fresh: bool,
    plaintext: Seq<u8>,
    body: Seq<u8>,
) -> Result<RewrittenV, ErrorV> {
    if fresh {
        let hashed = MetadataV { body_hash: hash_of(Some(body)), ..m };
        match json_signed(ctx.identity_key->0, metadata_json(unsigned(hashed))) {
            Err(e) => Err(e),
            Ok(signature) => {
                let metadata = MetadataV { signature, ..hashed };
                Ok(RewrittenV { metadata, local: local_after(true, plaintext, metadata), body })
            },
        }
    } else {
        Ok(RewrittenV { metadata: m, local: local_after(true, plaintext, m), body })
    }
}

/// Finishes encrypting a file in place, given its metadata and its encrypted body.
/// Whoever knows the account by a matching public key accepts metadata that is signed
/// here.
///
/// The secret key of the account must be there.
pub fn finish_encrypted(ctx: &Context, metadata: Metadata, fresh: bool, plaintext: &[u8], body: Vec<u8>) -> (r: Result<
    Rewritten,
    Error,
>)
    requires
        ctx@.identity_key is Some,
    ensures
        seen(r) == encrypted_file(ctx@, metadata@, fresh, plaintext@, body@),
        r matches Ok(file) ==> fresh ==> forall|public: Tagged|
            public.algorithm != DEFAULT_ENCRYPTION_ALGORITHM@ && #[trigger] keys_match(ctx@.identity_key->0, public)
                ==> signature_verified(public, file@.metadata) is Ok && metadata_verified(
                public,
                file@.metadata,
                Some(body@),
            ) is Ok,
{
    let mut metadata = metadata;
    if fresh {
        let secret = match &ctx.identity_key {
            Some(k) => k,
            None => {
                return Err(fail(Fault::SecretKeySize));
            },
        };
        let ghost hashed = MetadataV { body_hash: hash_of(Some(body@)), ..metadata@ };
        match sign_metadata(secret, &mut metadata, Some(&body)) {
            Ok(()) => {
                assert(metadata@ =~= MetadataV { signature: metadata@.signature, ..hashed });
                assert(unsigned(metadata@) =~= unsigned(hashed));
            },
            Err(e) => {
                return Err(e);
            },
        }
    }
    let local = note_local(true, plaintext, &metadata);
    Ok(Rewritten { metadata, local, body })
}

/// Encrypts a file in place: with its own file key where it carries metadata,
/// otherwise with a new one, which is wrapped for the account in new metadata that
/// is signed for the encrypted body.
///
/// Where the file key is good, or the account is equipped, and the body fits the
/// cipher, only randomness can be wanting, or the canonical form of new metadata.
/// The secret key of the account must be there.
pub fn encrypt(
    ctx: &Context,
    directory: &Directory,
    attributes: &[(String, Vec<u8>)],
    plaintext: &[u8],
    encryption_algorithm: Option<&str>,
    now: &str,
) -> (r: Result<Rewritten, Error>)
    requires
        ctx@.identity_key is Some,
    ensures
        r matches Ok(file) ==> file_encrypted(
            ctx@,
            directory@,
            byte_pairs(attributes@),
            plaintext@,
            opt_str(encryption_algorithm),
            now@,
            file@,
        ),
        encrypt_refused(byte_pairs(attributes@), opt_str(encryption_algorithm)) matches Some(e) ==> match r {
            Ok(_) => false,
            Err(x) => x@ == e,
        },
        encrypt_refused(byte_pairs(attributes@), opt_str(encryption_algorithm)) is None && carries_id(
            byte_pairs(attributes@),
        ) ==> {
            let m = metadata_of_attributes(byte_pairs(attributes@))->Ok_0;
            r matches Err(e) ==> stream_fault(ctx@, m, plaintext@, e@)
        },
        encrypt_refused(byte_pairs(attributes@), opt_str(encryption_algorithm)) is None && !carries_id(
            byte_pairs(attributes@),
        ) ==> (r matches Err(e) ==> new_encrypt_fault(
            ctx@,
            directory@,
            algorithm_or_default(opt_str(encryption_algorithm)),
            now@,
            plaintext@,
            e@,
        )),
        encrypt_refused(byte_pairs(attributes@), opt_str(encryption_algorithm)) is None && carries_id(
            byte_pairs(attributes@),
        ) && fits_cipher(plaintext@) && (body_key(
            ctx@,
            metadata_of_attributes(byte_pairs(attributes@))->Ok_0,
        ) matches Ok(key) && owned(key)) ==> (r matches Err(e) ==> e.fault == Fault::Random),
        encrypt_refused(byte_pairs(attributes@), opt_str(encryption_algorithm)) is None && !carries_id(
            byte_pairs(attributes@),
        ) && fits_cipher(plaintext@) && equipped(ctx@) && algorithm_or_default(opt_str(encryption_algorithm))
            == DEFAULT_ENCRYPTION_ALGORITHM@ ==> (r matches Err(e) ==> e.fault == Fault::Random || e@ == bare(
            Fault::Canonicalize,
        )),
{
    let has_metadata = has_id(attributes);
    if has_metadata && encryption_algorithm.is_some() {
        return Err(fail(Fault::AlgorithmFixed));
    }
    let local = match read_local_metadata_attributes(attributes) {
        Ok(l) => l,
        Err(e) => {
            return Err(e);
        },
    };
    if local.encrypted == Some(true) {
        return Err(fail(Fault::AlreadyEncrypted));
    }
    let metadata = if has_metadata {
        match read_metadata_attributes(attributes) {
            Ok(m) => m,
            Err(e) => {
                return Err(e);
            },
        }
    } else {
        match new_file(ctx, directory, encryption_algorithm, now) {
            Ok(m) => m,
            Err(e) => {
                proof {
                    if equipped(ctx@) {
                        lemma_equipped(ctx@, directory@);
                    }
                }
                return Err(e);
            },
        }
    };
    let body = match encrypt_stream(ctx, &metadata, plaintext) {
        Ok(b) => b,
        Err(e) => {
            proof {
                let algorithm = algorithm_or_default(opt_str(encryption_algorithm));
                if !has_metadata && equipped(ctx@) && algorithm == DEFAULT_ENCRYPTION_ALGORITHM@ {
                    lemma_fresh_key(ctx@, directory@, metadata@, algorithm, now@);
                }
            }
            return Err(e);
        },
    };
    let ghost keyed_metadata = metadata@;
    let ghost hashed = MetadataV { body_hash: hash_of(Some(body@)), ..keyed_metadata };
    assert(body_key(ctx@, hashed) == body_key(ctx@, keyed_metadata));
    let ghost sent = body@;
    match finish_encrypted(ctx, metadata, !has_metadata, plaintext, body) {
        Ok(file) => {
            proof {
                assert(body_key(ctx@, file@.metadata) == body_key(ctx@, keyed_metadata));
                if !has_metadata {
                    assert(unsigned(file@.metadata) =~= unsigned(hashed));
                    assert(MetadataV { body_hash: None, signature: no_signature(), ..file@.metadata }
                        =~= keyed_metadata);
                }
            }
            Ok(file)
        },
        Err(e) => {
            proof {
                let algorithm = algorithm_or_default(opt_str(encryption_algorithm));
                assert(MetadataV { body_hash: None, signature: no_signature(), ..hashed } =~= keyed_metadata);
                assert(freshly_sealed(ctx@, directory@, hashed, algorithm, now@, sent, plaintext@));
                if equipped(ctx@) {
                    let text = metadata_json(unsigned(hashed));
                    if let Some(bytes) = canonical_json(text) {
                        matching_keys_sign(ctx@.identity_key->0, ctx@.identity.public_key, bytes);
                    }
                }
            }
            Err(e)
        },
    }
}

/// Whether the secret key of the account belongs to its identity, and the
/// identity to one account rather than everyone.
pub open spec fn own_keys(ctx: ContextV) -> bool {
    &&& ctx.identity_key matches Some(secret)
    &&& keys_match(secret, ctx.identity.public_key)
    &&& ctx.identity.address != everyone()
}

/// Whether the account has keys of its own that sign and that file keys can be
/// wrapped for.
pub open spec fn equipped(ctx: ContextV) -> bool {
    &&& own_keys(ctx)
    &&& owned(ctx.identity.public_key)
    &&& ctx.identity.public_key.algorithm != DEFAULT_ENCRYPTION_ALGORITHM@
}

/// Where the account is equipped, only randomness can be wanting for a new file.
pub proof fn lemma_equipped(ctx: ContextV, dir: Seq<(Seq<char>, Result<IdentityV, ErrorV>)>)
    requires
        equipped(ctx),
    ensures
        forall|e: ErrorV| #[trigger] new_file_fault(ctx, dir, e) ==> e.fault == Fault::Random,
{
    assert(reachable(ctx.identity, dir, ctx.identity.address));
}

/// The account finds the new file key of a file of its own.
proof fn lemma_fresh_key(
    ctx: ContextV,
    dir: Seq<(Seq<char>, Result<IdentityV, ErrorV>)>,
    m: MetadataV,
    algorithm: Seq<char>,
    now: Seq<char>,
)
    requires
        freshly_keyed(ctx, dir, m, algorithm, now),
        own_keys(ctx),
        algorithm == DEFAULT_ENCRYPTION_ALGORITHM@,
    ensures
        body_key(ctx, m) matches Ok(key) && cannot_encrypt(key) is None && key.algorithm
            == DEFAULT_ENCRYPTION_ALGORITHM@,
{
    let key = choose|key: Seq<u8>| #[trigger] keyed(ctx, dir, m, key);
    assert(keyed(ctx, dir, m, key));
    assert forall|i: int| 0 <= i < m.members.len() implies holds_key(
        ctx.identity,
        dir,
        (#[trigger] m.members[i]).address,
        m.members[i].key,
        key,
    ) by {
        assert(i == 0);
    }
    assert(member_at(m.members, ctx.identity.address) is Some);
    wrapped_key_is_recovered(ctx, dir, m.members, key);
}

/// Where an account with its own keys encrypts a new file of its own that fits the
/// cipher, only randomness can be wanting.
pub proof fn own_keys_suffice_for_new_files(
    ctx: ContextV,
    dir: Seq<(Seq<char>, Result<IdentityV, ErrorV>)>,
    now: Seq<char>,
    plaintext: Seq<u8>,
    e: ErrorV,
)
    requires
        own_keys(ctx),
        fits_cipher(plaintext),
        new_stream_fault(ctx, dir, DEFAULT_ENCRYPTION_ALGORITHM@, now, plaintext, e),
    ensures
        e.fault == Fault::Random,
{
    let algorithm = DEFAULT_ENCRYPTION_ALGORITHM@;
    let m = choose|m: MetadataV| #[trigger]
        freshly_keyed(ctx, dir, m, algorithm, now) && stream_fault(ctx, m, plaintext, e);
    lemma_fresh_key(ctx, dir, m, algorithm, now);
}

/// New metadata for a file of the account's own, with the given file key. It is made
/// where the account is equipped.
pub fn new_file_with_key(ctx: &Context, directory: &Directory, key: &Key, now: &str) -> (r: Result<Metadata, Error>)
    requires
        key@.value.len() == 32,
    ensures
        match r {
            Ok(m) => freshly_keyed(ctx@, directory@, m@, key@.algorithm, now@) && keyed(
                ctx@,
                directory@,
                m@,
                key@.value,
            ),
            Err(e) => wrap_fault(ctx@.identity, directory@, ctx@.identity.address, key@.value, e@),
        },
        equipped(ctx@) ==> r is Ok,
{
    let mut metadata = create_metadata(&ctx.identity.address, Some(&key.algorithm), now);
    let ghost fresh = metadata@;
    proof {
        if equipped(ctx@) {
            assert(reachable(ctx@.identity, directory@, ctx@.identity.address));
        }
    }
    match apply_key_to_metadata(ctx, directory, &mut metadata, key) {
        Ok(()) => {},
        Err(e) => {
            proof {
                let i = choose|i: int|
                    0 <= i < fresh.members.len() && wrap_fault(
                        ctx@.identity,
                        directory@,
                        (#[trigger] fresh.members[i]).address,
                        key@.value,
                        e@,
                    );
                assert(i == 0);
            }
            return Err(e);
        },
    }
    proof {
        assert(metadata@.members[0].address == fresh.members[0].address);
        assert(keyed(ctx@, directory@, metadata@, key@.value));
    }
    Ok(metadata)
}

/// New metadata for a file of the account's own, with a new file key. Where the
/// account is equipped, only randomness can be wanting.
pub fn new_file(ctx: &Context, directory: &Directory, encryption_algorithm: Option<&str>, now: &str) -> (r: Result<
    Metadata,
    Error,
>)
    ensures
        ({
            let algorithm = algorithm_or_default(opt_str(encryption_algorithm));
            match r {
                Ok(m) => has_random_keys(algorithm) && freshly_keyed(ctx@, directory@, m@, algorithm, now@),
                Err(e) => if !has_random_keys(algorithm) {
                    e@ == bare(Fault::UnsupportedAlgorithm)
                } else {
                    new_file_fault(ctx@, directory@, e@) && (equipped(ctx@) ==> e.fault == Fault::Random)
                },
            }
        }),
{
    let algorithm = match encryption_algorithm {
        Some(a) => a,
        None => DEFAULT_ENCRYPTION_ALGORITHM,
    };
    let key = match create_secret_key(algorithm) {
        Ok(k) => k,
        Err(e) => {
            return Err(e);
        },
    };
    new_file_with_key(ctx, directory, &key, now)
}

/// What decrypting a file in place comes to.
pub open spec fn file_decrypted(
    ctx: ContextV,
    attributes: Seq<(Seq<char>, Seq<u8>)>,
    ciphertext: Seq<u8>,
) -> Result<RewrittenV, ErrorV> {
    if !carries_id(attributes) {
        Err(bare(Fault::NoArkMetadata))
    } else {
        match local_of(attributes) {
            Err(e) => Err(e),
            Ok(local) => if local.encrypted == Some(false) {
                Err(bare(Fault::AlreadyPlain))
            } else {
                match metadata_of_attributes(attributes) {
                    Err(e) => Err(e),
                    Ok(m) => match stream_decrypted(ctx, m, ciphertext) {
                        Err(e) => Err(e),
                        Ok(plaintext) => Ok(
                            RewrittenV { metadata: m, local: local_after(false, plaintext, m), body: plaintext },
                        ),
                    },
                }
            },
        }
    }
}

/// Decrypts a file in place, with its own file key.
///
/// The secret key of the account must be there.
pub fn decrypt(ctx: &Context, attributes: &[(String, Vec<u8>)], ciphertext: &[u8]) -> (r: Result<Rewritten, Error>)
    requires
        ctx@.identity_key is Some,
    ensures
        seen(r) == file_decrypted(ctx@, byte_pairs(attributes@), ciphertext@),
{
    if !has_id(attributes) {
        return Err(fail(Fault::NoArkMetadata));
    }
    let local = match read_local_metadata_attributes(attributes) {
        Ok(l) => l,
        Err(e) => {
            return Err(e);
        },
    };
    if local.encrypted == Some(false) {
        return Err(fail(Fault::AlreadyPlain));
    }
    let metadata = match read_metadata_attributes(attributes) {
        Ok(m) => m,
        Err(e) => {
            return Err(e);
        },
    };
    let body = match decrypt_stream(ctx, &metadata, ciphertext) {
        Ok(b) => b,
        Err(e) => {
            return Err(e);
        },
    };
    let local = note_local(false, &body, &metadata);
    Ok(Rewritten { metadata, local, body })
}

// The command.

/// What the command that decrypts is asked to do.
#[derive(Debug)]
pub struct DecryptArgs {
    /// The file to read, or the standard input.
    pub input: Option<String>,
    /// The file to write, or the standard output.
    pub output: Option<String>,
    /// The file to read and write.
    pub in_place: Option<String>,
    /// The file key, when the file does not carry it.
    pub key: Option<String>,
    /// The algorithm, when the file does not name it.
    pub algorithm: Option<String>,
}

/// The view of what the command is asked to do.
#[verifier::ext_equal]
pub struct DecryptArgsV {
    pub input: Option<Seq<char>>,
    pub output: Option<Seq<char>>,
    pub in_place: Option<Seq<char>>,
    pub key: Option<Seq<char>>,
    pub algorithm: Option<Seq<char>>,
}

impl View for DecryptArgs {
    type V = DecryptArgsV;

    open spec fn view(&self) -> DecryptArgsV {
        DecryptArgsV {
            input: opt_text(self.input),
            output: opt_text(self.output),
            in_place: opt_text(self.in_place),
            key: opt_text(self.key),
            algorithm: opt_text(self.algorithm),
        }
    }
}

impl DecryptArgsV {
    /// The file that is read.
    pub open spec fn source(self) -> Option<Seq<char>> {
        if self.in_place is Some {
            self.in_place
        } else {
            self.input
        }
    }

    /// The file that is written.
    pub open spec fn destination(self) -> Option<Seq<char>> {
        if self.in_place is Some {
            self.in_place
        } else {
            self.output
        }
    }

    /// Whether a file is named that is read or written besides the one that is
    /// rewritten in place.
    pub open spec fn contradictory(self) -> bool {
        self.in_place is Some && (self.input is Some || self.output is Some)
    }

    /// The file key that is given.
    pub open spec fn given_key(self) -> Option<Result<Seq<u8>, ErrorV>> {
        match self.key {
            None => None,
            Some(text) => match decoded(trim(text, Trim::Space)) {
                Some(key) => Some(Ok(key)),
                None => Some(Err(bare(Fault::KeyOption))),
            },
        }
    }
}

impl DecryptArgs {
    /// The file that is read.
    pub fn source(&self) -> (r: Option<String>)
        ensures
            opt_text(r) == self@.source(),
    {
        match &self.in_place {
            Some(p) => Some(p.clone()),
            None => crate::text::copy_opt(&self.input),
        }
    }

    /// The file that is written.
    pub fn destination(&self) -> (r: Option<String>)
        ensures
            opt_text(r) == self@.destination(),
    {
        match &self.in_place {
            Some(p) => Some(p.clone()),
            None => crate::text::copy_opt(&self.output),
        }
    }

    /// Refuses arguments that contradict each other. Nothing is to be read before
    /// this.
    pub fn check(&self) -> (r: Result<(), Error>)
        ensures
            r is Err <==> self@.contradictory(),
            r matches Err(e) ==> e@ == bare(Fault::InPlace),
    {
        if self.in_place.is_some() && (self.input.is_some() || self.output.is_some()) {
            Err(fail(Fault::InPlace))
        } else {
            Ok(())
        }
    }

    fn given_key(&self) -> (r: Option<Result<Vec<u8>, Error>>)
        ensures
            (match r {
                None => None,
                Some(Ok(k)) => Some(Ok(k@)),
                Some(Err(e)) => Some(Err(e@)),
            }) == self@.given_key(),
    {
        match &self.key {
            None => None,
            Some(text) => match decode_base64url(&trimmed(text)) {
                Some(key) => Some(Ok(key)),
                None => Some(Err(fail(Fault::KeyOption))),
            },
        }
    }
}

/// What the command writes.
#[derive(Debug)]
pub struct Decrypted {
    pub metadata: Metadata,
    pub local: LocalMetadata,
    pub plaintext: Vec<u8>,
}

/// The view of what the command writes.
#[verifier::ext_equal]
pub struct DecryptedV {
    pub metadata: MetadataV,
    pub local: LocalV,
    pub plaintext: Seq<u8>,
}

impl View for Decrypted {
    type V = DecryptedV;

    open spec fn view(&self) -> DecryptedV {
        DecryptedV { metadata: self.metadata@, local: self.local@, plaintext: self.plaintext@ }
    }
}

/// Metadata for a ciphertext that carries none, made for the key that is given.
pub open spec fn keyed_metadata(
    address: Seq<char>,
    args: DecryptArgsV,
    key: Seq<u8>,
    now: Seq<char>,
    id: Seq<char>,
) -> MetadataV {
    let algorithm = algorithm_or_default(args.algorithm);
    let fresh = new_metadata(id, now, address, Some(algorithm));
    MetadataV {
        members: seq![
            MemberV {
                address,
                permission: Permission::Owner,
                key: Some(Tagged { algorithm, value: key }),
            },
        ],
        ..fresh
    }
}

/// The metadata of the source: its own, or metadata for the key that is given,
/// with an id.
pub open spec fn source_metadata(
    address: Seq<char>,
    args: DecryptArgsV,
    attributes: Seq<(Seq<char>, Seq<u8>)>,
    now: Seq<char>,
    id: Seq<char>,
) -> Result<MetadataV, ErrorV> {
    if args.source() is Some && carries_id(attributes) {
        metadata_of_attributes(attributes)
    } else {
        match args.given_key() {
            None => Err(bare(Fault::NoKeyAvailable)),
            Some(Err(e)) => Err(e),
            Some(Ok(key)) => Ok(keyed_metadata(address, args, key, now, id)),
        }
    }
}

/// The file key that the command uses: the one that is given, or the one in the
/// account's own entry, which is stored as a file key or wrapped for the account.
pub open spec fn command_key(ctx: ContextV, args: DecryptArgsV, m: MetadataV) -> Result<Seq<u8>, ErrorV> {
    match args.given_key() {
        Some(given) => given,
        None => match member_at(m.members, ctx.identity.address) {
            None => Err(bare(Fault::NoMemberEntry)),
            Some(own) => match own.key {
                None => Err(bare(Fault::NoWrappedKey)),
                Some(held) => if held.algorithm == DEFAULT_ENCRYPTION_ALGORITHM@ {
                    Ok(held.value)
                } else {
                    decrypted(ctx.identity_key->0, held.value)
                },
            },
        },
    }
}

/// The local metadata that the source carries.
pub open spec fn source_local(args: DecryptArgsV, attributes: Seq<(Seq<char>, Seq<u8>)>) -> Result<LocalV, ErrorV> {
    if args.source() is Some && carries_id(attributes) {
        local_of(attributes)
    } else {
        Ok(crate::types::no_local())
    }
}

/// What the command comes to, with an id for the metadata that it may have to
/// make.
pub open spec fn command_outcome(
    ctx: ContextV,
    args: DecryptArgsV,
    attributes: Seq<(Seq<char>, Seq<u8>)>,
    ciphertext: Seq<u8>,
    now: Seq<char>,
    id: Seq<char>,
) -> Result<DecryptedV, ErrorV> {
    if args.contradictory() {
        Err(bare(Fault::InPlace))
    } else {
        match source_metadata(ctx.identity.address, args, attributes, now, id) {
            Err(e) => Err(e),
            Ok(m) => match source_local(args, attributes) {
                Err(e) => Err(e),
                Ok(local) => if local.encrypted == Some(false) {
                    Err(bare(Fault::RefuseDecrypt))
                } else {
                    match command_key(ctx, args, m) {
                        Err(e) => Err(e),
                        Ok(key) => match m.encryption_algorithm {
                            None => Err(bare(Fault::NoAlgorithm)),
                            Some(algorithm) => match decrypted(Tagged { algorithm, value: key }, ciphertext) {
                                Err(e) => Err(with(Fault::MaybePlain, message_of(e))),
                                Ok(plaintext) => Ok(
                                    DecryptedV { metadata: m, local: local_after(false, plaintext, m), plaintext },
                                ),
                            },
                        },
                    }
                },
            },
        }
    }
}

fn find_source_metadata(
    address: &str,
    args: &DecryptArgs,
    attributes: &[(String, Vec<u8>)],
    now: &str,
) -> (r: (Result<Metadata, Error>, Ghost<Seq<char>>))
    ensures
        seen(r.0) == source_metadata(address@, args@, byte_pairs(attributes@), now@, r.1@),
{
    if args.source().is_some() && has_id(attributes) {
        return (read_metadata_attributes(attributes), Ghost(Seq::empty()));
    }
    match args.given_key() {
        None => (Err(fail(Fault::NoKeyAvailable)), Ghost(Seq::empty())),
        Some(Err(e)) => (Err(e), Ghost(Seq::empty())),
        Some(Ok(key)) => {
            let algorithm = match &args.algorithm {
                Some(a) => a.as_str(),
                None => DEFAULT_ENCRYPTION_ALGORITHM,
            };
            let mut metadata = create_metadata(address, Some(algorithm), now);
            let ghost id = metadata@.id;
            let held = Key { algorithm: algorithm.to_owned(), value: key };
            let ghost secret = held@;
            let mut members: Vec<Member> = Vec::new();
            members.push(Member { address: address.to_owned(), permission: Permission::Owner, key: Some(held) });
            metadata.members = members;
            proof {
                let expected = keyed_metadata(address@, args@, secret.value, now@, id);
                assert(metadata@.members =~= expected.members);
                assert(metadata@ =~= expected);
            }
            (Ok(metadata), Ghost(id))
        },
    }
}

fn find_command_key(ctx: &Context, args: &DecryptArgs, metadata: &Metadata) -> (r: Result<Vec<u8>, Error>)
    requires
        ctx@.identity_key is Some,
    ensures
        seen(r) == command_key(ctx@, args@, metadata@),
{
    if let Some(given) = args.given_key() {
        return given;
    }
    let own = match get_member(&metadata.members, &ctx.identity.address) {
        Some(m) => m,
        None => {
            return Err(fail(Fault::NoMemberEntry));
        },
    };
    match (&own.key, &ctx.identity_key) {
        (Some(held), Some(secret)) => if same(&held.algorithm, DEFAULT_ENCRYPTION_ALGORITHM) {
            Ok(crate::text::copy_bytes(&held.value))
        } else {
            decrypt_bytes(secret, &held.value)
        },
        _ => Err(fail(Fault::NoWrappedKey)),
    }
}

/// Decrypts for the command: with the key that is given, or with the one that the
/// source carries for the account.
///
/// The secret key of the account must be there.
pub fn cmd_decrypt(
    ctx: &Context,
    args: &DecryptArgs,
    attributes: &[(String, Vec<u8>)],
    ciphertext: &[u8],
    now: &str,
) -> (r: Result<Decrypted, Error>)
    requires
        ctx@.identity_key is Some,
    ensures
        exists|id: Seq<char>|
            seen(r) == #[trigger] command_outcome(ctx@, args@, byte_pairs(attributes@), ciphertext@, now@, id),
{
    let ghost none = Seq::<char>::empty();
    if let Err(e) = args.check() {
        assert(command_outcome(ctx@, args@, byte_pairs(attributes@), ciphertext@, now@, none) == Err::<
            DecryptedV,
            ErrorV,
        >(e@));
        return Err(e);
    }
    let (found, Ghost(id)) = find_source_metadata(&ctx.identity.address, args, attributes, now);
    let ghost outcome = command_outcome(ctx@, args@, byte_pairs(attributes@), ciphertext@, now@, id);
    let metadata = match found {
        Ok(m) => m,
        Err(e) => {
            assert(outcome == Err::<DecryptedV, ErrorV>(e@));
            return Err(e);
        },
    };
    if args.source().is_some() && has_id(attributes) {
        match read_local_metadata_attributes(attributes) {
            Ok(local) => {
                if local.encrypted == Some(false) {
                    let e = fail(Fault::RefuseDecrypt);
                    assert(outcome == Err::<DecryptedV, ErrorV>(e@));
                    return Err(e);
                }
            },
            Err(e) => {
                assert(outcome == Err::<DecryptedV, ErrorV>(e@));
                return Err(e);
            },
        }
    }
    let value = match find_command_key(ctx, args, &metadata) {
        Ok(k) => k,
        Err(e) => {
            assert(outcome == Err::<DecryptedV, ErrorV>(e@));
            return Err(e);
        },
    };
    let algorithm = match &metadata.encryption_algorithm {
        Some(a) => a.clone(),
        None => {
            let e = fail(Fault::NoAlgorithm);
            assert(outcome == Err::<DecryptedV, ErrorV>(e@));
            return Err(e);
        },
    };
    match decrypt_bytes(&Key { algorithm, value }, ciphertext) {
        Ok(plaintext) => {
            let local = note_local(false, &plaintext, &metadata);
            let r = Decrypted { metadata, local, plaintext };
            assert(outcome == Ok::<DecryptedV, ErrorV>(r@));
            Ok(r)
        },
        Err(e) => {
            let x = fail_with(Fault::MaybePlain, e.message());
            assert(outcome == Err::<DecryptedV, ErrorV>(x@));
            Err(x)
        },
    }
}

// Laws.

/// A body that was encrypted with the file key of its metadata is decrypted to the
/// same body again, and is longer than it by the nonce and the tag.
pub proof fn bodies_are_decrypted_again(ctx: ContextV, m: MetadataV, plaintext: Seq<u8>, ciphertext: Seq<u8>)
    requires
        sealed_for(ctx, m, ciphertext, plaintext),
        m.encryption_algorithm == Some(DEFAULT_ENCRYPTION_ALGORITHM@),
    ensures
        stream_decrypted(ctx, m, ciphertext) == Ok::<Seq<u8>, ErrorV>(plaintext),
        ciphertext.len() == plaintext.len() + 28,
{
    let key = body_key(ctx, m)->Ok_0;
    assert(keys_match(key, key));
}

/// A body that was encrypted with the file key of its metadata is refused once its
/// nonce or its tag was changed.
pub proof fn altered_bodies_are_refused(
    ctx: ContextV,
    m: MetadataV,
    plaintext: Seq<u8>,
    ciphertext: Seq<u8>,
    other: Seq<u8>,
)
    requires
        sealed_for(ctx, m, ciphertext, plaintext),
        m.encryption_algorithm == Some(DEFAULT_ENCRYPTION_ALGORITHM@),
        altered(ciphertext, other),
    ensures
        stream_decrypted(ctx, m, other) matches Err(e) && e.fault == Fault::MaybePlain,
{
}

/// The attributes of a file once metadata and local metadata were written beside
/// attributes of others.
pub open spec fn stored_attributes(others: Seq<(Seq<char>, Seq<u8>)>, m: MetadataV, local: LocalV) -> Seq<
    (Seq<char>, Seq<u8>),
> {
    others + attribute_fields(m) + local_fields(local)
}

/// Whether attributes are neither metadata nor local metadata.
pub open spec fn unrelated(others: Seq<(Seq<char>, Seq<u8>)>) -> bool {
    forall|i: int|
        0 <= i < others.len() ==> !"user.ark."@.is_prefix_of((#[trigger] others[i]).0)
            && !"user.ark_local."@.is_prefix_of(others[i].0)
}

/// Encrypting a stored file and decrypting it again gives back its body and its
/// metadata, with the marks of a plain file; decrypting it once more is refused.
pub proof fn encrypting_is_undone(
    ctx: ContextV,
    dir: Seq<(Seq<char>, Result<IdentityV, ErrorV>)>,
    others: Seq<(Seq<char>, Seq<u8>)>,
    m: MetadataV,
    local: LocalV,
    plaintext: Seq<u8>,
    now: Seq<char>,
    file: RewrittenV,
)
    requires
        unrelated(others),
        has_owner(m.members),
        m.members.len() <= usize::MAX,
        m.encryption_algorithm == Some(DEFAULT_ENCRYPTION_ALGORITHM@),
        file_encrypted(ctx, dir, stored_attributes(others, m, local), plaintext, None, now, file),
    ensures
        file.metadata == m,
        file_decrypted(ctx, stored_attributes(others, m, file.local), file.body) == Ok::<RewrittenV, ErrorV>(
            RewrittenV { metadata: m, local: local_after(false, plaintext, m), body: plaintext },
        ),
        file_decrypted(ctx, stored_attributes(others, m, local_after(false, plaintext, m)), plaintext) == Err::<
            RewrittenV,
            ErrorV,
        >(bare(Fault::AlreadyPlain)),
{
    lemma_stored(others, m, local);
    lemma_stored(others, m, file.local);
    lemma_stored(others, m, local_after(false, plaintext, m));
}

/// A new file that was encrypted is decrypted to its body again, with the metadata
/// that was made for it.
pub proof fn encrypting_a_new_file_is_undone(
    ctx: ContextV,
    dir: Seq<(Seq<char>, Result<IdentityV, ErrorV>)>,
    others: Seq<(Seq<char>, Seq<u8>)>,
    plaintext: Seq<u8>,
    now: Seq<char>,
    file: RewrittenV,
)
    requires
        unrelated(others),
        file_encrypted(ctx, dir, others, plaintext, None, now, file),
    ensures
        file_decrypted(ctx, stored_attributes(others, file.metadata, file.local), file.body) == Ok::<
            RewrittenV,
            ErrorV,
        >(RewrittenV { metadata: file.metadata, local: local_after(false, plaintext, file.metadata), body: plaintext }),
{
    lemma_prefixes();
    assert(!carries_id(others)) by {
        if carries_id(others) {
            let i = choose|i: int| 0 <= i < others.len() && (#[trigger] others[i]).0 == "user.ark.id"@;
            assert(!"user.ark."@.is_prefix_of(others[i].0));
        }
    }
    assert(has_owner(file.metadata.members)) by {
        assert(file.metadata.members[0].permission == Permission::Owner);
    }
    lemma_stored(others, file.metadata, file.local);
}

proof fn lemma_prefixes()
    ensures
        "user.ark."@.is_prefix_of("user.ark.id"@),
        forall|s: Seq<char>| !("user.ark."@.is_prefix_of(s) && #[trigger] "user.ark_local."@.is_prefix_of(s)),
{
    reveal_strlit("user.ark.");
    reveal_strlit("user.ark_local.");
    reveal_strlit("user.ark.id");
    assert("user.ark."@[8] != "user.ark_local."@[8]);
    assert forall|s: Seq<char>| !("user.ark."@.is_prefix_of(s) && #[trigger] "user.ark_local."@.is_prefix_of(s)) by {
        if "user.ark."@.is_prefix_of(s) && "user.ark_local."@.is_prefix_of(s) {
            assert(s.subrange(0, "user.ark."@.len() as int)[8] == s[8]);
            assert(s.subrange(0, "user.ark_local."@.len() as int)[8] == s[8]);
        }
    }
}

/// What was written to the attributes of a file is read back.
proof fn lemma_stored(others: Seq<(Seq<char>, Seq<u8>)>, m: MetadataV, local: LocalV)
    requires
        unrelated(others),
        has_owner(m.members),
        m.members.len() <= usize::MAX,
    ensures
        carries_id(stored_attributes(others, m, local)),
        metadata_of_attributes(stored_attributes(others, m, local)) == Ok::<MetadataV, ErrorV>(m),
        local_of(stored_attributes(others, m, local)) == Ok::<LocalV, ErrorV>(local),
{
    let list = stored_attributes(others, m, local);
    let own = attribute_fields(m);
    let marks = local_fields(local);
    let n = others.len() as int;
    let k = own.len() as int;
    lemma_prefixes();
    lemma_written_names(m, local);
    assert forall|j: int| 0 <= j < list.len() implies (!"user.ark."@.is_prefix_of((#[trigger] list[j]).0)
        || own.contains(list[j])) && (!"user.ark_local."@.is_prefix_of(list[j].0) || marks.contains(list[j])) by {
        if j < n {
            assert(list[j] == others[j]);
        } else if j < n + k {
            assert(list[j] == own[j - n]);
        } else {
            assert(list[j] == marks[j - n - k]);
        }
    }
    assert forall|i: int| 0 <= i < own.len() implies list.contains(#[trigger] own[i]) by {
        assert(list[n + i] == own[i]);
    }
    assert forall|i: int| 0 <= i < marks.len() implies list.contains(#[trigger] marks[i]) by {
        assert(list[n + k + i] == marks[i]);
    }
    attribute_round_trip(m, list);
    local_round_trip(local, list);
    assert(list[n] == own[0]);
    assert(own[0].0 == "user.ark.id"@);
}

proof fn lemma_written_names(m: MetadataV, local: LocalV)
    ensures
        attribute_fields(m).len() > 0,
        attribute_fields(m)[0].0 == "user.ark.id"@,
        forall|i: int| 0 <= i < attribute_fields(m).len() ==> "user.ark."@.is_prefix_of((#[trigger] attribute_fields(m)[i]).0),
        forall|i: int|
            0 <= i < local_fields(local).len() ==> "user.ark_local."@.is_prefix_of((#[trigger] local_fields(local)[i]).0),
{
    assert(fields_of(m)[0].0 == Field::Id);
    assert forall|i: int| 0 <= i < attribute_fields(m).len() implies "user.ark."@.is_prefix_of(
        (#[trigger] attribute_fields(m)[i]).0,
    ) by {
        lemma_attribute_name(fields_of(m)[i].0);
    }
    reveal_strlit("user.ark_local.");
    reveal_strlit("user.ark_local.encrypted");
    reveal_strlit("user.ark_local.sync_hash");
    reveal_strlit("user.ark_local.sync_modified");
}

} // verus!
