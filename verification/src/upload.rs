//! Uploading files.

use vstd::prelude::*;

use crate::auth::{ark_request, ark_request_bytes, signature_holds, signing_bytes, CallV};
use crate::crypto::{
    cannot_encrypt, create_secret_key, encrypt_bytes, encrypt_fault, has_random_keys, json_signed, keys_match,
    matching_keys_sign, DEFAULT_ENCRYPTION_ALGORITHM, DEFAULT_PASSWORD_ALGORITHM, DEFAULT_SIGNING_ALGORITHM,
};
use crate::error::{bare, fail, seen, Error, ErrorV, Fault};
use crate::fields::{
    byte_pairs, header_fields, local_of, metadata_of_attributes, read_local_metadata_attributes,
    read_metadata_attributes, write_metadata_headers,
};
use crate::http::host_header;
use crate::json::metadata_json;
use crate::locate::{client_url, resolve_client_url};
use crate::membership::{
    apply_key_to_metadata, apply_permissions, file_key, holds_key, identity_at, join_fault, joined, key_fault,
    reachable, resolve_key_from_members, Directory,
};
use crate::metadata::{
    create_metadata, get_member, hash_of, member_at, metadata_verified, new_metadata, opt_body, sign_metadata,
    signature_verified, unsigned,
};
use crate::permissions::changed;
use crate::primitives::{canonical_json, fits_cipher, sha256, sha256_of, UrlParts, UrlPartsV};
use crate::sealing::{
    algorithm_or_default, body_key, carries_id, equipped, find_body_key, has_id, own_keys, sealed, stream_decrypted,
};
use crate::text::{opt_bytes, opt_str, same};
use crate::types::{
    members_view, no_local, no_permissions, Context, ContextV, IdentityV, Key, LocalMetadata, LocalV, Member, MemberV,
    Metadata, MetadataV, Permissions, PermissionsV, Tagged,
};

verus! {

// What is uploaded.

/// The algorithm that an uploaded file is encrypted with: as asked for, as
/// before or the default, and none for a directory or where `none` is asked for.
pub open spec fn upload_algorithm(
    is_dir: bool,
    algorithm: Option<Seq<char>>,
    existing: Option<MetadataV>,
) -> Option<Seq<char>> {
    if is_dir || algorithm == Some("none"@) {
        None
    } else {
        match existing {
            Some(m) => match algorithm {
                Some(a) => Some(a),
                None => m.encryption_algorithm,
            },
            None => Some(algorithm_or_default(algorithm)),
        }
    }
}

/// Why nothing is uploaded, if so, before the members are looked at.
pub open spec fn upload_refused(
    address: Seq<char>,
    is_dir: bool,
    algorithm: Option<Seq<char>>,
    existing: Option<MetadataV>,
    metadata_only: bool,
) -> Option<ErrorV> {
    if is_dir && algorithm is Some {
        Some(bare(Fault::AlgorithmForDirectory))
    } else if metadata_only && algorithm is Some {
        Some(bare(Fault::AlgorithmForMetadata))
    } else if metadata_only && existing is None {
        Some(bare(Fault::MetadataOnly))
    } else if existing matches Some(m) && member_at(m.members, address) is None {
        Some(bare(Fault::NoMemberDenied))
    } else {
        None
    }
}

/// The metadata that an upload starts from: what is there, or new metadata with
/// an id, with the algorithm of the upload.
pub open spec fn upload_base(
    address: Seq<char>,
    is_dir: bool,
    algorithm: Option<Seq<char>>,
    existing: Option<MetadataV>,
    now: Seq<char>,
    id: Seq<char>,
) -> MetadataV {
    let encryption_algorithm = upload_algorithm(is_dir, algorithm, existing);
    match existing {
        Some(m) => MetadataV { encryption_algorithm, ..m },
        None => new_metadata(id, now, address, encryption_algorithm),
    }
}

/// The view of optional metadata.
pub open spec fn seen_metadata(m: Option<Metadata>) -> Option<MetadataV> {
    match m {
        Some(metadata) => Some(metadata@),
        None => None,
    }
}

/// The view of optional local metadata.
pub open spec fn seen_local(l: Option<LocalMetadata>) -> LocalV {
    match l {
        Some(local) => local@,
        None => no_local(),
    }
}

fn start(
    address: &str,
    is_dir: bool,
    encryption_algorithm: Option<&str>,
    existing_metadata: Option<Metadata>,
    metadata_only: bool,
    now: &str,
) -> (r: Result<Metadata, Error>)
    ensures
        upload_refused(
            address@,
            is_dir,
            opt_str(encryption_algorithm),
            seen_metadata(existing_metadata),
            metadata_only,
        ) matches Some(e) ==> r matches Err(x) && x@ == e,
        upload_refused(
            address@,
            is_dir,
            opt_str(encryption_algorithm),
            seen_metadata(existing_metadata),
            metadata_only,
        ) is None ==> (r matches Ok(m) && m@ == upload_base(
            address@,
            is_dir,
            opt_str(encryption_algorithm),
            seen_metadata(existing_metadata),
            now@,
            m@.id,
        )),
{
    if is_dir && encryption_algorithm.is_some() {
        return Err(fail(Fault::AlgorithmForDirectory));
    }
    if metadata_only && encryption_algorithm.is_some() {
        return Err(fail(Fault::AlgorithmForMetadata));
    }
    let none = match encryption_algorithm {
        Some(a) => same(a, "none"),
        None => false,
    };
    let ghost existing = seen_metadata(existing_metadata);
    match existing_metadata {
        Some(m) => {
            let mut metadata = m;
            if let Some(a) = encryption_algorithm {
                metadata.encryption_algorithm = Some(a.to_owned());
            }
            if get_member(&metadata.members, address).is_none() {
                return Err(fail(Fault::NoMemberDenied));
            }
            if is_dir || none {
                metadata.encryption_algorithm = None;
            }
            assert(metadata@ =~= upload_base(
                address@,
                is_dir,
                opt_str(encryption_algorithm),
                existing,
                now@,
                metadata@.id,
            ));
            Ok(metadata)
        },
        None => {
            if metadata_only {
                return Err(fail(Fault::MetadataOnly));
            }
            let wanted: Option<&str> = if is_dir || none {
                None
            } else {
                match encryption_algorithm {
                    Some(a) => Some(a),
                    None => Some(DEFAULT_ENCRYPTION_ALGORITHM),
                }
            };
            Ok(create_metadata(address, wanted, now))
        },
    }
}

// The body.

/// Members without their keys.
pub open spec fn keyless(members: Seq<MemberV>) -> Seq<MemberV> {
    members.map_values(|m: MemberV| MemberV { key: None, ..m })
}

/// Whether two lists have the same members in the same roles, whatever keys
/// they hold.
pub open spec fn same_roles(a: Seq<MemberV>, b: Seq<MemberV>) -> bool {
    keyless(a) == keyless(b)
}

/// Whether every member holds a file key.
pub open spec fn all_hold(
    own: IdentityV,
    dir: Seq<(Seq<char>, Result<IdentityV, ErrorV>)>,
    members: Seq<MemberV>,
    key: Seq<u8>,
) -> bool {
    &&& key.len() == 32
    &&& forall|i: int|
        0 <= i < members.len() ==> holds_key(own, dir, (#[trigger] members[i]).address, members[i].key, key)
}

/// Whether a body is encrypted under a file key that every member holds, so that
/// the account, where it has its own keys, finds that key and decrypts it.
pub open spec fn sealed_with(
    ctx: ContextV,
    dir: Seq<(Seq<char>, Result<IdentityV, ErrorV>)>,
    m: MetadataV,
    key: Tagged,
    body: Seq<u8>,
    plaintext: Seq<u8>,
) -> bool {
    &&& m.encryption_algorithm == Some(key.algorithm)
    &&& all_hold(ctx.identity, dir, m.members, key.value)
    &&& sealed(key, body, plaintext)
    &&& body_key(ctx, m) is Ok
    &&& own_keys(ctx) && key.algorithm == DEFAULT_ENCRYPTION_ALGORITHM@ ==> body_key(ctx, m) == Ok::<Tagged, ErrorV>(key)
        && stream_decrypted(ctx, m, body) == Ok::<Seq<u8>, ErrorV>(plaintext)
}

/// Whether the members and body of an upload are right for a plaintext: as they
/// are where the body is not encrypted now, otherwise with a file key that every
/// member holds.
pub open spec fn body_uploaded(
    ctx: ContextV,
    dir: Seq<(Seq<char>, Result<IdentityV, ErrorV>)>,
    list: Seq<MemberV>,
    already_encrypted: bool,
    plaintext: Seq<u8>,
    m: MetadataV,
    body: Seq<u8>,
) -> bool {
    if m.encryption_algorithm is None {
        m.members == keyless(list) && body == plaintext
    } else if already_encrypted {
        m.members == list && body == plaintext
    } else {
        &&& same_roles(m.members, list)
        &&& exists|key: Tagged| #[trigger] sealed_with(ctx, dir, m, key, body, plaintext)
    }
}

/// The file key with given bytes.
pub open spec fn key_with(algorithm: Option<Seq<char>>, value: Seq<u8>) -> Tagged {
    Tagged { algorithm: algorithm->0, value }
}

/// Whether the members and body of an upload are right for a plaintext and what
/// the draw of a new file key gave: where the body is encrypted now, it is under
/// the drawn key, and that is the key that every member holds.
pub open spec fn body_uploaded_with(
    ctx: ContextV,
    dir: Seq<(Seq<char>, Result<IdentityV, ErrorV>)>,
    list: Seq<MemberV>,
    already_encrypted: bool,
    plaintext: Seq<u8>,
    drawn: Result<Seq<u8>, ErrorV>,
    m: MetadataV,
    body: Seq<u8>,
) -> bool {
    if m.encryption_algorithm is None || already_encrypted {
        body_uploaded(ctx, dir, list, already_encrypted, plaintext, m, body)
    } else {
        &&& same_roles(m.members, list)
        &&& drawn matches Ok(value)
        &&& sealed_with(ctx, dir, m, key_with(m.encryption_algorithm, value), body, plaintext)
    }
}

/// Whether metadata of a file with this algorithm has these members, with this file
/// key wrapped for each of them.
pub open spec fn keyed_for(
    ctx: ContextV,
    dir: Seq<(Seq<char>, Result<IdentityV, ErrorV>)>,
    list: Seq<MemberV>,
    algorithm: Option<Seq<char>>,
    key: Seq<u8>,
    m: MetadataV,
) -> bool {
    &&& m.encryption_algorithm == algorithm
    &&& same_roles(m.members, list)
    &&& all_hold(ctx.identity, dir, m.members, key)
}

/// Whether a body could not be encrypted with a file key, and why: the key has the
/// wrong size, some member cannot be given it, the account does not find it in what
/// this made of the members, or the key or the cipher is no good.
pub open spec fn seal_fault(
    ctx: ContextV,
    dir: Seq<(Seq<char>, Result<IdentityV, ErrorV>)>,
    list: Seq<MemberV>,
    algorithm: Option<Seq<char>>,
    key: Tagged,
    plaintext: Seq<u8>,
    e: ErrorV,
) -> bool {
    if key.value.len() != 32 {
        e == bare(Fault::CipherKeySize)
    } else {
        ||| key_fault(ctx.identity, dir, list, key.value, e)
        ||| exists|m: MetadataV| #[trigger]
            keyed_for(ctx, dir, list, algorithm, key.value, m) && (match body_key(ctx, m) {
                Err(x) => e == x,
                Ok(_) => match cannot_encrypt(key) {
                    Some(x) => e == x,
                    None => encrypt_fault(key, plaintext, e),
                },
            })
    }
}

/// Whether the body of an upload could not be encrypted, and why, given what the
/// draw of a new file key gave.
pub open spec fn body_fault(
    ctx: ContextV,
    dir: Seq<(Seq<char>, Result<IdentityV, ErrorV>)>,
    list: Seq<MemberV>,
    algorithm: Option<Seq<char>>,
    drawn: Result<Seq<u8>, ErrorV>,
    plaintext: Seq<u8>,
    e: ErrorV,
) -> bool {
    match drawn {
        Err(x) => e == x,
        Ok(value) => seal_fault(ctx, dir, list, algorithm, key_with(algorithm, value), plaintext, e),
    }
}

/// Whether this is what the draw of a new file key may give.
pub open spec fn may_be_drawn(algorithm: Seq<char>, drawn: Result<Seq<u8>, ErrorV>) -> bool {
    match drawn {
        Ok(value) => has_random_keys(algorithm) && value.len() == 32,
        Err(e) => if has_random_keys(algorithm) {
            e.fault == Fault::Random
        } else {
            e == bare(Fault::UnsupportedAlgorithm)
        },
    }
}

fn drop_keys(members: &mut Vec<Member>)
    ensures
        members_view(final(members)@) == keyless(members_view(old(members)@)),
{
    let n: usize = members.len();
    let mut i: usize = 0;
    let ghost before = members_view(members@);
    while i < n
        invariant
            i <= n == members@.len() == before.len(),
            forall|k: int| 0 <= k < i ==> #[trigger] members_view(members@)[k] == keyless(before)[k],
            forall|k: int| i <= k < n ==> #[trigger] members_view(members@)[k] == before[k],
        decreases n - i,
    {
        let ghost earlier = members_view(members@);
        assert(earlier[i as int] == before[i as int]);
        members[i].key = None;
        assert(members_view(members@) =~= earlier.update(i as int, keyless(before)[i as int]));
        i = i + 1;
    }
    assert(members_view(members@) =~= keyless(before));
}

proof fn lemma_roles(a: Seq<MemberV>, b: Seq<MemberV>, address: Seq<char>)
    requires
        a.len() == b.len(),
        forall|i: int| 0 <= i < a.len() ==> (#[trigger] a[i]).address == b[i].address && a[i].permission == b[i].permission,
    ensures
        same_roles(a, b),
        member_at(a, address) is Some <==> member_at(b, address) is Some,
    decreases a.len(),
{
    assert(keyless(a) =~= keyless(b)) by {
        assert forall|i: int| 0 <= i < a.len() implies #[trigger] keyless(a)[i] == keyless(b)[i] by {
            assert(a[i].address == b[i].address);
        }
    }
    if a.len() > 0 {
        assert(a[0].address == b[0].address);
        let x = a.skip(1);
        let y = b.skip(1);
        assert forall|i: int| 0 <= i < x.len() implies (#[trigger] x[i]).address == y[i].address && x[i].permission
            == y[i].permission by {
            assert(x[i] == a[i + 1] && y[i] == b[i + 1]);
        }
        lemma_roles(x, y, address);
    }
}

proof fn lemma_own_key(
    ctx: ContextV,
    dir: Seq<(Seq<char>, Result<IdentityV, ErrorV>)>,
    m: MetadataV,
    key: Seq<u8>,
)
    requires
        own_keys(ctx),
        member_at(m.members, ctx.identity.address) is Some,
        all_hold(ctx.identity, dir, m.members, key),
        m.encryption_algorithm == Some(DEFAULT_ENCRYPTION_ALGORITHM@),
    ensures
        body_key(ctx, m) == Ok::<Tagged, ErrorV>(Tagged { algorithm: DEFAULT_ENCRYPTION_ALGORITHM@, value: key }),
        cannot_encrypt(Tagged { algorithm: DEFAULT_ENCRYPTION_ALGORITHM@, value: key }) is None,
{
    crate::membership::wrapped_key_is_recovered(ctx, dir, m.members, key);
}

/// Encrypts a body with a file key that is wrapped for every member: each of them
/// holds this key afterwards and no other.
///
/// The secret key of the account must be there.
pub fn seal_body_with(
    ctx: &Context,
    directory: &Directory,
    metadata: &mut Metadata,
    key: &Key,
    plaintext: &[u8],
) -> (r: Result<Vec<u8>, Error>)
    requires
        ctx@.identity_key is Some,
    ensures
        final(metadata)@ == (MetadataV { members: final(metadata)@.members, ..old(metadata)@ }),
        same_roles(final(metadata)@.members, old(metadata)@.members),
        r matches Ok(body) ==> all_hold(ctx@.identity, directory@, final(metadata)@.members, key@.value) && sealed(
            key@,
            body@,
            plaintext@,
        ),
        r matches Ok(body) ==> old(metadata)@.encryption_algorithm == Some(key@.algorithm) ==> sealed_with(
            ctx@,
            directory@,
            final(metadata)@,
            key@,
            body@,
            plaintext@,
        ),
        r matches Err(e) ==> seal_fault(
            ctx@,
            directory@,
            old(metadata)@.members,
            old(metadata)@.encryption_algorithm,
            key@,
            plaintext@,
            e@,
        ),
{
    let ghost before = metadata@;
    if key.value.len() != 32 {
        return Err(fail(Fault::CipherKeySize));
    }
    match apply_key_to_metadata(ctx, directory, metadata, key) {
        Ok(()) => {},
        Err(e) => {
            proof {
                lemma_roles(metadata@.members, before.members, ctx@.identity.address);
            }
            return Err(e);
        },
    }
    proof {
        lemma_roles(metadata@.members, before.members, ctx@.identity.address);
        assert(all_hold(ctx@.identity, directory@, metadata@.members, key@.value));
        if own_keys(ctx@) && member_at(metadata@.members, ctx@.identity.address) is Some
            && metadata@.encryption_algorithm == Some(DEFAULT_ENCRYPTION_ALGORITHM@) {
            lemma_own_key(ctx@, directory@, metadata@, key@.value);
        }
        assert(keyed_for(
            ctx@,
            directory@,
            before.members,
            before.encryption_algorithm,
            key@.value,
            metadata@,
        ));
    }
    match find_body_key(ctx, metadata) {
        Ok(_) => {},
        Err(e) => {
            return Err(e);
        },
    }
    match encrypt_bytes(key, plaintext) {
        Ok((_, body)) => {
            assert(keys_match(key@, key@) || key@.algorithm != DEFAULT_ENCRYPTION_ALGORITHM@);
            Ok(body)
        },
        Err(e) => Err(e),
    }
}

/// Makes the body of an upload: encrypts it with the drawn file key, unless it is
/// to go as it is.
fn seal_body(
    ctx: &Context,
    directory: &Directory,
    metadata: &mut Metadata,
    already_encrypted: bool,
    drawn: Result<Vec<u8>, Error>,
    plaintext: &[u8],
) -> (r: Result<Vec<u8>, Error>)
    requires
        ctx@.identity_key is Some,
    ensures
        final(metadata)@ == (MetadataV { members: final(metadata)@.members, ..old(metadata)@ }),
        r matches Ok(body) ==> body_uploaded_with(
            ctx@,
            directory@,
            old(metadata)@.members,
            already_encrypted,
            plaintext@,
            seen(drawn),
            final(metadata)@,
            body@,
        ),
        r matches Err(e) ==> !already_encrypted && old(metadata)@.encryption_algorithm is Some && body_fault(
            ctx@,
            directory@,
            old(metadata)@.members,
            old(metadata)@.encryption_algorithm,
            seen(drawn),
            plaintext@,
            e@,
        ),
{
    let ghost before = metadata@;
    let algorithm = match &metadata.encryption_algorithm {
        Some(a) => a.clone(),
        None => {
            drop_keys(&mut metadata.members);
            assert(metadata@ =~= MetadataV { members: metadata@.members, ..before });
            return Ok(crate::text::copy_bytes(plaintext));
        },
    };
    if already_encrypted {
        return Ok(crate::text::copy_bytes(plaintext));
    }
    let value = match drawn {
        Ok(v) => v,
        Err(e) => {
            return Err(e);
        },
    };
    let key = Key { algorithm, value };
    assert(key@ == key_with(before.encryption_algorithm, value@));
    seal_body_with(ctx, directory, metadata, &key, plaintext)
}

// The whole of it.

/// An upload: what is sent, and what is written to the local file once it was
/// accepted.
#[derive(Debug)]
pub struct Upload {
    pub metadata: Metadata,
    pub local: LocalMetadata,
    /// The body that is sent.
    pub body: Vec<u8>,
    /// The bytes of the request.
    pub request: Vec<u8>,
}

/// The view of an upload.
#[verifier::ext_equal]
pub struct UploadV {
    pub metadata: MetadataV,
    pub local: LocalV,
    pub body: Seq<u8>,
    pub request: Seq<u8>,
}

impl View for Upload {
    type V = UploadV;

    open spec fn view(&self) -> UploadV {
        UploadV { metadata: self.metadata@, local: self.local@, body: self.body@, request: self.request@ }
    }
}

/// What is to be uploaded.
#[verifier::ext_equal]
pub struct JobV {
    pub path: Seq<char>,
    pub body: Option<Seq<u8>>,
    pub permissions: PermissionsV,
    pub algorithm: Option<Seq<char>>,
    pub existing: Option<MetadataV>,
    pub local: LocalV,
    pub metadata_only: bool,
}

impl JobV {
    /// Whether a directory is uploaded.
    pub open spec fn is_dir(self) -> bool {
        self.body is None && !self.metadata_only
    }

    /// The body that is uploaded, if one is.
    pub open spec fn content(self) -> Option<Seq<u8>> {
        if self.metadata_only {
            None
        } else {
            self.body
        }
    }

    /// Whether the file is encrypted as it stands.
    pub open spec fn already_encrypted(self) -> bool {
        self.local.encrypted == Some(true)
    }

    /// The metadata that the upload starts from.
    pub open spec fn base(self, address: Seq<char>, now: Seq<char>, id: Seq<char>) -> MetadataV {
        upload_base(address, self.is_dir(), self.algorithm, self.existing, now, id)
    }

    /// The algorithm of the upload.
    pub open spec fn encryption(self) -> Option<Seq<char>> {
        upload_algorithm(self.is_dir(), self.algorithm, self.existing)
    }
}

/// What the server is asked in the query: to relay the upload.
pub open spec fn upload_query(metadata_only: bool) -> Seq<char> {
    if metadata_only {
        "relay=full&metadata"@
    } else {
        "relay=full"@
    }
}

/// The URL that is uploaded to.
pub open spec fn upload_url(url: UrlPartsV, metadata_only: bool) -> UrlPartsV {
    UrlPartsV { query: Some(upload_query(metadata_only)), ..url }
}

/// The file key that those who join are given, where only metadata is uploaded.
pub open spec fn upload_key(ctx: ContextV, base: MetadataV, metadata_only: bool) -> Result<Option<Seq<u8>>, ErrorV> {
    if metadata_only && base.encryption_algorithm is Some {
        file_key(ctx, base.members)
    } else {
        Ok(None)
    }
}

/// The local metadata after an upload.
pub open spec fn upload_local(job: JobV, now: Seq<char>) -> LocalV {
    LocalV {
        encrypted: if job.content() is Some && job.encryption() is Some && !job.already_encrypted() {
            Some(false)
        } else {
            job.local.encrypted
        },
        sync_hash: match job.content() {
            Some(body) => if job.already_encrypted() {
                None
            } else {
                Some(sha256_of(body))
            },
            None => job.local.sync_hash,
        },
        sync_modified: Some(now),
    }
}

/// The hash that uploaded metadata carries: of the body that is sent, or as it
/// was where none is.
pub open spec fn upload_hash(job: JobV, base: MetadataV, body: Seq<u8>) -> Option<Tagged> {
    if job.metadata_only {
        base.body_hash
    } else if job.is_dir() {
        None
    } else {
        hash_of(Some(body))
    }
}

/// Whether the members and body of an upload are right, given the members after
/// the changes.
pub open spec fn upload_content(
    ctx: ContextV,
    dir: Seq<(Seq<char>, Result<IdentityV, ErrorV>)>,
    job: JobV,
    base: MetadataV,
    list: Seq<MemberV>,
    key: Option<Seq<u8>>,
    u: UploadV,
) -> bool {
    match job.content() {
        Some(plaintext) => body_uploaded(ctx, dir, list, job.already_encrypted(), plaintext, u.metadata, u.body),
        None => u.body.len() == 0 && joined(ctx.identity, dir, base.members, list, u.metadata.members, key),
    }
}

/// Whether an upload is right for what is to be uploaded, apart from its members
/// and body.
pub open spec fn upload_framed(
    ctx: ContextV,
    dir: Seq<(Seq<char>, Result<IdentityV, ErrorV>)>,
    job: JobV,
    now: Seq<char>,
    timestamp: nat,
    u: UploadV,
) -> bool {
    let address = ctx.identity.address;
    let base = job.base(address, now, u.metadata.id);
    let m = u.metadata;
    &&& client_url(address, job.path) matches Ok(url)
    &&& upload_refused(address, job.is_dir(), job.algorithm, job.existing, job.metadata_only) is None
    &&& upload_key(ctx, base, job.metadata_only) is Ok
    &&& changed(base.members, job.permissions, base.encryption_algorithm is Some) is Ok
    &&& m == MetadataV {
        modified: now,
        modified_by: address,
        members: m.members,
        body_hash: upload_hash(job, base, u.body),
        signature: m.signature,
        ..base
    }
    &&& json_signed(ctx.identity_key->0, metadata_json(unsigned(m))) == Ok::<Tagged, ErrorV>(m.signature)
    &&& u.local == upload_local(job, now)
    &&& ark_request_bytes(
        Some(ctx),
        "PUT"@,
        upload_url(url, job.metadata_only),
        header_fields(m),
        u.body,
        timestamp,
    ) == Ok::<Seq<u8>, ErrorV>(u.request)
}

/// Whether an upload is right for what is to be uploaded.
pub open spec fn uploaded(
    ctx: ContextV,
    dir: Seq<(Seq<char>, Result<IdentityV, ErrorV>)>,
    job: JobV,
    now: Seq<char>,
    timestamp: nat,
    u: UploadV,
) -> bool {
    let base = job.base(ctx.identity.address, now, u.metadata.id);
    &&& upload_framed(ctx, dir, job, now, timestamp, u)
    &&& upload_content(
        ctx,
        dir,
        job,
        base,
        changed(base.members, job.permissions, base.encryption_algorithm is Some)->Ok_0,
        upload_key(ctx, base, job.metadata_only)->Ok_0,
        u,
    )
}

/// Whether an upload is right for what is to be uploaded and what the draw of a
/// new file key gave: a body that is encrypted now is under the drawn key, and no
/// member is left with another one.
pub open spec fn uploaded_with(
    ctx: ContextV,
    dir: Seq<(Seq<char>, Result<IdentityV, ErrorV>)>,
    job: JobV,
    drawn: Result<Seq<u8>, ErrorV>,
    now: Seq<char>,
    timestamp: nat,
    u: UploadV,
) -> bool {
    let base = job.base(ctx.identity.address, now, u.metadata.id);
    &&& uploaded(ctx, dir, job, now, timestamp, u)
    &&& job.content() matches Some(plaintext) ==> body_uploaded_with(
        ctx,
        dir,
        changed(base.members, job.permissions, base.encryption_algorithm is Some)->Ok_0,
        job.already_encrypted(),
        plaintext,
        drawn,
        u.metadata,
        u.body,
    )
}

/// Whether metadata and a body are those of an upload before it is signed, given
/// what the draw of a new file key gave. Where nothing is encrypted and nobody is
/// given a key, the job and the id of the metadata leave no choice.
pub open spec fn upload_draft(
    ctx: ContextV,
    dir: Seq<(Seq<char>, Result<IdentityV, ErrorV>)>,
    job: JobV,
    drawn: Result<Seq<u8>, ErrorV>,
    now: Seq<char>,
    m: MetadataV,
    body: Seq<u8>,
) -> bool {
    let base = job.base(ctx.identity.address, now, m.id);
    &&& upload_key(ctx, base, job.metadata_only) matches Ok(key)
    &&& changed(base.members, job.permissions, base.encryption_algorithm is Some) matches Ok(list)
    &&& m == MetadataV {
        modified: now,
        modified_by: ctx.identity.address,
        members: m.members,
        body_hash: upload_hash(job, base, body),
        ..unsigned(base)
    }
    &&& match job.content() {
        Some(plaintext) => body_uploaded_with(ctx, dir, list, job.already_encrypted(), plaintext, drawn, m, body),
        None => body.len() == 0 && joined(ctx.identity, dir, base.members, list, m.members, key),
    }
}

/// Why metadata that is not signed yet and a body cannot be sent to a URL, if so:
/// because the metadata or the request cannot be signed, or for want of a host.
pub open spec fn send_fault(
    ctx: ContextV,
    url: UrlPartsV,
    m: MetadataV,
    body: Seq<u8>,
    timestamp: nat,
) -> Option<ErrorV> {
    match json_signed(ctx.identity_key->0, metadata_json(m)) {
        Err(e) => Some(e),
        Ok(signature) => match ark_request_bytes(
            Some(ctx),
            "PUT"@,
            url,
            header_fields(MetadataV { signature, ..m }),
            body,
            timestamp,
        ) {
            Err(e) => Some(e),
            Ok(_) => None,
        },
    }
}

/// Whether an upload fails, and why, given what the draw of a new file key gave:
/// always where it is refused, otherwise only for want of a key or of randomness
/// where something is encrypted, or because this very upload cannot be sent.
pub open spec fn upload_fault_with(
    ctx: ContextV,
    dir: Seq<(Seq<char>, Result<IdentityV, ErrorV>)>,
    job: JobV,
    drawn: Result<Seq<u8>, ErrorV>,
    now: Seq<char>,
    timestamp: nat,
    e: ErrorV,
) -> bool {
    let address = ctx.identity.address;
    let base = job.base(address, now, Seq::empty());
    match client_url(address, job.path) {
        Err(x) => e == x,
        Ok(url) => match upload_refused(address, job.is_dir(), job.algorithm, job.existing, job.metadata_only) {
            Some(x) => e == x,
            None => match upload_key(ctx, base, job.metadata_only) {
                Err(x) => e == x,
                Ok(key) => match changed(base.members, job.permissions, base.encryption_algorithm is Some) {
                    Err(x) => e == x,
                    Ok(list) => {
                        ||| join_fault(ctx.identity, dir, base.members, list, key, e)
                        ||| encrypting_fault(ctx, dir, job, list, drawn, e)
                        ||| exists|m: MetadataV, body: Seq<u8>| #[trigger]
                            upload_draft(ctx, dir, job, drawn, now, m, body) && send_fault(
                                ctx,
                                upload_url(url, job.metadata_only),
                                m,
                                body,
                                timestamp,
                            ) == Some(e)
                    },
                },
            },
        },
    }
}

/// Whether the body of an upload is to be encrypted and cannot be, and why.
pub open spec fn encrypting_fault(
    ctx: ContextV,
    dir: Seq<(Seq<char>, Result<IdentityV, ErrorV>)>,
    job: JobV,
    list: Seq<MemberV>,
    drawn: Result<Seq<u8>, ErrorV>,
    e: ErrorV,
) -> bool {
    &&& job.content() matches Some(plaintext)
    &&& !job.already_encrypted()
    &&& job.encryption() is Some
    &&& body_fault(ctx, dir, list, job.encryption(), drawn, plaintext, e)
}

/// Whether an upload fails, and why.
pub open spec fn upload_fault(
    ctx: ContextV,
    dir: Seq<(Seq<char>, Result<IdentityV, ErrorV>)>,
    job: JobV,
    now: Seq<char>,
    timestamp: nat,
    e: ErrorV,
) -> bool {
    exists|drawn: Result<Seq<u8>, ErrorV>|
        may_be_drawn(algorithm_or_default(job.encryption()), drawn) && #[trigger] upload_fault_with(
            ctx,
            dir,
            job,
            drawn,
            now,
            timestamp,
            e,
        )
}

fn ask_relay(url: UrlParts, metadata_only: bool) -> (r: UrlParts)
    ensures
        r@ == upload_url(url@, metadata_only),
{
    let query = if metadata_only {
        "relay=full&metadata".to_owned()
    } else {
        "relay=full".to_owned()
    };
    UrlParts { username: url.username, host: url.host, port: url.port, path: url.path, query: Some(query) }
}

/// What is signed of an upload to a URL.
pub open spec fn upload_call(url: UrlPartsV, body: Seq<u8>) -> CallV {
    CallV { method: "PUT"@, host: host_header(url)->0, path: url.path, body }
}

/// Whether both signatures of an upload are valid under a public key: the one of
/// the request, and the one of the metadata for what is uploaded.
pub open spec fn upload_holds(ctx: ContextV, job: JobV, timestamp: nat, u: UploadV, public: Tagged) -> bool {
    &&& client_url(ctx.identity.address, job.path) matches Ok(url)
    &&& signature_holds(ctx, upload_call(url, u.body), timestamp, public)
    &&& if job.metadata_only {
        signature_verified(public, u.metadata) is Ok
    } else {
        metadata_verified(
            public,
            u.metadata,
            if job.is_dir() {
                None
            } else {
                Some(u.body)
            },
        ) is Ok
    }
}

fn find_algorithm(is_dir: bool, algorithm: Option<&str>, existing: &Option<Metadata>) -> (r: String)
    ensures
        r@ == algorithm_or_default(upload_algorithm(is_dir, opt_str(algorithm), seen_metadata(*existing))),
{
    if is_dir {
        return DEFAULT_ENCRYPTION_ALGORITHM.to_owned();
    }
    match algorithm {
        Some(a) => if same(a, "none") {
            DEFAULT_ENCRYPTION_ALGORITHM.to_owned()
        } else {
            a.to_owned()
        },
        None => match existing {
            Some(m) => match &m.encryption_algorithm {
                Some(a) => a.clone(),
                None => DEFAULT_ENCRYPTION_ALGORITHM.to_owned(),
            },
            None => DEFAULT_ENCRYPTION_ALGORITHM.to_owned(),
        },
    }
}

/// Makes an upload of a body, of a directory where there is none, or of metadata
/// alone, with changes to the members.
///
/// A new file is encrypted with AES-256-GCM unless another algorithm or `none`
/// is asked for; the file key is new on every upload and wrapped for every
/// member. Whoever knows the account by a matching public key accepts the request
/// and the metadata. The secret key of the account must be there.
pub fn put_stream(
    ctx: &Context,
    directory: &Directory,
    path: &str,
    body: Option<&[u8]>,
    permissions: &Permissions,
    encryption_algorithm: Option<&str>,
    existing_metadata: Option<Metadata>,
    existing_local_metadata: Option<LocalMetadata>,
    metadata_only: bool,
    now: &str,
    timestamp: u64,
) -> (r: Result<Upload, Error>)
    requires
        ctx@.identity_key is Some,
    ensures
        ({
            let job = JobV {
                path: path@,
                body: opt_body(body),
                permissions: permissions@,
                algorithm: opt_str(encryption_algorithm),
                existing: seen_metadata(existing_metadata),
                local: seen_local(existing_local_metadata),
                metadata_only,
            };
            match r {
                Ok(u) => uploaded(ctx@, directory@, job, now@, timestamp as nat, u@) && (forall|public: Tagged|
                    public.algorithm != DEFAULT_ENCRYPTION_ALGORITHM@ && #[trigger] keys_match(
                        ctx@.identity_key->0,
                        public,
                    ) ==> upload_holds(ctx@, job, timestamp as nat, u@, public)),
                Err(e) => upload_fault(ctx@, directory@, job, now@, timestamp as nat, e@),
            }
        }),
{
    let is_dir = body.is_none() && !metadata_only;
    let algorithm = find_algorithm(is_dir, encryption_algorithm, &existing_metadata);
    let drawn = match create_secret_key(&algorithm) {
        Ok(key) => Ok(key.value),
        Err(e) => Err(e),
    };
    assert(may_be_drawn(algorithm@, seen(drawn)));
    put_stream_with(
        ctx,
        directory,
        path,
        body,
        permissions,
        encryption_algorithm,
        existing_metadata,
        existing_local_metadata,
        metadata_only,
        drawn,
        now,
        timestamp,
    )
}

/// Makes an upload of a body, of a directory where there is none, or of metadata
/// alone, with changes to the members and what the draw of a new file key gave.
///
/// A body that is to be encrypted is so with the drawn key, which is wrapped for
/// every member in place of any key that they held. Whoever knows the account by a
/// matching public key accepts the request and the metadata. The secret key of the
/// account must be there.
pub fn put_stream_with(
    ctx: &Context,
    directory: &Directory,
    path: &str,
    body: Option<&[u8]>,
    permissions: &Permissions,
    encryption_algorithm: Option<&str>,
    existing_metadata: Option<Metadata>,
    existing_local_metadata: Option<LocalMetadata>,
    metadata_only: bool,
    drawn: Result<Vec<u8>, Error>,
    now: &str,
    timestamp: u64,
) -> (r: Result<Upload, Error>)
    requires
        ctx@.identity_key is Some,
    ensures
        ({
            let job = JobV {
                path: path@,
                body: opt_body(body),
                permissions: permissions@,
                algorithm: opt_str(encryption_algorithm),
                existing: seen_metadata(existing_metadata),
                local: seen_local(existing_local_metadata),
                metadata_only,
            };
            match r {
                Ok(u) => uploaded_with(ctx@, directory@, job, seen(drawn), now@, timestamp as nat, u@) && (forall|public: Tagged|
                    public.algorithm != DEFAULT_ENCRYPTION_ALGORITHM@ && #[trigger] keys_match(
                        ctx@.identity_key->0,
                        public,
                    ) ==> upload_holds(ctx@, job, timestamp as nat, u@, public)),
                Err(e) => upload_fault_with(ctx@, directory@, job, seen(drawn), now@, timestamp as nat, e@),
            }
        }),
{
    let ghost job = JobV {
        path: path@,
        body: opt_body(body),
        permissions: permissions@,
        algorithm: opt_str(encryption_algorithm),
        existing: seen_metadata(existing_metadata),
        local: seen_local(existing_local_metadata),
        metadata_only,
    };
    let secret = match &ctx.identity_key {
        Some(k) => k,
        None => {
            return Err(fail(Fault::SecretKeySize));
        },
    };
    let url = match resolve_client_url(ctx, path) {
        Ok(u) => ask_relay(u, metadata_only),
        Err(e) => {
            return Err(e);
        },
    };
    let is_dir = body.is_none() && !metadata_only;
    let mut metadata = match start(
        &ctx.identity.address,
        is_dir,
        encryption_algorithm,
        existing_metadata,
        metadata_only,
        now,
    ) {
        Ok(m) => m,
        Err(e) => {
            return Err(e);
        },
    };
    let ghost base = job.base(ctx@.identity.address, now@, metadata@.id);
    let ghost blank = job.base(ctx@.identity.address, now@, Seq::empty());
    assert(base.members == blank.members && base.encryption_algorithm == blank.encryption_algorithm);
    let key = if metadata_only && metadata.encryption_algorithm.is_some() {
        match resolve_key_from_members(ctx, &metadata.members) {
            Ok(k) => k,
            Err(e) => {
                return Err(e);
            },
        }
    } else {
        None
    };
    let shared: Option<&[u8]> = match &key {
        Some(k) => Some(k.as_slice()),
        None => None,
    };
    assert(opt_body(shared) == opt_bytes(key));
    match apply_permissions(ctx, directory, &mut metadata, permissions, shared) {
        Ok(()) => {},
        Err(e) => {
            return Err(e);
        },
    }
    let ghost mid = metadata@;
    let ghost list = changed(base.members, permissions@, base.encryption_algorithm is Some)->Ok_0;
    let mut local = match existing_local_metadata {
        Some(l) => l,
        None => LocalMetadata { encrypted: None, sync_hash: None, sync_modified: None },
    };
    proof {
        if existing_local_metadata is None {
            assert(local@ =~= no_local());
        }
        assert(local@ == job.local);
    }
    let mut sent: Vec<u8> = Vec::new();
    if !metadata_only {
        if let Some(content) = body {
            assert(mid.members =~= list);
            let already_encrypted = local.encrypted == Some(true);
            let encrypting = !already_encrypted && metadata.encryption_algorithm.is_some();
            sent = match seal_body(ctx, directory, &mut metadata, already_encrypted, drawn, content) {
                Ok(b) => b,
                Err(e) => {
                    return Err(e);
                },
            };
            local.sync_hash = if already_encrypted {
                None
            } else {
                Some(sha256(content))
            };
            if encrypting {
                local.encrypted = Some(false);
            }
        }
    }
    let ghost content = metadata@;
    metadata.modified = now.to_owned();
    metadata.modified_by = ctx.identity.address.clone();
    let ghost draft = MetadataV { body_hash: upload_hash(job, base, sent@), ..unsigned(metadata@) };
    proof {
        lemma_draft(ctx@, directory@, job, base, list, opt_bytes(key), seen(drawn), mid, content, now@, sent@, draft);
        assert(upload_draft(ctx@, directory@, job, seen(drawn), now@, draft, sent@));
    }
    let signing = if metadata_only {
        crate::metadata::resign_metadata(secret, &mut metadata)
    } else if is_dir {
        sign_metadata(secret, &mut metadata, None)
    } else {
        sign_metadata(secret, &mut metadata, Some(&sent))
    };
    match signing {
        Ok(()) => {
            assert(unsigned(metadata@) =~= draft);
            assert(metadata@ =~= MetadataV { signature: metadata@.signature, ..draft });
        },
        Err(e) => {
            assert(send_fault(ctx@, url@, draft, sent@, timestamp as nat) == Some(e@));
            return Err(e);
        },
    }
    local.sync_modified = Some(now.to_owned());
    assert(local@ =~= upload_local(job, now@));
    let headers = write_metadata_headers(&metadata);
    let request = match ark_request(Some(ctx), "PUT", &url, &headers, &sent, timestamp) {
        Ok(b) => b,
        Err(e) => {
            assert(send_fault(ctx@, url@, draft, sent@, timestamp as nat) == Some(e@));
            return Err(e);
        },
    };
    let u = Upload { metadata, local, body: sent, request };
    proof {
        lemma_content(ctx@, directory@, job, base, list, opt_bytes(key), seen(drawn), mid, content, u@);
    }
    Ok(u)
}

proof fn lemma_draft(
    ctx: ContextV,
    dir: Seq<(Seq<char>, Result<IdentityV, ErrorV>)>,
    job: JobV,
    base: MetadataV,
    list: Seq<MemberV>,
    key: Option<Seq<u8>>,
    drawn: Result<Seq<u8>, ErrorV>,
    mid: MetadataV,
    content: MetadataV,
    now: Seq<char>,
    body: Seq<u8>,
    draft: MetadataV,
)
    requires
        base == job.base(ctx.identity.address, now, content.id),
        upload_key(ctx, base, job.metadata_only) == Ok::<Option<Seq<u8>>, ErrorV>(key),
        changed(base.members, job.permissions, base.encryption_algorithm is Some) == Ok::<Seq<MemberV>, ErrorV>(list),
        joined(ctx.identity, dir, base.members, list, mid.members, key),
        content == (MetadataV { members: content.members, ..base }),
        draft == (MetadataV {
            modified: now,
            modified_by: ctx.identity.address,
            members: content.members,
            body_hash: upload_hash(job, base, body),
            ..unsigned(base)
        }),
        match job.content() {
            Some(plaintext) => body_uploaded_with(
                ctx,
                dir,
                list,
                job.already_encrypted(),
                plaintext,
                drawn,
                content,
                body,
            ),
            None => content.members == mid.members && body.len() == 0,
        },
    ensures
        upload_draft(ctx, dir, job, drawn, now, draft, body),
{
    if let Some(plaintext) = job.content() {
        if content.encryption_algorithm is Some && !job.already_encrypted() {
            let new_key = key_with(content.encryption_algorithm, drawn->Ok_0);
            assert(sealed_with(ctx, dir, content, new_key, body, plaintext));
            assert(sealed_with(ctx, dir, draft, new_key, body, plaintext));
        }
    }
}

proof fn lemma_content(
    ctx: ContextV,
    dir: Seq<(Seq<char>, Result<IdentityV, ErrorV>)>,
    job: JobV,
    base: MetadataV,
    list: Seq<MemberV>,
    key: Option<Seq<u8>>,
    drawn: Result<Seq<u8>, ErrorV>,
    mid: MetadataV,
    content: MetadataV,
    u: UploadV,
)
    requires
        joined(ctx.identity, dir, base.members, list, mid.members, key),
        u.metadata.members == content.members,
        u.metadata.encryption_algorithm == content.encryption_algorithm,
        match job.content() {
            Some(plaintext) => body_uploaded_with(
                ctx,
                dir,
                list,
                job.already_encrypted(),
                plaintext,
                drawn,
                content,
                u.body,
            ),
            None => content.members == mid.members && u.body.len() == 0,
        },
    ensures
        upload_content(ctx, dir, job, base, list, key, u),
        job.content() matches Some(plaintext) ==> body_uploaded_with(
            ctx,
            dir,
            list,
            job.already_encrypted(),
            plaintext,
            drawn,
            u.metadata,
            u.body,
        ),
{
    if let Some(plaintext) = job.content() {
        if content.encryption_algorithm is Some && !job.already_encrypted() {
            let new_key = key_with(content.encryption_algorithm, drawn->Ok_0);
            assert(sealed_with(ctx, dir, content, new_key, u.body, plaintext));
            assert(sealed_with(ctx, dir, u.metadata, new_key, u.body, plaintext));
        }
    }
}

// Files.

/// The metadata of a local file, if it carries any.
pub open spec fn local_copy(attributes: Seq<(Seq<char>, Seq<u8>)>) -> Result<Option<MetadataV>, ErrorV> {
    if carries_id(attributes) {
        match metadata_of_attributes(attributes) {
            Ok(m) => Ok(Some(m)),
            Err(e) => Err(e),
        }
    } else {
        Ok(None)
    }
}

/// What is to be uploaded of a local file or directory.
pub open spec fn file_job(
    path: Seq<char>,
    attributes: Seq<(Seq<char>, Seq<u8>)>,
    content: Option<Seq<u8>>,
    permissions: PermissionsV,
    algorithm: Option<Seq<char>>,
    metadata_only: bool,
) -> Result<JobV, ErrorV> {
    match local_copy(attributes) {
        Err(e) => Err(e),
        Ok(existing) => match local_of(attributes) {
            Err(e) => Err(e),
            Ok(local) => Ok(
                JobV {
                    path,
                    body: if metadata_only {
                        None
                    } else {
                        content
                    },
                    permissions,
                    algorithm,
                    existing,
                    local,
                    metadata_only,
                },
            ),
        },
    }
}

/// Makes an upload of a local file, given its attributes and its content, or of a
/// directory, which has no content.
///
/// The secret key of the account must be there.
pub fn put(
    ctx: &Context,
    directory: &Directory,
    path: &str,
    attributes: &[(String, Vec<u8>)],
    content: Option<&[u8]>,
    permissions: &Permissions,
    encryption_algorithm: Option<&str>,
    metadata_only: bool,
    now: &str,
    timestamp: u64,
) -> (r: Result<Upload, Error>)
    requires
        ctx@.identity_key is Some,
    ensures
        match file_job(
            path@,
            byte_pairs(attributes@),
            opt_body(content),
            permissions@,
            opt_str(encryption_algorithm),
            metadata_only,
        ) {
            Err(e) => r matches Err(x) && x@ == e,
            Ok(job) => match r {
                Ok(u) => uploaded(ctx@, directory@, job, now@, timestamp as nat, u@) && (forall|public: Tagged|
                    public.algorithm != DEFAULT_ENCRYPTION_ALGORITHM@ && #[trigger] keys_match(
                        ctx@.identity_key->0,
                        public,
                    ) ==> upload_holds(ctx@, job, timestamp as nat, u@, public)),
                Err(e) => upload_fault(ctx@, directory@, job, now@, timestamp as nat, e@),
            },
        },
{
    let existing = if has_id(attributes) {
        match read_metadata_attributes(attributes) {
            Ok(m) => Some(m),
            Err(e) => {
                return Err(e);
            },
        }
    } else {
        None
    };
    let local = match read_local_metadata_attributes(attributes) {
        Ok(l) => l,
        Err(e) => {
            return Err(e);
        },
    };
    let body: Option<&[u8]> = if metadata_only {
        None
    } else {
        content
    };
    put_stream(
        ctx,
        directory,
        path,
        body,
        permissions,
        encryption_algorithm,
        existing,
        Some(local),
        metadata_only,
        now,
        timestamp,
    )
}

/// Makes an upload of the content of a local file or of a directory.
///
/// The secret key of the account must be there.
pub fn put_content(
    ctx: &Context,
    directory: &Directory,
    path: &str,
    attributes: &[(String, Vec<u8>)],
    content: Option<&[u8]>,
    now: &str,
    timestamp: u64,
) -> (r: Result<Upload, Error>)
    requires
        ctx@.identity_key is Some,
    ensures
        match file_job(path@, byte_pairs(attributes@), opt_body(content), no_permissions(), None, false) {
            Err(e) => r matches Err(x) && x@ == e,
            Ok(job) => match r {
                Ok(u) => uploaded(ctx@, directory@, job, now@, timestamp as nat, u@) && (forall|public: Tagged|
                    public.algorithm != DEFAULT_ENCRYPTION_ALGORITHM@ && #[trigger] keys_match(
                        ctx@.identity_key->0,
                        public,
                    ) ==> upload_holds(ctx@, job, timestamp as nat, u@, public)),
                Err(e) => upload_fault(ctx@, directory@, job, now@, timestamp as nat, e@),
            },
        },
{
    put(ctx, directory, path, attributes, content, &Permissions::default(), None, false, now, timestamp)
}

/// Makes an upload of changed members alone.
///
/// The secret key of the account must be there.
pub fn put_permissions(
    ctx: &Context,
    directory: &Directory,
    path: &str,
    attributes: &[(String, Vec<u8>)],
    permissions: &Permissions,
    now: &str,
    timestamp: u64,
) -> (r: Result<Upload, Error>)
    requires
        ctx@.identity_key is Some,
    ensures
        match file_job(path@, byte_pairs(attributes@), None, permissions@, None, true) {
            Err(e) => r matches Err(x) && x@ == e,
            Ok(job) => match r {
                Ok(u) => uploaded(ctx@, directory@, job, now@, timestamp as nat, u@) && (forall|public: Tagged|
                    public.algorithm != DEFAULT_ENCRYPTION_ALGORITHM@ && #[trigger] keys_match(
                        ctx@.identity_key->0,
                        public,
                    ) ==> upload_holds(ctx@, job, timestamp as nat, u@, public)),
                Err(e) => upload_fault(ctx@, directory@, job, now@, timestamp as nat, e@),
            },
        },
{
    put(ctx, directory, path, attributes, None, permissions, None, true, now, timestamp)
}

// Laws.

/// Every member of an encrypted file reads its content, not only who uploaded
/// it: whoever holds the secret key of an identity that the file key was wrapped
/// for.
pub proof fn every_member_reads(
    ctx: ContextV,
    dir: Seq<(Seq<char>, Result<IdentityV, ErrorV>)>,
    list: Seq<MemberV>,
    plaintext: Seq<u8>,
    m: MetadataV,
    body: Seq<u8>,
    reader: ContextV,
)
    requires
        body_uploaded(ctx, dir, list, false, plaintext, m, body),
        m.encryption_algorithm == Some(DEFAULT_ENCRYPTION_ALGORITHM@),
        own_keys(reader),
        member_at(list, reader.identity.address) is Some,
        identity_at(ctx.identity, dir, reader.identity.address) == Ok::<IdentityV, ErrorV>(reader.identity),
    ensures
        stream_decrypted(reader, m, body) == Ok::<Seq<u8>, ErrorV>(plaintext),
{
    let key = choose|key: Tagged| #[trigger] sealed_with(ctx, dir, m, key, body, plaintext);
    assert(sealed_with(ctx, dir, m, key, body, plaintext));
    lemma_same_addresses(m.members, list, reader.identity.address);
    assert(keys_match(key, key));
    lemma_held(ctx, dir, m.members, key.value, reader);
}

/// Who is a member and has the secret key of the identity that a file key was
/// wrapped for finds that key.
proof fn lemma_held(
    ctx: ContextV,
    dir: Seq<(Seq<char>, Result<IdentityV, ErrorV>)>,
    members: Seq<MemberV>,
    key: Seq<u8>,
    reader: ContextV,
)
    requires
        all_hold(ctx.identity, dir, members, key),
        own_keys(reader),
        member_at(members, reader.identity.address) is Some,
        identity_at(ctx.identity, dir, reader.identity.address) == Ok::<IdentityV, ErrorV>(reader.identity),
    ensures
        file_key(reader, members) == Ok::<Option<Seq<u8>>, ErrorV>(Some(key)),
{
    crate::metadata::member_at_is_a_member(members, reader.identity.address);
    let x = member_at(members, reader.identity.address)->0;
    let i = choose|i: int| 0 <= i < members.len() && members[i] == x;
    assert(holds_key(ctx.identity, dir, members[i].address, members[i].key, key));
    assert(keys_match(reader.identity_key->0, reader.identity.public_key));
}

/// Every encrypted upload takes a new file key: whoever is a member afterwards
/// finds the drawn key, whatever key the file had before, and the body is encrypted
/// under the drawn key.
pub proof fn uploads_take_the_drawn_key(
    ctx: ContextV,
    dir: Seq<(Seq<char>, Result<IdentityV, ErrorV>)>,
    job: JobV,
    drawn: Seq<u8>,
    now: Seq<char>,
    timestamp: nat,
    u: UploadV,
    plaintext: Seq<u8>,
    reader: ContextV,
)
    requires
        uploaded_with(ctx, dir, job, Ok(drawn), now, timestamp, u),
        job.content() == Some(plaintext),
        job.encryption() is Some,
        !job.already_encrypted(),
        own_keys(reader),
        member_at(u.metadata.members, reader.identity.address) is Some,
        identity_at(ctx.identity, dir, reader.identity.address) == Ok::<IdentityV, ErrorV>(reader.identity),
    ensures
        file_key(reader, u.metadata.members) == Ok::<Option<Seq<u8>>, ErrorV>(Some(drawn)),
        sealed(key_with(job.encryption(), drawn), u.body, plaintext),
        forall|i: int|
            0 <= i < u.metadata.members.len() ==> holds_key(
                ctx.identity,
                dir,
                (#[trigger] u.metadata.members[i]).address,
                u.metadata.members[i].key,
                drawn,
            ),
{
    assert(u.metadata.encryption_algorithm == job.encryption());
    lemma_held(ctx, dir, u.metadata.members, drawn, reader);
}

/// Where nothing is encrypted, an account with a signing key can upload whatever is
/// not refused to any server that has a host: nothing but turning the metadata into
/// canonical JSON can still fail.
pub proof fn plain_uploads_are_made(
    ctx: ContextV,
    dir: Seq<(Seq<char>, Result<IdentityV, ErrorV>)>,
    job: JobV,
    now: Seq<char>,
    timestamp: nat,
    url: UrlPartsV,
    e: ErrorV,
)
    requires
        ctx.identity_key matches Some(secret) && secret.algorithm == DEFAULT_SIGNING_ALGORITHM@ && secret.value.len()
            == 32,
        client_url(ctx.identity.address, job.path) == Ok::<UrlPartsV, ErrorV>(url),
        url.host is Some,
        upload_refused(ctx.identity.address, job.is_dir(), job.algorithm, job.existing, job.metadata_only) is None,
        changed(job.base(ctx.identity.address, now, Seq::empty()).members, job.permissions, false) is Ok,
        job.encryption() is None,
        upload_fault(ctx, dir, job, now, timestamp, e),
    ensures
        e == bare(Fault::Canonicalize),
{
    reveal_strlit("argon2id-ed25519");
    reveal_strlit("ed25519");
    assert(DEFAULT_PASSWORD_ALGORITHM@.len() != DEFAULT_SIGNING_ALGORITHM@.len());
    let drawn = choose|drawn: Result<Seq<u8>, ErrorV>|
        may_be_drawn(algorithm_or_default(job.encryption()), drawn) && #[trigger] upload_fault_with(
            ctx,
            dir,
            job,
            drawn,
            now,
            timestamp,
            e,
        );
    let base = job.base(ctx.identity.address, now, Seq::empty());
    assert(base.encryption_algorithm is None);
    assert(upload_key(ctx, base, job.metadata_only) == Ok::<Option<Seq<u8>>, ErrorV>(None));
    assert(upload_fault_with(ctx, dir, job, drawn, now, timestamp, e));
    assert(exists|m: MetadataV, body: Seq<u8>| #[trigger]
        upload_draft(ctx, dir, job, drawn, now, m, body) && send_fault(
            ctx,
            upload_url(url, job.metadata_only),
            m,
            body,
            timestamp,
        ) == Some(e));
}

/// Where an account with its own keys encrypts an upload of a file that it is a
/// member of and that fits the cipher, only someone who cannot be given the file key
/// can get in the way, and randomness can be wanting.
pub proof fn own_keys_suffice_to_encrypt(
    ctx: ContextV,
    dir: Seq<(Seq<char>, Result<IdentityV, ErrorV>)>,
    list: Seq<MemberV>,
    drawn: Seq<u8>,
    plaintext: Seq<u8>,
    e: ErrorV,
)
    requires
        own_keys(ctx),
        member_at(list, ctx.identity.address) is Some,
        drawn.len() == 32,
        fits_cipher(plaintext),
        body_fault(ctx, dir, list, Some(DEFAULT_ENCRYPTION_ALGORITHM@), Ok(drawn), plaintext, e),
    ensures
        key_fault(ctx.identity, dir, list, drawn, e) || e.fault == Fault::Random,
{
    let algorithm = Some(DEFAULT_ENCRYPTION_ALGORITHM@);
    if !key_fault(ctx.identity, dir, list, drawn, e) {
        let key = key_with(algorithm, drawn);
        let m = choose|m: MetadataV| #[trigger]
            keyed_for(ctx, dir, list, algorithm, drawn, m) && (match body_key(ctx, m) {
                Err(x) => e == x,
                Ok(_) => match cannot_encrypt(key) {
                    Some(x) => e == x,
                    None => encrypt_fault(key, plaintext, e),
                },
            });
        lemma_same_addresses(m.members, list, ctx.identity.address);
        lemma_own_key(ctx, dir, m, drawn);
    }
}

/// An equipped account can upload whatever is not refused and fits the cipher, once a
/// file key was drawn, to any server that has a host, where everyone who is a member
/// afterwards can be reached and the account is one of them: only randomness can then
/// be wanting, or the canonical form of the metadata.
pub proof fn encrypted_uploads_are_made(
    ctx: ContextV,
    dir: Seq<(Seq<char>, Result<IdentityV, ErrorV>)>,
    job: JobV,
    drawn: Seq<u8>,
    now: Seq<char>,
    timestamp: nat,
    url: UrlPartsV,
    list: Seq<MemberV>,
    plaintext: Seq<u8>,
    e: ErrorV,
)
    requires
        equipped(ctx),
        client_url(ctx.identity.address, job.path) == Ok::<UrlPartsV, ErrorV>(url),
        url.host is Some,
        upload_refused(ctx.identity.address, job.is_dir(), job.algorithm, job.existing, job.metadata_only) is None,
        changed(job.base(ctx.identity.address, now, Seq::empty()).members, job.permissions, true) == Ok::<
            Seq<MemberV>,
            ErrorV,
        >(list),
        job.encryption() == Some(DEFAULT_ENCRYPTION_ALGORITHM@),
        job.content() == Some(plaintext),
        !job.already_encrypted(),
        fits_cipher(plaintext),
        drawn.len() == 32,
        member_at(list, ctx.identity.address) is Some,
        forall|i: int| 0 <= i < list.len() ==> reachable(ctx.identity, dir, (#[trigger] list[i]).address),
        upload_fault_with(ctx, dir, job, Ok(drawn), now, timestamp, e),
    ensures
        e.fault == Fault::Random || e == bare(Fault::Canonicalize),
{
    let base = job.base(ctx.identity.address, now, Seq::empty());
    assert(base.encryption_algorithm == job.encryption());
    assert(upload_key(ctx, base, job.metadata_only) == Ok::<Option<Seq<u8>>, ErrorV>(None));
    assert(!key_fault(ctx.identity, dir, list, drawn, e));
    if encrypting_fault(ctx, dir, job, list, Ok(drawn), e) {
        own_keys_suffice_to_encrypt(ctx, dir, list, drawn, plaintext, e);
    } else {
        let (m, body) = choose|m: MetadataV, body: Seq<u8>| #[trigger]
            upload_draft(ctx, dir, job, Ok(drawn), now, m, body) && send_fault(
                ctx,
                upload_url(url, job.metadata_only),
                m,
                body,
                timestamp,
            ) == Some(e);
        lemma_sends(ctx, upload_url(url, job.metadata_only), m, body, timestamp, e);
    }
}

/// An account with keys of its own that sign can send whatever has a canonical form to
/// a URL that has a host.
pub proof fn lemma_sends(ctx: ContextV, url: UrlPartsV, m: MetadataV, body: Seq<u8>, timestamp: nat, e: ErrorV)
    requires
        ctx.identity_key matches Some(secret) && keys_match(secret, ctx.identity.public_key),
        ctx.identity.public_key.algorithm != DEFAULT_ENCRYPTION_ALGORITHM@,
        url.host is Some,
        send_fault(ctx, url, m, body, timestamp) == Some(e),
    ensures
        e == bare(Fault::Canonicalize),
{
    let secret = ctx.identity_key->0;
    let public = ctx.identity.public_key;
    let host = host_header(url)->0;
    let call = CallV { method: "PUT"@, host, path: url.path, body };
    matching_keys_sign(secret, public, signing_bytes(call, timestamp));
    if let Some(bytes) = canonical_json(metadata_json(m)) {
        matching_keys_sign(secret, public, bytes);
    }
}

/// Lists with the same members have members at the same addresses.
pub proof fn lemma_same_addresses(a: Seq<MemberV>, b: Seq<MemberV>, address: Seq<char>)
    requires
        same_roles(a, b),
    ensures
        member_at(a, address) is Some <==> member_at(b, address) is Some,
{
    assert(keyless(a).len() == a.len() && keyless(b).len() == b.len());
    assert forall|i: int| 0 <= i < a.len() implies (#[trigger] a[i]).address == b[i].address && a[i].permission
        == b[i].permission by {
        assert(keyless(a)[i] == keyless(b)[i]);
    }
    lemma_roles(a, b, address);
}

} // verus!
