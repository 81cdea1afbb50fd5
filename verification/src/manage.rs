//! Changing the members of local files, and starting to track them.

use vstd::prelude::*;

use crate::crypto::{json_signed, keys_match, DEFAULT_ENCRYPTION_ALGORITHM};
use crate::error::{bare, fail, seen, Error, ErrorV, Fault};
use crate::fields::{byte_pairs, metadata_of_attributes, read_metadata_attributes};
use crate::json::metadata_json;
use crate::membership::{
    apply_permissions, file_key, find_identity, identity_at, join_fault, joined, resolve_key_from_members, Directory,
};
use crate::metadata::{
    create_metadata, get_member, hash_of, member_at, metadata_verified, new_metadata, opt_body, resign_metadata,
    sign_metadata, signature_verified, unsigned, verify_metadata_signature,
};
use crate::paths::{below, strip_root};
use crate::permissions::changed;
use crate::primitives::{sha256, sha256_of};
use crate::sealing::{carries_id, has_id};
use crate::text::{concat, copy_texts, opt_bytes, opt_str, same, texts};
use crate::types::{
    Context, ContextV, IdentityV, LocalMetadata, LocalV, MemberV, Metadata, MetadataV, Permission, Permissions,
    PermissionsV, Tagged,
};

verus! {

// Members.

/// The file key that those who join a file are given.
pub open spec fn shared_key(ctx: ContextV, m: MetadataV) -> Result<Option<Seq<u8>>, ErrorV> {
    if m.encryption_algorithm is Some {
        file_key(ctx, m.members)
    } else {
        Ok(None)
    }
}

/// The signed metadata that a file of the account's own carries, or why it is not
/// one.
pub open spec fn owned(
    ctx: ContextV,
    dir: Seq<(Seq<char>, Result<IdentityV, ErrorV>)>,
    attributes: Seq<(Seq<char>, Seq<u8>)>,
) -> Result<MetadataV, ErrorV> {
    match metadata_of_attributes(attributes) {
        Err(e) => Err(e),
        Ok(m) => match identity_at(ctx.identity, dir, m.modified_by) {
            Err(e) => Err(e),
            Ok(modifier) => match signature_verified(modifier.public_key, m) {
                Err(e) => Err(e),
                Ok(_) => match member_at(m.members, ctx.identity.address) {
                    Some(own) if own.permission == Permission::Owner => Ok(m),
                    _ => Err(bare(Fault::OnlyOwner)),
                },
            },
        },
    }
}

/// The metadata of a file whose members the account may change, or why it may
/// not.
pub open spec fn changeable(
    ctx: ContextV,
    dir: Seq<(Seq<char>, Result<IdentityV, ErrorV>)>,
    exists: bool,
    attributes: Seq<(Seq<char>, Seq<u8>)>,
) -> Result<MetadataV, ErrorV> {
    if !exists {
        Err(bare(Fault::InputMissing))
    } else if !carries_id(attributes) {
        Err(bare(Fault::NeedsPut))
    } else {
        owned(ctx, dir, attributes)
    }
}

fn find_owned(ctx: &Context, directory: &Directory, attributes: &[(String, Vec<u8>)]) -> (r: Result<Metadata, Error>)
    ensures
        seen(r) == owned(ctx@, directory@, byte_pairs(attributes@)),
{
    let metadata = match read_metadata_attributes(attributes) {
        Ok(m) => m,
        Err(e) => {
            return Err(e);
        },
    };
    let modifier = match find_identity(&ctx.identity, directory, &metadata.modified_by) {
        Ok(i) => i,
        Err(e) => {
            return Err(e);
        },
    };
    match verify_metadata_signature(&modifier.public_key, &metadata) {
        Ok(()) => {},
        Err(e) => {
            return Err(e);
        },
    }
    let owner = match get_member(&metadata.members, &ctx.identity.address) {
        Some(m) => m.permission == Permission::Owner,
        None => false,
    };
    if owner {
        Ok(metadata)
    } else {
        Err(fail(Fault::OnlyOwner))
    }
}

/// Whether metadata is that of a file after its members were changed: apart from
/// the hash of the body, only the members, the time, who changed it and the
/// signature are new.
pub open spec fn members_changed(
    ctx: ContextV,
    dir: Seq<(Seq<char>, Result<IdentityV, ErrorV>)>,
    before: MetadataV,
    permissions: PermissionsV,
    now: Seq<char>,
    hash: Option<Tagged>,
    after: MetadataV,
) -> bool {
    &&& shared_key(ctx, before) matches Ok(key)
    &&& changed(before.members, permissions, before.encryption_algorithm is Some) matches Ok(list)
    &&& joined(ctx.identity, dir, before.members, list, after.members, key)
    &&& after == MetadataV {
        modified: now,
        modified_by: ctx.identity.address,
        members: after.members,
        body_hash: hash,
        signature: after.signature,
        ..before
    }
    &&& json_signed(ctx.identity_key->0, metadata_json(unsigned(after))) == Ok::<Tagged, ErrorV>(after.signature)
}

/// Why the members of a file are not changed: because the change is not allowed,
/// otherwise only because someone who joins cannot be given the file key.
pub open spec fn members_fault(
    ctx: ContextV,
    dir: Seq<(Seq<char>, Result<IdentityV, ErrorV>)>,
    before: MetadataV,
    permissions: PermissionsV,
    e: ErrorV,
) -> bool {
    match shared_key(ctx, before) {
        Err(x) => e == x,
        Ok(key) => match changed(before.members, permissions, before.encryption_algorithm is Some) {
            Err(x) => e == x,
            Ok(list) => join_fault(ctx.identity, dir, before.members, list, key, e),
        },
    }
}

/// The metadata of a file with changed members, as it is signed.
pub open spec fn with_members(
    ctx: ContextV,
    before: MetadataV,
    members: Seq<MemberV>,
    now: Seq<char>,
    hash: Option<Tagged>,
) -> MetadataV {
    unsigned(
        MetadataV { modified: now, modified_by: ctx.identity.address, members, body_hash: hash, ..before },
    )
}

/// Whether the metadata of a file with its members changed cannot be signed, and
/// why.
pub open spec fn changed_sign_fault(
    ctx: ContextV,
    dir: Seq<(Seq<char>, Result<IdentityV, ErrorV>)>,
    before: MetadataV,
    permissions: PermissionsV,
    now: Seq<char>,
    hash: Option<Tagged>,
    e: ErrorV,
) -> bool {
    &&& shared_key(ctx, before) matches Ok(key)
    &&& changed(before.members, permissions, before.encryption_algorithm is Some) matches Ok(list)
    &&& exists|members: Seq<MemberV>|
        joined(ctx.identity, dir, before.members, list, members, key) && json_signed(
            ctx.identity_key->0,
            metadata_json(#[trigger] with_members(ctx, before, members, now, hash)),
        ) == Err::<Tagged, ErrorV>(e)
}

/// Why changing the members of a file fails: because they are not changed, or
/// because the metadata that this gives cannot be signed.
pub open spec fn change_fault(
    ctx: ContextV,
    dir: Seq<(Seq<char>, Result<IdentityV, ErrorV>)>,
    before: MetadataV,
    permissions: PermissionsV,
    now: Seq<char>,
    hash: Option<Tagged>,
    e: ErrorV,
) -> bool {
    ||| members_fault(ctx, dir, before, permissions, e)
    ||| changed_sign_fault(ctx, dir, before, permissions, now, hash, e)
}

/// Changes the members of a local file and signs its metadata anew. Whoever
/// knows the account by a matching public key accepts it with the same body.
///
/// The secret key of the account must be there.
pub fn chmod(
    ctx: &Context,
    directory: &Directory,
    exists: bool,
    attributes: &[(String, Vec<u8>)],
    permissions: &Permissions,
    now: &str,
) -> (r: Result<Metadata, Error>)
    requires
        ctx@.identity_key is Some,
    ensures
        match changeable(ctx@, directory@, exists, byte_pairs(attributes@)) {
            Err(e) => r matches Err(x) && x@ == e,
            Ok(before) => match r {
                Ok(after) => members_changed(ctx@, directory@, before, permissions@, now@, before.body_hash, after@),
                Err(e) => change_fault(ctx@, directory@, before, permissions@, now@, before.body_hash, e@),
            },
        },
        r matches Ok(after) ==> forall|public: Tagged, body: Option<Seq<u8>>|
            public.algorithm != DEFAULT_ENCRYPTION_ALGORITHM@ && keys_match(ctx@.identity_key->0, public) && hash_of(
                body,
            ) == after@.body_hash ==> #[trigger] metadata_verified(public, after@, body) is Ok,
{
    if !exists {
        return Err(fail(Fault::InputMissing));
    }
    if !has_id(attributes) {
        return Err(fail(Fault::NeedsPut));
    }
    let mut metadata = match find_owned(ctx, directory, attributes) {
        Ok(m) => m,
        Err(e) => {
            return Err(e);
        },
    };
    let ghost before = metadata@;
    match change(ctx, directory, &mut metadata, permissions, now) {
        Ok(()) => {},
        Err(e) => {
            return Err(e);
        },
    }
    let secret = match &ctx.identity_key {
        Some(k) => k,
        None => {
            return Err(fail(Fault::SecretKeySize));
        },
    };
    let ghost ready = metadata@;
    match resign_metadata(secret, &mut metadata) {
        Ok(()) => Ok(metadata),
        Err(e) => {
            assert(unsigned(ready) =~= with_members(ctx@, before, ready.members, now@, before.body_hash));
            Err(e)
        },
    }
}

/// Changes the members of a file, before it is signed.
fn change(ctx: &Context, directory: &Directory, metadata: &mut Metadata, permissions: &Permissions, now: &str) -> (r:
    Result<(), Error>)
    requires
        ctx@.identity_key is Some,
    ensures
        match r {
            Ok(_) => {
                &&& shared_key(ctx@, old(metadata)@) matches Ok(key)
                &&& changed(
                    old(metadata)@.members,
                    permissions@,
                    old(metadata)@.encryption_algorithm is Some,
                ) matches Ok(list)
                &&& joined(ctx@.identity, directory@, old(metadata)@.members, list, final(metadata)@.members, key)
                &&& final(metadata)@ == MetadataV {
                    modified: now@,
                    modified_by: ctx@.identity.address,
                    members: final(metadata)@.members,
                    ..old(metadata)@
                }
            },
            Err(e) => members_fault(ctx@, directory@, old(metadata)@, permissions@, e@),
        },
{
    let key = if metadata.encryption_algorithm.is_some() {
        match resolve_key_from_members(ctx, &metadata.members) {
            Ok(k) => k,
            Err(e) => {
                return Err(e);
            },
        }
    } else {
        None
    };
    let shared: Option<&[u8]> = match &key {
        Some(k) => Some(k.as_slice()),
        None => None,
    };
    assert(opt_body(shared) == opt_bytes(key));
    match apply_permissions(ctx, directory, metadata, permissions, shared) {
        Ok(()) => {},
        Err(e) => {
            return Err(e);
        },
    }
    metadata.modified = now.to_owned();
    metadata.modified_by = ctx.identity.address.clone();
    Ok(())
}

/// Changes the members of a local file for the command, and signs its metadata
/// anew together with its body. Whoever knows the account by a matching public key
/// accepts it with that body.
///
/// The secret key of the account must be there.
pub fn cmd_chmod(
    ctx: &Context,
    directory: &Directory,
    attributes: &[(String, Vec<u8>)],
    body: &[u8],
    owners: &[String],
    writers: &[String],
    readers: &[String],
    drops: &[String],
    now: &str,
) -> (r: Result<Metadata, Error>)
    requires
        ctx@.identity_key is Some,
    ensures
        ({
            let permissions = PermissionsV {
                owners: texts(owners@),
                writers: texts(writers@),
                readers: texts(readers@),
                drops: texts(drops@),
            };
            match owned(ctx@, directory@, byte_pairs(attributes@)) {
                Err(e) => r matches Err(x) && x@ == e,
                Ok(before) => match r {
                    Ok(after) => members_changed(
                        ctx@,
                        directory@,
                        before,
                        permissions,
                        now@,
                        hash_of(Some(body@)),
                        after@,
                    ),
                    Err(e) => change_fault(ctx@, directory@, before, permissions, now@, hash_of(Some(body@)), e@),
                },
            }
        }),
        r matches Ok(after) ==> forall|public: Tagged|
            public.algorithm != DEFAULT_ENCRYPTION_ALGORITHM@ && #[trigger] keys_match(ctx@.identity_key->0, public)
                ==> metadata_verified(public, after@, Some(body@)) is Ok,
{
    let permissions = Permissions {
        owners: copy_texts(owners),
        writers: copy_texts(writers),
        readers: copy_texts(readers),
        drops: copy_texts(drops),
    };
    let mut metadata = match find_owned(ctx, directory, attributes) {
        Ok(m) => m,
        Err(e) => {
            return Err(e);
        },
    };
    let ghost before = metadata@;
    match change(ctx, directory, &mut metadata, &permissions, now) {
        Ok(()) => {},
        Err(e) => {
            return Err(e);
        },
    }
    let secret = match &ctx.identity_key {
        Some(k) => k,
        None => {
            return Err(fail(Fault::SecretKeySize));
        },
    };
    let ghost ready = metadata@;
    match sign_metadata(secret, &mut metadata, Some(body)) {
        Ok(()) => {
            proof {
                let hashed = MetadataV { body_hash: hash_of(Some(body@)), ..ready };
                assert(unsigned(metadata@) =~= unsigned(hashed));
            }
            Ok(metadata)
        },
        Err(e) => {
            proof {
                let hashed = MetadataV { body_hash: hash_of(Some(body@)), ..ready };
                assert(unsigned(hashed) =~= with_members(
                    ctx@,
                    before,
                    ready.members,
                    now@,
                    hash_of(Some(body@)),
                ));
            }
            Err(e)
        },
    }
}

/// The path of a file in its account.
pub open spec fn account_path(root: Seq<char>, absolute: Seq<char>) -> Result<Seq<char>, ErrorV> {
    match below(root, absolute) {
        Some(rest) => Ok("/"@ + rest),
        None => Err(bare(Fault::NotWithin)),
    }
}

/// Finds the path of a file in its account.
pub fn url_path_for(ctx: &Context, absolute: &str) -> (r: Result<String, Error>)
    ensures
        seen(r) == account_path(ctx@.root, absolute@),
{
    match strip_root(&ctx.root, absolute) {
        Some(rest) => Ok(concat("/", &rest)),
        None => Err(fail(Fault::NotWithin)),
    }
}

// Tracking.

/// The algorithm that a file is tracked with: as asked for, none where `none` is
/// asked for or for a directory, and the default otherwise.
pub open spec fn track_algorithm(is_dir: bool, algorithm: Option<Seq<char>>) -> Option<Seq<char>> {
    if is_dir || algorithm == Some("none"@) {
        None
    } else {
        match algorithm {
            Some(a) => Some(a),
            None => Some(DEFAULT_ENCRYPTION_ALGORITHM@),
        }
    }
}

/// Why a file is not tracked, if so.
pub open spec fn track_refused(
    exists: bool,
    attributes: Seq<(Seq<char>, Seq<u8>)>,
    is_dir: bool,
    algorithm: Option<Seq<char>>,
) -> Option<ErrorV> {
    if !exists {
        Some(bare(Fault::PathMissing))
    } else if carries_id(attributes) {
        Some(bare(Fault::MetadataExists))
    } else if is_dir && algorithm is Some {
        Some(bare(Fault::AlgorithmForDirectory))
    } else {
        None
    }
}

/// The metadata of a file that starts to be tracked, before it is signed.
pub open spec fn track_metadata(
    owner: Seq<char>,
    content: Option<Seq<u8>>,
    algorithm: Option<Seq<char>>,
    now: Seq<char>,
    id: Seq<char>,
) -> MetadataV {
    MetadataV { body_hash: hash_of(content), ..new_metadata(id, now, owner, track_algorithm(content is None, algorithm)) }
}

/// The local metadata of a file that starts to be tracked; a directory has none.
pub open spec fn track_local(content: Option<Seq<u8>>) -> Option<LocalV> {
    match content {
        Some(body) => Some(LocalV { encrypted: Some(false), sync_hash: Some(sha256_of(body)), sync_modified: None }),
        None => None,
    }
}

/// The view of optional local metadata.
pub open spec fn opt_local(l: Option<LocalMetadata>) -> Option<LocalV> {
    match l {
        Some(local) => Some(local@),
        None => None,
    }
}

/// Starts to track a file, given its content, or a directory, which has none:
/// makes and signs its metadata.
///
/// The secret key of the account must be there.
pub fn cmd_track(
    ctx: &Context,
    exists: bool,
    attributes: &[(String, Vec<u8>)],
    content: Option<&[u8]>,
    encryption_algorithm: Option<&str>,
    now: &str,
) -> (r: Result<(Metadata, Option<LocalMetadata>), Error>)
    requires
        ctx@.identity_key is Some,
    ensures
        match track_refused(exists, byte_pairs(attributes@), content is None, opt_str(encryption_algorithm)) {
            Some(e) => r matches Err(x) && x@ == e,
            None => match r {
                Ok(t) => {
                    let m = track_metadata(
                        ctx@.identity.address,
                        opt_body(content),
                        opt_str(encryption_algorithm),
                        now@,
                        t.0@.id,
                    );
                    &&& t.0@ == MetadataV { signature: t.0@.signature, ..m }
                    &&& t.0@.id.len() == 36
                    &&& json_signed(ctx@.identity_key->0, metadata_json(unsigned(m))) == Ok::<Tagged, ErrorV>(
                        t.0@.signature,
                    )
                    &&& opt_local(t.1) == track_local(opt_body(content))
                },
                Err(e) => exists|id: Seq<char>|
                    json_signed(
                        ctx@.identity_key->0,
                        metadata_json(
                            unsigned(
                                #[trigger] track_metadata(
                                    ctx@.identity.address,
                                    opt_body(content),
                                    opt_str(encryption_algorithm),
                                    now@,
                                    id,
                                ),
                            ),
                        ),
                    ) == Err::<Tagged, ErrorV>(e@),
            },
        },
{
    if !exists {
        return Err(fail(Fault::PathMissing));
    }
    if has_id(attributes) {
        return Err(fail(Fault::MetadataExists));
    }
    if content.is_none() && encryption_algorithm.is_some() {
        return Err(fail(Fault::AlgorithmForDirectory));
    }
    let algorithm: Option<&str> = if content.is_none() {
        None
    } else {
        match encryption_algorithm {
            Some(a) => if same(a, "none") {
                None
            } else {
                Some(a)
            },
            None => Some(DEFAULT_ENCRYPTION_ALGORITHM),
        }
    };
    let secret = match &ctx.identity_key {
        Some(k) => k,
        None => {
            return Err(fail(Fault::SecretKeySize));
        },
    };
    let mut metadata = create_metadata(&ctx.identity.address, algorithm, now);
    let ghost id = metadata@.id;
    let ghost expected = track_metadata(
        ctx@.identity.address,
        opt_body(content),
        opt_str(encryption_algorithm),
        now@,
        id,
    );
    assert(opt_str(algorithm) == track_algorithm(content is None, opt_str(encryption_algorithm)));
    assert(MetadataV { body_hash: hash_of(opt_body(content)), ..metadata@ } =~= expected);
    match sign_metadata(secret, &mut metadata, content) {
        Ok(()) => {},
        Err(e) => {
            return Err(e);
        },
    }
    let local = match content {
        Some(body) => {
            let l = LocalMetadata { encrypted: Some(false), sync_hash: Some(sha256(body)), sync_modified: None };
            assert(l@ =~= track_local(opt_body(content))->0);
            Some(l)
        },
        None => None,
    };
    Ok((metadata, local))
}

} // verus!
