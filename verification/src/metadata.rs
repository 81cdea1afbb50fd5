//! Metadata: members, keys and signatures.

use vstd::prelude::*;

use crate::crypto::{
    json_signed, json_verified, keys_match, sign_json, verify_json, DEFAULT_ENCRYPTION_ALGORITHM,
    DEFAULT_HASH_ALGORITHM,
};
use crate::error::{bare, fail, seen, Error, ErrorV, Fault};
use crate::fields::has_owner;
use crate::json::{metadata_json, write_metadata_json};
use crate::primitives::{fresh_id, sha256, sha256_of};
use crate::text::{comes_before, opt_str, own_opt, precedes, same, same_bytes};
use crate::types::{
    members_view, no_signature, Key, Member, MemberV, Metadata, MetadataV, Permission, Signature, Tagged,
};

verus! {

// Members.

/// The first member with an address.
pub open spec fn member_at(members: Seq<MemberV>, address: Seq<char>) -> Option<MemberV>
    decreases members.len(),
{
    if members.len() == 0 {
        None
    } else if members[0].address == address {
        Some(members[0])
    } else {
        member_at(members.skip(1), address)
    }
}

/// The view of an optional member.
pub open spec fn opt_member(m: Option<&Member>) -> Option<MemberV> {
    match m {
        Some(member) => Some(member@),
        None => None,
    }
}

/// The first member with an address.
pub fn get_member<'a>(members: &'a [Member], address: &str) -> (r: Option<&'a Member>)
    ensures
        opt_member(r) == member_at(members_view(members@), address@),
{
    let n: usize = members.len();
    let mut i: usize = 0;
    let ghost all = members_view(members@);
    assert(all.skip(0) =~= all);
    while i < n
        invariant
            i <= n == members@.len(),
            all == members_view(members@),
            member_at(all.skip(i as int), address@) == member_at(all, address@),
        decreases n - i,
    {
        assert(all.skip(i as int)[0] == members@[i as int]@);
        if same(&members[i].address, address) {
            return Some(&members[i]);
        }
        assert(all.skip(i as int).skip(1) =~= all.skip(i + 1));
        i = i + 1;
    }
    None
}

/// An address that no member has is found nowhere, and a member that is found
/// has the address and is one of the members.
pub proof fn member_at_is_a_member(members: Seq<MemberV>, address: Seq<char>)
    ensures
        match member_at(members, address) {
            Some(m) => m.address == address && members.contains(m),
            None => forall|i: int| 0 <= i < members.len() ==> (#[trigger] members[i]).address != address,
        },
    decreases members.len(),
{
    if members.len() > 0 {
        if members[0].address == address {
            assert(members.contains(members[0]));
        } else {
            let rest = members.skip(1);
            member_at_is_a_member(rest, address);
            match member_at(rest, address) {
                Some(m) => {
                    let k = choose|k: int| 0 <= k < rest.len() && rest[k] == m;
                    assert(members[k + 1] == m);
                },
                None => {
                    assert forall|i: int| 0 <= i < members.len() implies (#[trigger] members[i]).address
                        != address by {
                        if i > 0 {
                            assert(rest[i - 1] == members[i]);
                        }
                    }
                },
            }
        }
    }
}

/// New metadata: one owner, who made it, and no body or signature yet.
pub open spec fn new_metadata(
    id: Seq<char>,
    now: Seq<char>,
    owner: Seq<char>,
    encryption: Option<Seq<char>>,
) -> MetadataV {
    MetadataV {
        id,
        created: now,
        modified: now,
        modified_by: owner,
        encryption_algorithm: encryption,
        members: seq![MemberV { address: owner, permission: Permission::Owner, key: None }],
        body_hash: None,
        signature: no_signature(),
    }
}

/// New metadata with a fresh id, made at the time `now`.
pub fn create_metadata(owner_address: &str, encryption_algorithm: Option<&str>, now: &str) -> (r: Metadata)
    ensures
        r@ == new_metadata(r@.id, now@, owner_address@, opt_str(encryption_algorithm)),
        r@.id.len() == 36,
        has_owner(r@.members),
{
    let mut members: Vec<Member> = Vec::new();
    members.push(Member { address: owner_address.to_owned(), permission: Permission::Owner, key: None });
    let r = Metadata {
        id: fresh_id(),
        created: now.to_owned(),
        modified: now.to_owned(),
        modified_by: owner_address.to_owned(),
        encryption_algorithm: own_opt(encryption_algorithm),
        members,
        body_hash: None,
        signature: Signature::none(),
    };
    proof {
        let expected = new_metadata(r@.id, now@, owner_address@, opt_str(encryption_algorithm));
        assert(r@.members =~= expected.members);
        assert(r@ =~= expected);
        assert(r@.members[0].permission == Permission::Owner);
    }
    r
}

// Signatures.

/// The hash of a body, where there is one.
pub open spec fn hash_of(body: Option<Seq<u8>>) -> Option<Tagged> {
    match body {
        Some(b) => Some(Tagged { algorithm: DEFAULT_HASH_ALGORITHM@, value: sha256_of(b) }),
        None => None,
    }
}

/// The view of an optional body.
pub open spec fn opt_body(body: Option<&[u8]>) -> Option<Seq<u8>> {
    match body {
        Some(b) => Some(b@),
        None => None,
    }
}

/// Metadata without its signature, as it is signed.
pub open spec fn unsigned(m: MetadataV) -> MetadataV {
    MetadataV { signature: no_signature(), ..m }
}

fn metadata_for_signing(metadata: &Metadata) -> (r: Metadata)
    ensures
        r@ == unsigned(metadata@),
{
    let mut r = metadata.copy();
    r.signature = Signature::none();
    r
}

/// Signs metadata together with the hash of the body. Whoever checks the result
/// against the same body with a matching public key accepts it.
pub fn sign_metadata(secret_key: &Key, metadata: &mut Metadata, body: Option<&[u8]>) -> (r: Result<(), Error>)
    ensures
        ({
            let hashed = MetadataV { body_hash: hash_of(opt_body(body)), ..old(metadata)@ };
            match r {
                Ok(_) => json_signed(secret_key@, metadata_json(unsigned(hashed))) == Ok::<Tagged, ErrorV>(
                    final(metadata)@.signature,
                ) && final(metadata)@ == (MetadataV { signature: final(metadata)@.signature, ..hashed }),
                Err(e) => json_signed(secret_key@, metadata_json(unsigned(hashed))) == Err::<Tagged, ErrorV>(e@)
                    && final(metadata)@ == hashed,
            }
        }),
        r is Ok ==> forall|public: Tagged|
            public.algorithm != DEFAULT_ENCRYPTION_ALGORITHM@ && #[trigger] keys_match(secret_key@, public)
                ==> metadata_verified(public, final(metadata)@, opt_body(body)) is Ok,
{
    metadata.body_hash = match body {
        Some(b) => Some(
            crate::types::Hash { algorithm: DEFAULT_HASH_ALGORITHM.to_owned(), value: sha256(b) },
        ),
        None => None,
    };
    let ghost hashed = MetadataV { body_hash: hash_of(opt_body(body)), ..old(metadata)@ };
    assert(metadata@ =~= hashed);
    let json = write_metadata_json(&metadata_for_signing(metadata));
    match sign_json(secret_key, &json) {
        Ok(signature) => {
            metadata.signature = signature;
            assert(metadata@ =~= MetadataV { signature: metadata@.signature, ..hashed });
            assert(unsigned(metadata@) =~= unsigned(hashed));
            Ok(())
        },
        Err(e) => Err(e),
    }
}

/// Signs metadata anew, with the hash of the body that it has. Whoever checks the
/// result with a matching public key, against that body, accepts it.
pub fn resign_metadata(secret_key: &Key, metadata: &mut Metadata) -> (r: Result<(), Error>)
    ensures
        match r {
            Ok(_) => json_signed(secret_key@, metadata_json(unsigned(old(metadata)@))) == Ok::<Tagged, ErrorV>(
                final(metadata)@.signature,
            ) && final(metadata)@ == (MetadataV { signature: final(metadata)@.signature, ..old(metadata)@ }),
            Err(e) => json_signed(secret_key@, metadata_json(unsigned(old(metadata)@))) == Err::<Tagged, ErrorV>(e@)
                && final(metadata)@ == old(metadata)@,
        },
        r is Ok ==> forall|public: Tagged, body: Option<Seq<u8>>|
            public.algorithm != DEFAULT_ENCRYPTION_ALGORITHM@ && keys_match(secret_key@, public) && hash_of(body)
                == old(metadata)@.body_hash ==> #[trigger] metadata_verified(public, final(metadata)@, body) is Ok,
        r is Ok ==> forall|public: Tagged|
            public.algorithm != DEFAULT_ENCRYPTION_ALGORITHM@ && #[trigger] keys_match(secret_key@, public)
                ==> signature_verified(public, final(metadata)@) is Ok,
{
    let json = write_metadata_json(&metadata_for_signing(metadata));
    match sign_json(secret_key, &json) {
        Ok(signature) => {
            metadata.signature = signature;
            assert(metadata@ =~= MetadataV { signature: metadata@.signature, ..old(metadata)@ });
            assert(unsigned(metadata@) =~= unsigned(old(metadata)@));
            Ok(())
        },
        Err(e) => Err(e),
    }
}

/// Whether the signature of metadata is valid.
pub open spec fn signature_verified(public: Tagged, m: MetadataV) -> Result<(), ErrorV> {
    if json_verified(public, m.signature, metadata_json(unsigned(m))) is Ok {
        Ok(())
    } else {
        Err(bare(Fault::MetadataSignature))
    }
}

/// Checks the signature of metadata.
pub fn verify_metadata_signature(public_key: &Key, metadata: &Metadata) -> (r: Result<(), Error>)
    ensures
        seen(r) == signature_verified(public_key@, metadata@),
{
    let json = write_metadata_json(&metadata_for_signing(metadata));
    match verify_json(public_key, &metadata.signature, &json) {
        Ok(()) => Ok(()),
        Err(_) => Err(fail(Fault::MetadataSignature)),
    }
}

/// Whether metadata is signed and belongs to a body: a file has the hash of its
/// body, a directory has none.
pub open spec fn metadata_verified(public: Tagged, m: MetadataV, body: Option<Seq<u8>>) -> Result<(), ErrorV> {
    match signature_verified(public, m) {
        Err(e) => Err(e),
        Ok(_) => match (body, m.body_hash) {
            (Some(b), Some(hash)) => if hash.value != sha256_of(b) {
                Err(bare(Fault::BodyHashMismatch))
            } else {
                Ok(())
            },
            (Some(_), None) => Err(bare(Fault::BodyHashMissing)),
            (None, Some(_)) => Err(bare(Fault::BodyHashUnexpected)),
            (None, None) => Ok(()),
        },
    }
}

/// Checks the signature of metadata, and that it belongs to the body.
pub fn verify_metadata(public_key: &Key, metadata: &Metadata, body: Option<&[u8]>) -> (r: Result<(), Error>)
    ensures
        seen(r) == metadata_verified(public_key@, metadata@, opt_body(body)),
{
    match verify_metadata_signature(public_key, metadata) {
        Ok(()) => {},
        Err(e) => {
            return Err(e);
        },
    }
    match (body, &metadata.body_hash) {
        (Some(b), Some(hash)) => {
            if !same_bytes(&hash.value, &sha256(b)) {
                return Err(fail(Fault::BodyHashMismatch));
            }
            Ok(())
        },
        (Some(_), None) => Err(fail(Fault::BodyHashMissing)),
        (None, Some(_)) => Err(fail(Fault::BodyHashUnexpected)),
        (None, None) => Ok(()),
    }
}

/// Whether metadata may take the place of what is there: it is signed, belongs
/// to the body, keeps the id and is not older.
pub open spec fn update_verified(
    public: Tagged,
    m: MetadataV,
    existing: Option<MetadataV>,
    body: Option<Seq<u8>>,
) -> Result<(), ErrorV> {
    match metadata_verified(public, m, body) {
        Err(e) => Err(e),
        Ok(_) => match existing {
            Some(old) => if m.id != old.id {
                Err(bare(Fault::IdWrong))
            } else if precedes(m.modified, old.modified) {
                Err(bare(Fault::ModifiedOlder))
            } else {
                Ok(())
            },
            None => Ok(()),
        },
    }
}

/// The view of optional metadata.
pub open spec fn opt_metadata(m: Option<&Metadata>) -> Option<MetadataV> {
    match m {
        Some(metadata) => Some(metadata@),
        None => None,
    }
}

/// Checks that metadata may take the place of what is there.
pub fn validate_update(
    public_key: &Key,
    metadata: &Metadata,
    existing: Option<&Metadata>,
    body: Option<&[u8]>,
) -> (r: Result<(), Error>)
    ensures
        seen(r) == update_verified(public_key@, metadata@, opt_metadata(existing), opt_body(body)),
{
    match verify_metadata(public_key, metadata, body) {
        Ok(()) => {},
        Err(e) => {
            return Err(e);
        },
    }
    match existing {
        Some(old) => {
            if !same(&metadata.id, &old.id) {
                return Err(fail(Fault::IdWrong));
            }
            if comes_before(&metadata.modified, &old.modified) {
                return Err(fail(Fault::ModifiedOlder));
            }
            Ok(())
        },
        None => Ok(()),
    }
}

} // verus!
