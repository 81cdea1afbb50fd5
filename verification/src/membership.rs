//! Members' identities, and file keys wrapped for them.

use vstd::prelude::*;

use crate::crypto::{
    cannot_encrypt, decrypt_bytes, decrypted, encrypt_bytes, encrypt_fault, encryption_for, keys_match, owned,
    DEFAULT_ENCRYPTION_ALGORITHM,
};
use crate::error::{bare, fail, fail_with, seen, with, Error, ErrorV, Fault};
use crate::metadata::{get_member, member_at, opt_body};
use crate::permissions::{change_members, changed, everyone, place};
use crate::primitives::fits_cipher;
use crate::text::{opt_bytes, same};
use crate::types::{
    members_view, opt_key, Context, ContextV, Identity, IdentityV, Key, Member, MemberV, Metadata, MetadataV,
    Permissions, Tagged,
};

verus! {

/// What looking up the identity of an address came to.
#[derive(Debug)]
pub struct Found {
    pub address: String,
    pub outcome: Result<Identity, Error>,
}

/// The identities that were looked up.
#[derive(Debug)]
pub struct Directory {
    pub entries: Vec<Found>,
}

impl View for Found {
    type V = (Seq<char>, Result<IdentityV, ErrorV>);

    open spec fn view(&self) -> (Seq<char>, Result<IdentityV, ErrorV>) {
        (self.address@, seen(self.outcome))
    }
}

impl View for Directory {
    type V = Seq<(Seq<char>, Result<IdentityV, ErrorV>)>;

    open spec fn view(&self) -> Seq<(Seq<char>, Result<IdentityV, ErrorV>)> {
        self.entries@.map_values(|f: Found| f@)
    }
}

/// What the first lookup of an address came to.
pub open spec fn looked_up(dir: Seq<(Seq<char>, Result<IdentityV, ErrorV>)>, address: Seq<char>) -> Result<
    IdentityV,
    ErrorV,
>
    decreases dir.len(),
{
    if dir.len() == 0 {
        Err(with(Fault::UnknownIdentity, address))
    } else if dir[0].0 == address {
        dir[0].1
    } else {
        looked_up(dir.skip(1), address)
    }
}

/// The identity of an address: the account's own, or one that was looked up.
pub open spec fn identity_at(
    own: IdentityV,
    dir: Seq<(Seq<char>, Result<IdentityV, ErrorV>)>,
    address: Seq<char>,
) -> Result<IdentityV, ErrorV> {
    if address == own.address {
        Ok(own)
    } else {
        looked_up(dir, address)
    }
}

/// A copy of an error.
pub(crate) fn copy_error(e: &Error) -> (r: Error)
    ensures
        r@ == e@,
{
    Error { fault: e.fault, detail: e.detail.clone() }
}

/// The identity of an address.
pub fn find_identity(own: &Identity, directory: &Directory, address: &str) -> (r: Result<Identity, Error>)
    ensures
        seen(r) == identity_at(own@, directory@, address@),
{
    if same(address, &own.address) {
        return Ok(own.copy());
    }
    let n: usize = directory.entries.len();
    let mut i: usize = 0;
    let ghost all = directory@;
    assert(all.skip(0) =~= all);
    while i < n
        invariant
            i <= n == directory.entries@.len(),
            all == directory@,
            address@ != own@.address,
            looked_up(all.skip(i as int), address@) == looked_up(all, address@),
        decreases n - i,
    {
        assert(all.skip(i as int)[0] == directory.entries@[i as int]@);
        let entry = &directory.entries[i];
        if same(&entry.address, address) {
            return match &entry.outcome {
                Ok(identity) => Ok(identity.copy()),
                Err(e) => Err(copy_error(e)),
            };
        }
        assert(all.skip(i as int).skip(1) =~= all.skip(i + 1));
        i = i + 1;
    }
    Err(fail_with(Fault::UnknownIdentity, address.to_owned()))
}

// File keys.

/// Why no key can be wrapped for an address, if so. Everyone needs none.
pub open spec fn cannot_wrap(
    own: IdentityV,
    dir: Seq<(Seq<char>, Result<IdentityV, ErrorV>)>,
    address: Seq<char>,
) -> Option<ErrorV> {
    if address == everyone() {
        None
    } else {
        match identity_at(own, dir, address) {
            Ok(identity) => cannot_encrypt(identity.public_key),
            Err(e) => Some(e),
        }
    }
}

/// Whether whatever fits the cipher can be wrapped for an address: it is everyone, for
/// whom nothing is wrapped, or it has an identity whose public key has an owner.
pub open spec fn reachable(
    own: IdentityV,
    dir: Seq<(Seq<char>, Result<IdentityV, ErrorV>)>,
    address: Seq<char>,
) -> bool {
    address == everyone() || (match identity_at(own, dir, address) {
        Ok(identity) => owned(identity.public_key) && identity.public_key.algorithm != DEFAULT_ENCRYPTION_ALGORITHM@,
        Err(_) => false,
    })
}

/// Whether a file key could not be wrapped for an address, and why: because there is
/// no identity, because none can be wrapped for its public key, otherwise only as
/// encrypting for that key fails. For everyone nothing is wrapped.
pub open spec fn wrap_fault(
    own: IdentityV,
    dir: Seq<(Seq<char>, Result<IdentityV, ErrorV>)>,
    address: Seq<char>,
    key: Seq<u8>,
    e: ErrorV,
) -> bool {
    &&& address != everyone()
    &&& match identity_at(own, dir, address) {
        Err(x) => e == x,
        Ok(identity) => match cannot_encrypt(identity.public_key) {
            Some(x) => e == x,
            None => encrypt_fault(identity.public_key, key, e),
        },
    }
}

/// Whether a file key could not be wrapped for some member, and why.
pub open spec fn key_fault(
    own: IdentityV,
    dir: Seq<(Seq<char>, Result<IdentityV, ErrorV>)>,
    members: Seq<MemberV>,
    key: Seq<u8>,
    e: ErrorV,
) -> bool {
    exists|i: int| 0 <= i < members.len() && wrap_fault(own, dir, (#[trigger] members[i]).address, key, e)
}

/// Whether a file key could not be wrapped for someone who joins, and why.
pub open spec fn join_fault(
    own: IdentityV,
    dir: Seq<(Seq<char>, Result<IdentityV, ErrorV>)>,
    before: Seq<MemberV>,
    listed: Seq<MemberV>,
    key: Option<Seq<u8>>,
    e: ErrorV,
) -> bool {
    key is Some && exists|i: int|
        0 <= i < listed.len() && place(before, listed[i].address) == before.len() && wrap_fault(
            own,
            dir,
            (#[trigger] listed[i]).address,
            key->0,
            e,
        )
}

/// Whether a file key is wrapped for a public key: any matching secret key
/// unwraps it.
pub open spec fn wrapped(public: Tagged, key: Tagged, file_key: Seq<u8>) -> bool {
    &&& key.algorithm == encryption_for(public)
    &&& forall|secret: Tagged| #[trigger]
        keys_match(secret, public) ==> decrypted(secret, key.value) == Ok::<Seq<u8>, ErrorV>(file_key)
}

/// Whether what a member holds is the file key: wrapped for its identity, or
/// nothing when the member stands for everyone.
pub open spec fn holds_key(
    own: IdentityV,
    dir: Seq<(Seq<char>, Result<IdentityV, ErrorV>)>,
    address: Seq<char>,
    held: Option<Tagged>,
    file_key: Seq<u8>,
) -> bool {
    if address == everyone() {
        held is None
    } else {
        &&& identity_at(own, dir, address) matches Ok(identity)
        &&& held matches Some(key)
        &&& wrapped(identity.public_key, key, file_key)
    }
}

fn wrap_for(own: &Identity, directory: &Directory, address: &str, file_key: &[u8]) -> (r: Result<Option<Key>, Error>)
    ensures
        r matches Ok(key) ==> cannot_wrap(own@, directory@, address@) is None && holds_key(
            own@,
            directory@,
            address@,
            opt_key(key),
            file_key@,
        ),
        r matches Err(e) ==> wrap_fault(own@, directory@, address@, file_key@, e@),
        reachable(own@, directory@, address@) && fits_cipher(file_key@) ==> r is Ok,
{
    if same(address, "*") {
        return Ok(None);
    }
    let identity = match find_identity(own, directory, address) {
        Ok(i) => i,
        Err(e) => {
            return Err(e);
        },
    };
    match encrypt_bytes(&identity.public_key, file_key) {
        Ok((algorithm, value)) => Ok(Some(Key { algorithm, value })),
        Err(e) => Err(e),
    }
}

/// Wraps a file key for every member. It succeeds where every member can be reached.
pub fn apply_key_to_metadata(
    ctx: &Context,
    directory: &Directory,
    metadata: &mut Metadata,
    secret_key: &Key,
) -> (r: Result<(), Error>)
    ensures
        final(metadata)@ == (MetadataV { members: final(metadata)@.members, ..old(metadata)@ }),
        final(metadata)@.members.len() == old(metadata)@.members.len(),
        forall|i: int|
            0 <= i < old(metadata)@.members.len() ==> (#[trigger] final(metadata)@.members[i]).address
                == old(metadata)@.members[i].address && final(metadata)@.members[i].permission
                == old(metadata)@.members[i].permission,
        r is Ok ==> forall|i: int|
            0 <= i < final(metadata)@.members.len() ==> holds_key(
                ctx@.identity,
                directory@,
                (#[trigger] final(metadata)@.members[i]).address,
                final(metadata)@.members[i].key,
                secret_key@.value,
            ),
        r is Ok ==> forall|i: int|
            0 <= i < old(metadata)@.members.len() ==> cannot_wrap(
                ctx@.identity,
                directory@,
                (#[trigger] old(metadata)@.members[i]).address,
            ) is None,
        r matches Err(e) ==> key_fault(ctx@.identity, directory@, old(metadata)@.members, secret_key@.value, e@),
        fits_cipher(secret_key@.value) && (forall|i: int|
            0 <= i < old(metadata)@.members.len() ==> reachable(
                ctx@.identity,
                directory@,
                (#[trigger] old(metadata)@.members[i]).address,
            )) ==> r is Ok,
{
    let n: usize = metadata.members.len();
    let mut i: usize = 0;
    let ghost before = metadata@.members;
    while i < n
        invariant
            i <= n == metadata.members@.len() == before.len(),
            before == old(metadata)@.members,
            metadata@ == (MetadataV { members: metadata@.members, ..old(metadata)@ }),
            forall|k: int|
                0 <= k < n ==> (#[trigger] metadata@.members[k]).address == before[k].address
                    && metadata@.members[k].permission == before[k].permission,
            forall|k: int|
                0 <= k < i ==> holds_key(
                    ctx@.identity,
                    directory@,
                    (#[trigger] metadata@.members[k]).address,
                    metadata@.members[k].key,
                    secret_key@.value,
                ),
            forall|k: int|
                0 <= k < i ==> cannot_wrap(ctx@.identity, directory@, (#[trigger] before[k]).address) is None,
        decreases n - i,
    {
        assert(metadata@.members[i as int].address == before[i as int].address);
        match wrap_for(&ctx.identity, directory, &metadata.members[i].address, &secret_key.value) {
            Ok(key) => {
                let ghost earlier = metadata@;
                let ghost m = MemberV { key: opt_key(key), ..earlier.members[i as int] };
                metadata.members[i].key = key;
                proof {
                    assert(metadata@.members =~= earlier.members.update(i as int, m));
                    assert(metadata@ =~= MetadataV { members: metadata@.members, ..old(metadata)@ });
                }
            },
            Err(e) => {
                assert(wrap_fault(
                    ctx@.identity,
                    directory@,
                    before[i as int].address,
                    secret_key@.value,
                    e@,
                ));
                return Err(e);
            },
        }
        i = i + 1;
    }
    Ok(())
}

/// The file key that is wrapped for the account, if one is. The account must be a
/// member.
pub open spec fn file_key(ctx: ContextV, members: Seq<MemberV>) -> Result<Option<Seq<u8>>, ErrorV> {
    match member_at(members, ctx.identity.address) {
        Some(m) => match m.key {
            Some(key) => match decrypted(ctx.identity_key->0, key.value) {
                Ok(b) => Ok(Some(b)),
                Err(e) => Err(e),
            },
            None => Ok(None),
        },
        None => Err(bare(Fault::NoMemberDenied)),
    }
}

/// The file key that is wrapped for the account, if one is.
pub fn resolve_key_from_members(ctx: &Context, members: &[Member]) -> (r: Result<Option<Vec<u8>>, Error>)
    requires
        ctx@.identity_key is Some,
    ensures
        r matches Ok(k) ==> file_key(ctx@, members_view(members@)) == Ok::<Option<Seq<u8>>, ErrorV>(opt_bytes(k)),
        r matches Err(e) ==> file_key(ctx@, members_view(members@)) == Err::<Option<Seq<u8>>, ErrorV>(e@),
{
    let secret = match &ctx.identity_key {
        Some(k) => k,
        None => {
            return Ok(None);
        },
    };
    match get_member(members, &ctx.identity.address) {
        Some(member) => match &member.key {
            Some(key) => match decrypt_bytes(secret, &key.value) {
                Ok(b) => Ok(Some(b)),
                Err(e) => Err(e),
            },
            None => Ok(None),
        },
        None => Err(fail(Fault::NoMemberDenied)),
    }
}

/// A member of a file recovers the key that was wrapped for every member.
pub proof fn wrapped_key_is_recovered(
    ctx: ContextV,
    dir: Seq<(Seq<char>, Result<IdentityV, ErrorV>)>,
    members: Seq<MemberV>,
    key: Seq<u8>,
)
    requires
        ctx.identity_key matches Some(secret) && keys_match(secret, ctx.identity.public_key),
        ctx.identity.address != everyone(),
        member_at(members, ctx.identity.address) is Some,
        forall|i: int| 0 <= i < members.len() ==> holds_key(
            ctx.identity,
            dir,
            (#[trigger] members[i]).address,
            members[i].key,
            key,
        ),
    ensures
        file_key(ctx, members) == Ok::<Option<Seq<u8>>, ErrorV>(Some(key)),
{
    crate::metadata::member_at_is_a_member(members, ctx.identity.address);
    let m = member_at(members, ctx.identity.address)->0;
    let i = choose|i: int| 0 <= i < members.len() && members[i] == m;
    assert(holds_key(ctx.identity, dir, members[i].address, members[i].key, key));
    assert(keys_match(ctx.identity_key->0, ctx.identity.public_key));
}

// Changing members.

/// Whether the members after a change are the rearranged ones, with the file
/// key wrapped for those who joined.
pub open spec fn joined(
    own: IdentityV,
    dir: Seq<(Seq<char>, Result<IdentityV, ErrorV>)>,
    before: Seq<MemberV>,
    listed: Seq<MemberV>,
    after: Seq<MemberV>,
    key: Option<Seq<u8>>,
) -> bool {
    &&& after.len() == listed.len()
    &&& forall|i: int|
        0 <= i < listed.len() ==> if key is Some && place(before, listed[i].address) == before.len() {
            holds_key(own, dir, (#[trigger] after[i]).address, after[i].key, key->0) && after[i].address == listed[i].address
                && after[i].permission == listed[i].permission
        } else {
            after[i] == listed[i]
        }
}

/// Whether everyone who joins can be reached.
pub open spec fn joiners_reachable(
    own: IdentityV,
    dir: Seq<(Seq<char>, Result<IdentityV, ErrorV>)>,
    before: Seq<MemberV>,
    listed: Seq<MemberV>,
) -> bool {
    forall|i: int|
        0 <= i < listed.len() && place(before, listed[i].address) == before.len() ==> reachable(
            own,
            dir,
            (#[trigger] listed[i]).address,
        )
}

/// Changes the members of a file. Where the file key is given, it is wrapped for
/// those who join. A change that is allowed is made where no key is given, and where
/// everyone who joins can be reached.
pub fn apply_permissions(
    ctx: &Context,
    directory: &Directory,
    metadata: &mut Metadata,
    permissions: &Permissions,
    existing_key: Option<&[u8]>,
) -> (r: Result<(), Error>)
    ensures
        ({
            let m = old(metadata)@;
            let list = changed(m.members, permissions@, m.encryption_algorithm is Some);
            match r {
                Ok(_) => list is Ok && joined(
                    ctx@.identity,
                    directory@,
                    m.members,
                    list->Ok_0,
                    final(metadata)@.members,
                    opt_body(existing_key),
                ) && final(metadata)@ == (MetadataV { members: final(metadata)@.members, ..m }),
                Err(e) => (match list {
                    Err(x) => e@ == x,
                    Ok(listed) => join_fault(
                        ctx@.identity,
                        directory@,
                        m.members,
                        listed,
                        opt_body(existing_key),
                        e@,
                    ),
                }) && final(metadata)@ == m,
            }
        }),
        ({
            let m = old(metadata)@;
            changed(m.members, permissions@, m.encryption_algorithm is Some) matches Ok(listed) && (opt_body(
                existing_key,
            ) matches Some(key) ==> fits_cipher(key) && joiners_reachable(
                ctx@.identity,
                directory@,
                m.members,
                listed,
            )) ==> r is Ok
        }),
{
    let mut list = match change_members(&metadata.members, permissions, metadata.encryption_algorithm.is_some()) {
        Ok(l) => l,
        Err(e) => {
            return Err(e);
        },
    };
    let ghost listed = members_view(list@);
    let ghost before = metadata@.members;
    if let Some(key) = existing_key {
        let n: usize = list.len();
        let mut i: usize = 0;
        while i < n
            invariant
                i <= n == list@.len() == listed.len(),
                before == metadata@.members,
                metadata@ == old(metadata)@,
                existing_key == Some(key),
                changed(metadata@.members, permissions@, metadata@.encryption_algorithm is Some) == Ok::<
                    Seq<MemberV>,
                    ErrorV,
                >(listed),
                forall|k: int|
                    0 <= k < i ==> if place(before, listed[k].address) == before.len() {
                        holds_key(
                            ctx@.identity,
                            directory@,
                            (#[trigger] members_view(list@)[k]).address,
                            members_view(list@)[k].key,
                            key@,
                        ) && members_view(list@)[k].address == listed[k].address && members_view(list@)[k].permission
                            == listed[k].permission
                    } else {
                        members_view(list@)[k] == listed[k]
                    },
                forall|k: int| i <= k < n ==> #[trigger] members_view(list@)[k] == listed[k],
            decreases n - i,
        {
            assert(members_view(list@)[i as int] == listed[i as int]);
            let at: usize = crate::permissions::place_of(&metadata.members, &list[i].address);
            if at == metadata.members.len() {
                match wrap_for(&ctx.identity, directory, &list[i].address, key) {
                    Ok(wrapped_key) => {
                        let ghost earlier = members_view(list@);
                        let ghost m = MemberV { key: opt_key(wrapped_key), ..listed[i as int] };
                        list[i].key = wrapped_key;
                        proof {
                            assert(members_view(list@) =~= earlier.update(i as int, m));
                        }
                    },
                    Err(e) => {
                        proof {
                            let l = changed(
                                old(metadata)@.members,
                                permissions@,
                                old(metadata)@.encryption_algorithm is Some,
                            );
                            assert(l->Ok_0[i as int].address == listed[i as int].address);
                        }
                        return Err(e);
                    },
                }
            }
            i = i + 1;
        }
    }
    metadata.members = list;
    assert(metadata@ =~= MetadataV { members: metadata@.members, ..old(metadata)@ });
    Ok(())
}

} // verus!
