//! What holds of what a client takes over, shares and looks up.

use vstd::prelude::*;

use crate::accounts::{
    account_file, address_of, all_added, group_after, group_change_refused, group_changed, group_members, group_permissions, is_json,
    key_path, members_of, new_account, new_identity_refused, other_members, outside, without_all,
};
use crate::download::{copy_of, downloaded, headed};
use crate::error::{ErrorV, Fault};
use crate::fields::{carries_metadata, metadata_of, metadata_of_attributes};
use crate::http::{request_read, ResponseV};
use crate::identity::{address_parts, identity_of, identity_valid};
use crate::listing::DirectoryEntryKind;
use crate::locate::{bare_address, inner_path, is_address, located, rooted, url_text};
use crate::log::{entry_bytes, entry_metadata, recorded};
use crate::manage::{
    account_path, changeable, owned, shared_key, track_algorithm, track_local, track_metadata, track_refused,
};
use crate::membership::{file_key, identity_at};
use crate::metadata::{hash_of, member_at, metadata_verified, new_metadata, signature_verified, update_verified};
use crate::paths::below;
use crate::permissions::{all_as, assigned, changed, dropped, given, granted, kept, mentions, wire};
use crate::primitives::sha256_of;
use crate::resolve::{fetched_identity, flattened, resolved_identity, sources_of, ResolutionV, StoredV};
use crate::sealing::{carries_id, stream_decrypted};
use crate::text::{first, lemma_first, precedes};
use crate::types::{ContextV, IdentityV, MemberV, MetadataV, Permission, PermissionsV, Tagged};
use crate::watch::{change_means, Change, EntryAction};

verus! {

// What is downloaded.

/// Metadata is signed for a body just where the signature is valid and either both or
/// neither of body and hash are there, the hash being that of the body.
#[verifier::rlimit(40)]
pub proof fn metadata_goes_with_its_body(public: Tagged, m: MetadataV, body: Option<Seq<u8>>)
    ensures
        metadata_verified(public, m, body) is Ok <==> signature_verified(public, m) is Ok && (match (body, m.body_hash) {
            (Some(b), Some(hash)) => hash.value == sha256_of(b),
            (None, None) => true,
            _ => false,
        }),
{
}

/// Metadata takes the place of what is there just where it is signed for its body, has
/// the same id and is not older: the same time or a later one will do, however much
/// later.
pub proof fn newer_metadata_is_taken(public: Tagged, m: MetadataV, old_metadata: MetadataV, body: Option<Seq<u8>>)
    ensures
        update_verified(public, m, None, body) is Ok <==> metadata_verified(public, m, body) is Ok,
        update_verified(public, m, Some(old_metadata), body) is Ok <==> metadata_verified(public, m, body) is Ok && m.id
            == old_metadata.id && !precedes(m.modified, old_metadata.modified),
        metadata_verified(public, m, body) is Ok && m.id != old_metadata.id ==> (update_verified(
            public,
            m,
            Some(old_metadata),
            body,
        ) matches Err(e) && e.fault == Fault::IdWrong),
        metadata_verified(public, m, body) is Ok && m.id == old_metadata.id && precedes(
            m.modified,
            old_metadata.modified,
        ) ==> (update_verified(public, m, Some(old_metadata), body) matches Err(e) && e.fault == Fault::ModifiedOlder),
{
}

/// A response that carries metadata, signed for its body by the account that it names,
/// is taken, whether there is no copy yet or one that it continues. What is written is
/// the body as it came, or decrypted where that is asked for and it is encrypted; what
/// is remembered of it is its hash, unless it stays encrypted, and the time of the
/// change.
#[verifier::rlimit(40)]
pub proof fn downloads_continue_the_copy(
    ctx: ContextV,
    dir: Seq<(Seq<char>, Result<IdentityV, ErrorV>)>,
    path: Seq<char>,
    response: ResponseV,
    decrypt: bool,
    existing: Option<MetadataV>,
    m: MetadataV,
    modifier: IdentityV,
)
    requires
        200 <= response.status < 300,
        carries_metadata(response.headers),
        metadata_of(response.headers) == Ok::<MetadataV, ErrorV>(m),
        identity_at(ctx.identity, dir, m.modified_by) == Ok::<IdentityV, ErrorV>(modifier),
        signature_verified(modifier.public_key, m) is Ok,
        m.body_hash matches Some(hash) ==> hash.value == sha256_of(response.body),
        existing matches Some(copy) ==> m.id == copy.id && !precedes(m.modified, copy.modified),
    ensures
        ({
            let r = downloaded(ctx, dir, path, response, decrypt, existing);
            let opens = decrypt && m.encryption_algorithm is Some;
            let stays = !decrypt && m.encryption_algorithm is Some;
            &&& !opens ==> (r matches Ok(d) && d.body == response.body)
            &&& opens ==> (r is Ok <==> stream_decrypted(ctx, m, response.body) is Ok)
            &&& opens ==> (r matches Ok(d) ==> stream_decrypted(ctx, m, response.body) == Ok::<Seq<u8>, ErrorV>(d.body))
            &&& r matches Ok(d) ==> d.metadata == m && d.local.sync_modified == Some(m.modified) && (d.local.encrypted
                is None <==> m.body_hash is None) && (m.body_hash is Some ==> d.local.encrypted == Some(stays))
                && d.local.sync_hash == (if m.body_hash is Some && !stays {
                Some(sha256_of(d.body))
            } else {
                None
            })
        }),
{
}

/// A download is only taken from a response that means success, carries metadata, and
/// is signed for its body by an account that is known.
pub proof fn only_signed_downloads_are_taken(
    ctx: ContextV,
    dir: Seq<(Seq<char>, Result<IdentityV, ErrorV>)>,
    path: Seq<char>,
    response: ResponseV,
    decrypt: bool,
    existing: Option<MetadataV>,
)
    ensures
        downloaded(ctx, dir, path, response, decrypt, existing) matches Ok(d) ==> {
            &&& 200 <= response.status < 300
            &&& carries_metadata(response.headers)
            &&& metadata_of(response.headers) == Ok::<MetadataV, ErrorV>(d.metadata)
            &&& identity_at(ctx.identity, dir, d.metadata.modified_by) matches Ok(modifier)
            &&& signature_verified(modifier.public_key, d.metadata) is Ok
            &&& d.metadata.body_hash matches Some(hash) ==> hash.value == sha256_of(response.body)
            &&& existing matches Some(copy) ==> d.metadata.id == copy.id && !precedes(
                d.metadata.modified,
                copy.modified,
            )
        },
{
}

/// The headers of a file are taken just where they are given with `200` and hold metadata
/// that the account they name has signed.
pub proof fn signed_headers_are_taken(
    ctx: ContextV,
    dir: Seq<(Seq<char>, Result<IdentityV, ErrorV>)>,
    response: ResponseV,
)
    ensures
        headed(ctx, dir, response) is Ok <==> response.status == 200 && metadata_of(response.headers) is Ok && (match identity_at(
            ctx.identity,
            dir,
            metadata_of(response.headers)->Ok_0.modified_by,
        ) {
            Ok(modifier) => signature_verified(modifier.public_key, metadata_of(response.headers)->Ok_0) is Ok,
            Err(_) => false,
        }),
        headed(ctx, dir, response) matches Ok(r) ==> r.0 == response.headers && metadata_of(response.headers) == Ok::<
            MetadataV,
            ErrorV,
        >(r.1),
{
}

/// A copy is one just where its attributes hold metadata.
pub proof fn copies_carry_metadata(attributes: Seq<(Seq<char>, Seq<u8>)>)
    ensures
        copy_of(attributes) is Some <==> metadata_of_attributes(attributes) is Ok,
        copy_of(attributes) matches Some(m) ==> metadata_of_attributes(attributes) == Ok::<MetadataV, ErrorV>(m),
{
}

/// New metadata has one member, who owns it and made it now, and neither a hash nor a
/// signature.
pub proof fn new_files_belong_to_their_maker(
    id: Seq<char>,
    now: Seq<char>,
    owner: Seq<char>,
    encryption: Option<Seq<char>>,
    body: Seq<u8>,
)
    ensures
        ({
            let m = new_metadata(id, now, owner, encryption);
            &&& m.id == id
            &&& m.created == now
            &&& m.modified == now
            &&& m.modified_by == owner
            &&& m.encryption_algorithm == encryption
            &&& m.members.len() == 1
            &&& m.members[0].address == owner
            &&& m.members[0].permission == Permission::Owner
            &&& m.members[0].key is None
            &&& m.body_hash is None
            &&& m.signature.value.len() == 0
        }),
        hash_of(Some(body)) matches Some(hash) && hash.algorithm == "sha-256"@ && hash.value == sha256_of(body),
        hash_of(None) is None,
{
}

// Who may do what with a file.

/// Everyone may be called `public`; any other word is an address as it stands.
pub proof fn public_means_everyone(address: Seq<char>)
    ensures
        address == "public"@ ==> wire(address) == "*"@,
        address != "public"@ ==> wire(address) == address,
{
}

/// To drop addresses leaves exactly the members at other addresses, in their order and
/// with their keys.
#[verifier::rlimit(40)]
pub proof fn dropping_keeps_the_others(members: Seq<MemberV>, list: Seq<Seq<char>>)
    ensures
        dropped(members, list) == members.filter(|m: MemberV| !mentions(list, m.address)),
        forall|address: Seq<char>| #[trigger]
            kept(members, address) == members.filter(|m: MemberV| m.address != address),
    decreases list.len(),
{
    assert forall|address: Seq<char>| #[trigger]
        kept(members, address) == members.filter(|m: MemberV| m.address != address) by {
        lemma_kept_filter(members, address);
    }
    let stays = |m: MemberV| !mentions(list, m.address);
    if list.len() == 0 {
        lemma_filter_all(members, stays);
    } else {
        let front = list.drop_last();
        let word = wire(list.last());
        dropping_keeps_the_others(members, front);
        let before = dropped(members, front);
        lemma_kept_filter(before, word);
        let others = |m: MemberV| !mentions(front, m.address);
        let apart = |m: MemberV| m.address != word;
        assert forall|m: MemberV| #[trigger] stays(m) == (others(m) && apart(m)) by {
            lemma_mentions(list, m.address);
        }
        lemma_filter_twice(members, others, apart, stays);
    }
}

#[verifier::rlimit(40)]
proof fn lemma_mentions(list: Seq<Seq<char>>, address: Seq<char>)
    requires
        list.len() > 0,
    ensures
        mentions(list, address) == (mentions(list.drop_last(), address) || wire(list.last()) == address),
{
    let front = list.drop_last();
    if mentions(list, address) {
        let i = choose|i: int| 0 <= i < list.len() && wire(#[trigger] list[i]) == address;
        if i < front.len() {
            assert(front[i] == list[i]);
        }
    }
    if mentions(front, address) {
        let i = choose|i: int| 0 <= i < front.len() && wire(#[trigger] front[i]) == address;
        assert(front[i] == list[i]);
    }
    if wire(list.last()) == address {
        assert(wire(list[list.len() - 1]) == address);
    }
}

proof fn lemma_kept_filter(members: Seq<MemberV>, address: Seq<char>)
    ensures
        kept(members, address) == members.filter(|m: MemberV| m.address != address),
    decreases members.len(),
{
    reveal(Seq::filter);
    if members.len() > 0 {
        lemma_kept_filter(members.drop_last(), address);
    }
}

proof fn lemma_filter_all<A>(list: Seq<A>, keep: spec_fn(A) -> bool)
    requires
        forall|a: A| #[trigger] keep(a),
    ensures
        list.filter(keep) == list,
    decreases list.len(),
{
    reveal(Seq::filter);
    if list.len() > 0 {
        lemma_filter_all(list.drop_last(), keep);
        assert(list.drop_last().push(list.last()) =~= list);
    } else {
        assert(list.filter(keep) =~= list);
    }
}

proof fn lemma_filter_twice<A>(
    list: Seq<A>,
    one: spec_fn(A) -> bool,
    two: spec_fn(A) -> bool,
    both: spec_fn(A) -> bool,
)
    requires
        forall|a: A| #[trigger] both(a) == (one(a) && two(a)),
    ensures
        list.filter(one).filter(two) == list.filter(both),
    decreases list.len(),
{
    reveal(Seq::filter);
    if list.len() > 0 {
        let front = list.drop_last();
        lemma_filter_twice(front, one, two, both);
        let a = list.last();
        assert(both(a) == (one(a) && two(a)));
        if one(a) {
            let r = front.filter(one).push(a);
            assert(r.drop_last() =~= front.filter(one));
            assert(list.filter(one) == r);
        }
    }
}

/// To give an address a permission changes that of the first member there and nothing
/// else, or adds a member without a key behind the others.
pub proof fn giving_a_permission_changes_it_alone(members: Seq<MemberV>, address: Seq<char>, p: Permission, i: int)
    requires
        0 <= i < members.len(),
        members[i].address == address,
        forall|j: int| 0 <= j < i ==> (#[trigger] members[j]).address != address,
    ensures
        assigned(members, address, p).len() == members.len(),
        forall|j: int| 0 <= j < members.len() && j != i ==> #[trigger] assigned(members, address, p)[j] == members[j],
        assigned(members, address, p)[i] == (MemberV { address, permission: p, key: members[i].key }),
{
    crate::access_laws::first_member_is_found(members, address, i);
}

/// Who is given a permission and is no member joins behind the members, without a key.
pub proof fn new_members_join_at_the_end(members: Seq<MemberV>, address: Seq<char>, p: Permission)
    requires
        forall|j: int| 0 <= j < members.len() ==> (#[trigger] members[j]).address != address,
    ensures
        assigned(members, address, p) == members.push(MemberV { address, permission: p, key: None }),
{
    crate::access_laws::strangers_are_not_found(members, address);
}

/// Whoever is a member keeps their place and their key, whatever permissions are given.
#[verifier::rlimit(40)]
pub proof fn members_keep_place_and_key(members: Seq<MemberV>, list: Seq<Seq<char>>, p: Permission)
    ensures
        granted(members, list, p).len() >= members.len(),
        forall|i: int|
            0 <= i < members.len() ==> (#[trigger] granted(members, list, p)[i]).address == members[i].address
                && granted(members, list, p)[i].key == members[i].key,
        forall|i: int|
            members.len() <= i < granted(members, list, p).len() ==> (#[trigger] granted(members, list, p)[i]).key is None
                && granted(members, list, p)[i].permission == p,
    decreases list.len(),
{
    if list.len() > 0 {
        members_keep_place_and_key(members, list.drop_last(), p);
        let so_far = granted(members, list.drop_last(), p);
        let after = granted(members, list, p);
        assert forall|i: int| 0 <= i < members.len() implies (#[trigger] after[i]).address == members[i].address
            && after[i].key == members[i].key by {
            assert(so_far[i].address == members[i].address);
        }
        assert forall|i: int| members.len() <= i < after.len() implies (#[trigger] after[i]).key is None
            && after[i].permission == p by {
            if i < so_far.len() {
                assert(so_far[i].key is None);
            }
        }
    }
}

/// A list of addresses is given to those who are named in it alone, each under the
/// permission that stands with them and in their order.
#[verifier::rlimit(40)]
pub proof fn roles_are_given_as_listed(members: Seq<MemberV>, roles: Seq<Permission>, p: Permission, i: int)
    requires
        roles.len() == members.len(),
    ensures
        0 <= i < members.len() && roles[i] == p ==> given(members, roles, p).contains(members[i].address),
        forall|address: Seq<char>| #[trigger]
            given(members, roles, p).contains(address) ==> exists|k: int|
                0 <= k < members.len() && (#[trigger] members[k]).address == address && roles[k] == p,
        all_as(members.map_values(|m: MemberV| m.address), p).owners.len() == (if p == Permission::Owner {
            members.len()
        } else {
            0
        }),
        all_as(members.map_values(|m: MemberV| m.address), p).writers.len() == (if p == Permission::Writer {
            members.len()
        } else {
            0
        }),
        all_as(members.map_values(|m: MemberV| m.address), p).readers.len() == (if p == Permission::Reader {
            members.len()
        } else {
            0
        }),
        all_as(members.map_values(|m: MemberV| m.address), p).drops.len() == 0,
    decreases members.len(),
{
    if members.len() > 0 {
        let n = members.len() - 1;
        let front = members.drop_last();
        let rest = given(front, roles.drop_last(), p);
        roles_are_given_as_listed(front, roles.drop_last(), p, i);
        let all = given(members, roles, p);
        if roles[n] == p {
            assert(all == rest.push(members[n].address));
            assert(all[rest.len() as int] == members[n].address);
        }
        if 0 <= i < n && roles[i] == p {
            assert(front[i] == members[i]);
            let k = choose|k: int| 0 <= k < rest.len() && rest[k] == members[i].address;
            assert(all[k] == members[i].address);
        }
        assert forall|address: Seq<char>| #[trigger] all.contains(address) implies exists|k: int|
            0 <= k < members.len() && (#[trigger] members[k]).address == address && roles[k] == p by {
            let at = choose|at: int| 0 <= at < all.len() && all[at] == address;
            if at < rest.len() {
                assert(rest[at] == address);
                assert(rest.contains(address));
                let k = choose|k: int|
                    0 <= k < front.len() && (#[trigger] front[k]).address == address && roles.drop_last()[k] == p;
                assert(members[k].address == address);
            } else {
                assert(members[n].address == address);
            }
        }
    }
}

/// Whether a list of users' words lets everyone in.
pub open spec fn opens(list: Seq<Seq<char>>) -> bool {
    list.contains("public"@) || list.contains("*"@)
}

proof fn lemma_opens(list: Seq<Seq<char>>)
    ensures
        crate::permissions::names_everyone(list) == opens(list),
{
    if crate::permissions::names_everyone(list) {
        let i = choose|i: int| 0 <= i < list.len() && wire(#[trigger] list[i]) == crate::permissions::everyone();
        assert(list.contains(list[i]));
    }
    if list.contains("public"@) {
        let i = choose|i: int| 0 <= i < list.len() && list[i] == "public"@;
        assert(wire(list[i]) == crate::permissions::everyone());
    }
    if list.contains("*"@) {
        let i = choose|i: int| 0 <= i < list.len() && list[i] == "*"@;
        assert(wire(list[i]) == crate::permissions::everyone());
    }
}

/// Members can be changed unless the body is encrypted and everyone is to be let in, or
/// no owner would remain.
pub proof fn changes_are_made(members: Seq<MemberV>, p: PermissionsV, encrypted: bool)
    ensures
        changed(members, p, encrypted) matches Err(e) ==> (e.fault == Fault::PublicMemberEncrypted) == (encrypted && (
        opens(p.owners) || opens(p.writers) || opens(p.readers))) && (e.fault == Fault::PublicMemberEncrypted || e.fault
            == Fault::LastOwner),
        encrypted && (opens(p.owners) || opens(p.writers) || opens(p.readers)) ==> changed(members, p, encrypted) is Err,
        !(encrypted && (opens(p.owners) || opens(p.writers) || opens(p.readers))) ==> (changed(members, p, encrypted)
            is Ok <==> {
            let after = dropped(
                granted(
                    granted(granted(members, p.owners, Permission::Owner), p.writers, Permission::Writer),
                    p.readers,
                    Permission::Reader,
                ),
                p.drops,
            );
            exists|i: int| 0 <= i < after.len() && (#[trigger] after[i]).permission == Permission::Owner
        }),
        changed(members, p, encrypted) matches Ok(list) ==> list == dropped(
            granted(
                granted(granted(members, p.owners, Permission::Owner), p.writers, Permission::Writer),
                p.readers,
                Permission::Reader,
            ),
            p.drops,
        ),
{
    lemma_opens(p.owners);
    lemma_opens(p.writers);
    lemma_opens(p.readers);
}

// Groups and accounts.

/// To add to a list puts each text behind the others that is not there yet, once; what
/// is there stays where it is.
#[verifier::rlimit(40)]
pub proof fn additions_join_once(list: Seq<Seq<char>>, more: Seq<Seq<char>>)
    ensures
        list.is_prefix_of(all_added(list, more)),
        forall|x: Seq<char>| #[trigger] all_added(list, more).contains(x) <==> list.contains(x) || more.contains(x),
        list.no_duplicates() ==> all_added(list, more).no_duplicates(),
    decreases more.len(),
{
    if more.len() == 0 {
        assert(list.is_prefix_of(list)) by {
            assert(list.subrange(0, list.len() as int) =~= list);
        }
    } else {
        let front = more.drop_last();
        additions_join_once(list, front);
        let so_far = all_added(list, front);
        let all = all_added(list, more);
        let x0 = more.last();
        assert(all.subrange(0, list.len() as int) =~= so_far.subrange(0, list.len() as int));
        assert forall|x: Seq<char>| #[trigger] all.contains(x) <==> list.contains(x) || more.contains(x) by {
            assert(so_far.contains(x) <==> list.contains(x) || front.contains(x));
            assert(more.contains(x) <==> front.contains(x) || x == x0) by {
                if more.contains(x) {
                    let k = choose|k: int| 0 <= k < more.len() && more[k] == x;
                    if k < front.len() {
                        assert(front[k] == x);
                    }
                }
                if front.contains(x) {
                    let k = choose|k: int| 0 <= k < front.len() && front[k] == x;
                    assert(more[k] == x);
                }
                if x == x0 {
                    assert(more[more.len() - 1] == x);
                }
            }
            assert(all.contains(x) <==> so_far.contains(x) || x == x0) by {
                if so_far.contains(x) {
                    let k = choose|k: int| 0 <= k < so_far.len() && so_far[k] == x;
                    assert(all[k] == x);
                }
                if !so_far.contains(x0) {
                    assert(all[so_far.len() as int] == x0);
                }
                if all.contains(x) {
                    let k = choose|k: int| 0 <= k < all.len() && all[k] == x;
                    if k < so_far.len() {
                        assert(so_far[k] == x);
                    }
                }
            }
        }
    }
}

/// To take texts out of a list leaves exactly the others, in their order.
pub proof fn removals_keep_the_others(list: Seq<Seq<char>>, others: Seq<Seq<char>>, except: Seq<char>)
    ensures
        without_all(list, others) == list.filter(|x: Seq<char>| !others.contains(x)),
        outside(list, others, except) == list.filter(|x: Seq<char>| !others.contains(x) && x != except),
    decreases list.len(),
{
    reveal(Seq::filter);
    if list.len() > 0 {
        removals_keep_the_others(list.drop_last(), others, except);
    } else {
        assert(list.filter(|x: Seq<char>| !others.contains(x)) =~= list);
        assert(list.filter(|x: Seq<char>| !others.contains(x) && x != except) =~= list);
    }
}

/// A group after a change lists those who stayed and then those who joined, without those
/// who left, in their order.
pub proof fn groups_keep_their_order(members: Seq<Seq<char>>, add: Seq<Seq<char>>, drops: Seq<Seq<char>>)
    ensures
        group_after(members, add, drops) == all_added(members, add).filter(|x: Seq<char>| !drops.contains(x)),
{
    removals_keep_the_others(all_added(members, add), drops, Seq::empty());
}

/// When the members of a group change, exactly those who joined are let read and exactly
/// those who left are dropped; the account itself is neither.
pub proof fn group_changes_are_shared(
    members: Seq<Seq<char>>,
    after: Seq<Seq<char>>,
    own: Seq<char>,
    x: Seq<char>,
)
    ensures
        group_permissions(members, after, own).readers.contains(x) <==> after.contains(x) && !members.contains(x) && x != own,
        group_permissions(members, after, own).drops.contains(x) <==> members.contains(x) && !after.contains(x) && x != own,
        group_permissions(members, after, own).owners.len() == 0,
        group_permissions(members, after, own).writers.len() == 0,
        other_members(Some(members), own).contains(x) <==> members.contains(x) && x != own,
        other_members(None, own).len() == 0,
{
    lemma_outside(after, members, own, x);
    lemma_outside(members, after, own, x);
    lemma_outside(members, Seq::empty(), own, x);
}

proof fn lemma_outside(list: Seq<Seq<char>>, others: Seq<Seq<char>>, except: Seq<char>, x: Seq<char>)
    ensures
        outside(list, others, except).contains(x) <==> list.contains(x) && !others.contains(x) && x != except,
{
    removals_keep_the_others(list, others, except);
    let keep = |y: Seq<char>| !others.contains(y) && y != except;
    let r = list.filter(keep);
    if r.contains(x) {
        let i = choose|i: int| 0 <= i < r.len() && r[i] == x;
        list.lemma_filter_pred(keep, i);
        list.lemma_filter_contains_rev(keep, x);
    }
    if list.contains(x) && keep(x) {
        let i = choose|i: int| 0 <= i < list.len() && list[i] == x;
        list.lemma_filter_contains(keep, i);
    }
}

/// A change of a group that leaves its members as they are does nothing. Any other signs
/// the group anew with the new members and nothing else changed, and it shares the
/// change with those whom it concerns.
#[verifier::rlimit(40)]
pub proof fn changed_groups_are_signed_anew(
    own: Seq<char>,
    identity: IdentityV,
    secret: Seq<u8>,
    add: Seq<Seq<char>>,
    drops: Seq<Seq<char>>,
)
    ensures
        ({
            let before = match identity.members {
                Some(list) => list,
                None => Seq::empty(),
            };
            let after = group_after(before, add, drops);
            &&& group_changed(own, identity, secret, add, drops) == Ok::<Option<(IdentityV, PermissionsV)>, ErrorV>(None)
                <==> after == before
            &&& match group_changed(own, identity, secret, add, drops) {
                Ok(Some((next, permissions))) => next.members == Some(after) && next.address == identity.address
                    && next.public_key == identity.public_key && identity_valid(next) is Ok && permissions
                    == group_permissions(before, after, own),
                _ => true,
            }
            &&& after != before ==> {
                let next = IdentityV { members: Some(after), ..identity };
                let key = Tagged { algorithm: identity.public_key.algorithm, value: secret };
                match crate::crypto::json_signed(
                    key,
                    crate::json::identity_json(crate::identity::unsigned_identity(next)),
                ) {
                    Ok(signature) => group_changed(own, identity, secret, add, drops) is Ok <==> identity_valid(
                        IdentityV { signature, ..next },
                    ) is Ok,
                    Err(_) => group_changed(own, identity, secret, add, drops) is Err,
                }
            }
        }),
        members_of(identity) == (match identity.members {
            Some(list) => list,
            None => Seq::empty(),
        }),
{
}

/// A new group lists those whom it is given, each once; without any it is no group.
pub proof fn new_groups_list_everyone_once(members: Seq<Seq<char>>, x: Seq<char>)
    ensures
        group_members(members) is None <==> members.len() == 0,
        group_members(members) matches Some(list) ==> list.no_duplicates() && (list.contains(x) <==> members.contains(x)),
{
    additions_join_once(Seq::empty(), members);
    if let Some(list) = group_members(members) {
        assert(list.contains(x) <==> Seq::<Seq<char>>::empty().contains(x) || members.contains(x));
    }
}

/// The secret key of an identity lies beside its document, under the same name.
pub proof fn keys_lie_beside_documents(stem: Seq<char>, path: Seq<char>)
    ensures
        key_path(stem + ".json"@) == stem + ".key"@,
        is_json(path) <==> ".json"@.is_suffix_of(path),
        !".json"@.is_suffix_of(path) ==> key_path(path) == path + ".key"@,
{
    let whole = stem + ".json"@;
    assert(whole.skip(whole.len() - ".json"@.len()) =~= ".json"@);
    assert(whole.take(whole.len() - ".json"@.len()) =~= stem);
    if ".json"@.len() <= path.len() {
        assert(path.skip(path.len() - ".json"@.len()) =~= path.subrange(
            path.len() - ".json"@.len(),
            path.len() as int,
        ));
    }
}

/// An identity is made or a group changed only at a path that ends in `.json`; one is
/// made only where neither it nor its key is there; and there must be something to
/// change.
pub proof fn identities_are_not_overwritten(
    path: Seq<char>,
    has_document: bool,
    has_key: bool,
    add: Seq<Seq<char>>,
    drops: Seq<Seq<char>>,
)
    ensures
        new_identity_refused(path, has_document, has_key) is None <==> ".json"@.is_suffix_of(path) && !has_document
            && !has_key,
        group_change_refused(path, add, drops) is None <==> ".json"@.is_suffix_of(path) && (add.len() > 0 || drops.len()
            > 0),
{
    keys_lie_beside_documents(path, path);
}

/// An account is made where neither of its files is there, under the name in its
/// address, with the identity of its key.
#[verifier::rlimit(40)]
pub proof fn accounts_are_not_overwritten(
    root: Seq<char>,
    address: Seq<char>,
    secret: Tagged,
    has_identity: bool,
    has_key: bool,
)
    ensures
        ({
            let r = new_account(root, address, secret, has_identity, has_key);
            &&& r is Ok ==> !has_identity && !has_key
            &&& r matches Ok(a) ==> (address_parts(address) matches Ok(parts) && a.name == parts.0) && identity_of(
                secret,
                address,
                None,
            ) == Ok::<IdentityV, ErrorV>(a.identity) && identity_valid(a.identity) is Ok && a.key
                == crate::base64url::encoded(secret.value)
            &&& address_parts(address) is Ok && (has_identity || has_key) ==> (r matches Err(e) && e.fault
                == Fault::FileExists)
            &&& address_parts(address) is Ok && !has_identity && !has_key ==> (match identity_of(secret, address, None) {
                Ok(i) => r is Ok <==> identity_valid(i) is Ok,
                Err(_) => r is Err,
            })
        }),
        account_file(root, address, secret.algorithm) == root + "/ark/"@ + address + "/.ark/"@ + secret.algorithm,
{
}

// What is known of an address.

/// The document of an identity lies at the path of its address, or at the usual one of an
/// account; the account keeps it under the address with every slash made an underscore.
pub proof fn documents_lie_at_their_address(address: Seq<char>)
    ensures
        sources_of(address) is Ok <==> address_parts(address) is Ok,
        match (sources_of(address), address_parts(address)) {
            (Ok(s), Ok((name, host, path))) => {
                let tail = if path.len() == 0 {
                    "/.ark/identity.json"@
                } else {
                    path
                };
                s.peer == "/"@ + name + tail && s.document == name + "@"@ + host + tail && s.cache
                    == "/.ark/identities/"@ + flattened(address) + ".json"@
            },
            _ => true,
        },
        flattened(address).len() == address.len(),
        forall|i: int|
            0 <= i < address.len() ==> #[trigger] flattened(address)[i] == (if address[i] == '/' {
                '_'
            } else {
                address[i]
            }),
{
}

/// The identity of another account is the valid one that an account of the same server
/// has under that address; failing that the valid one that is kept; and it is fetched
/// just where neither is there. What cannot be read or is not valid is an error.
pub proof fn identities_are_found_nearby(own: IdentityV, address: Seq<char>, peer: StoredV, cached: StoredV)
    requires
        address != own.address,
        address_parts(address) is Ok,
    ensures
        ({
            let r = resolved_identity(own, address, peer, cached);
            let near = match peer {
                StoredV::Present { identity } => identity_valid(identity) is Ok && identity.address == address,
                _ => false,
            };
            let broken = match peer {
                StoredV::Present { identity } => identity_valid(identity) is Err,
                StoredV::Broken { error } => true,
                StoredV::Missing => false,
            };
            &&& near ==> r == (ResolutionV::Known { identity: peer->identity })
            &&& broken ==> r is Failed
            &&& !near && !broken ==> (match cached {
                StoredV::Missing => r is Fetch && sources_of(address) == Ok::<crate::resolve::SourcesV, ErrorV>(
                    r->sources,
                ),
                StoredV::Broken { error } => r == (ResolutionV::Failed { error }),
                StoredV::Present { identity } => if identity_valid(identity) is Ok {
                    r == (ResolutionV::Known { identity })
                } else {
                    r is Failed
                },
            })
        }),
{
}

/// A fetched identity is taken just where the request succeeded and the document is a
/// valid identity.
pub proof fn fetched_identities_are_valid(status: u16, body: Seq<u8>, document: Result<IdentityV, ErrorV>)
    ensures
        fetched_identity(status, body, document) is Ok <==> 200 <= status < 300 && document is Ok && identity_valid(
            document->Ok_0,
        ) is Ok,
        fetched_identity(status, body, document) matches Ok(i) ==> document == Ok::<IdentityV, ErrorV>(i),
{
}

// Where a path leads.

/// A path is an address just where, leaving out `http://`, there is an `@` in it with no
/// slash before it.
#[verifier::rlimit(40)]
pub proof fn addresses_have_a_name_before_the_host(path: Seq<char>)
    ensures
        ({
            let rest = bare_address(path);
            is_address(path) <==> exists|i: int|
                0 <= i < rest.len() && #[trigger] rest[i] == '@' && forall|j: int| 0 <= j < i ==> rest[j] != '/'
        }),
        !"http://"@.is_prefix_of(path) ==> bare_address(path) == path,
        bare_address("http://"@ + path) == path,
{
    let rest = bare_address(path);
    lemma_first(rest, '@');
    lemma_first(rest, '/');
    let at = first(rest, '@') as int;
    let slash = first(rest, '/') as int;
    if is_address(path) {
        assert(rest[at] == '@');
    }
    if exists|i: int| 0 <= i < rest.len() && #[trigger] rest[i] == '@' && forall|j: int| 0 <= j < i ==> rest[j] != '/' {
        let i = choose|i: int|
            0 <= i < rest.len() && #[trigger] rest[i] == '@' && forall|j: int| 0 <= j < i ==> rest[j] != '/';
        assert(at <= i);
        if slash < at {
            assert(rest[slash] == '/');
        }
        if slash == at && slash < rest.len() {
            assert(rest[slash] == '/' && rest[at] == '@');
        }
    }
    let whole = "http://"@ + path;
    assert("http://"@ =~= whole.subrange(0, "http://"@.len() as int));
    assert(whole.skip("http://"@.len() as int) =~= path);
}

/// Where a request goes: to the host of the address that the path is, or of the account,
/// below the directory of the account there; plainly just where that address asks for
/// it.
#[verifier::rlimit(40)]
pub proof fn requests_go_to_the_host(account: Seq<char>, path: Seq<char>)
    ensures
        ({
            let to = if is_address(path) {
                path
            } else {
                account
            };
            match address_parts(bare_address(to)) {
                Ok((name, host, tail)) => {
                    let inside = if is_address(path) {
                        tail
                    } else if path.len() > 0 && path[0] == '/' {
                        path
                    } else {
                        "/"@ + path
                    };
                    let rest = host + "/ark/"@ + name + inside;
                    &&& located(account, path) == Ok::<(bool, Seq<char>), ErrorV>(
                        ("http://"@.is_prefix_of(to), rest),
                    )
                    &&& url_text(account, path) == Ok::<Seq<char>, ErrorV>(
                        (if "http://"@.is_prefix_of(to) {
                            "http://"@
                        } else {
                            "https://"@
                        }) + rest,
                    )
                },
                Err(_) => located(account, path) is Err && url_text(account, path) is Err,
            }
        }),
{
}

/// A path from the root of the account, or an address, stays as it is; any other is
/// taken from the current directory, which must be in the account.
pub proof fn paths_are_taken_from_the_root(root: Seq<char>, current: Seq<char>, path: Seq<char>)
    ensures
        is_address(path) || path.len() > 0 && path[0] == '/' ==> rooted(root, current, path) == Ok::<Seq<char>, ErrorV>(
            path,
        ),
        !is_address(path) && !(path.len() > 0 && path[0] == '/') ==> (match below(root, current) {
            Some(dir) => rooted(root, current, path) == Ok::<Seq<char>, ErrorV>(
                if dir.len() == 0 {
                    "/"@ + path
                } else {
                    "/"@ + dir + "/"@ + path
                },
            ),
            None => rooted(root, current, path) matches Err(e) && e.fault == Fault::NotWithin,
        }),
        account_path(root, current) is Ok <==> below(root, current) is Some,
        below(root, current) matches Some(rest) ==> account_path(root, current) == Ok::<Seq<char>, ErrorV>("/"@ + rest),
        !is_address(path) ==> inner_path(path) == Ok::<Seq<char>, ErrorV>(path),
        is_address(path) ==> (match address_parts(bare_address(path)) {
            Ok((name, host, tail)) => inner_path(path) == Ok::<Seq<char>, ErrorV>(tail),
            Err(_) => inner_path(path) is Err,
        }),
        is_address(path) ==> address_of(current, path) == bare_address(path),
        !is_address(path) && path.len() > 0 && path[0] == '/' ==> address_of(current, path) == current + path,
        !is_address(path) && !(path.len() > 0 && path[0] == '/') ==> address_of(current, path) == current + ("/"@ + path),
{
}

// What is changed, tracked and recorded.

/// The members of a file can be changed just where it is there, carries signed metadata
/// of a known account, and the account is an owner.
pub proof fn owners_change_members(
    ctx: ContextV,
    dir: Seq<(Seq<char>, Result<IdentityV, ErrorV>)>,
    exists_here: bool,
    attributes: Seq<(Seq<char>, Seq<u8>)>,
)
    ensures
        changeable(ctx, dir, exists_here, attributes) is Ok <==> exists_here && carries_id(attributes) && (match metadata_of_attributes(
            attributes,
        ) {
            Ok(m) => (match identity_at(ctx.identity, dir, m.modified_by) {
                Ok(modifier) => signature_verified(modifier.public_key, m) is Ok,
                Err(_) => false,
            }) && (match member_at(m.members, ctx.identity.address) {
                Some(own) => own.permission == Permission::Owner,
                None => false,
            }),
            Err(_) => false,
        }),
        changeable(ctx, dir, exists_here, attributes) matches Ok(m) ==> metadata_of_attributes(attributes) == Ok::<
            MetadataV,
            ErrorV,
        >(m),
        owned(ctx, dir, attributes) is Ok && exists_here && carries_id(attributes) ==> changeable(
            ctx,
            dir,
            exists_here,
            attributes,
        ) == owned(ctx, dir, attributes),
{
}

/// Those who join an encrypted file are given the key that the account has for it; for
/// any other file there is none.
pub proof fn plain_files_have_no_key(ctx: ContextV, m: MetadataV)
    ensures
        m.encryption_algorithm is None ==> shared_key(ctx, m) == Ok::<Option<Seq<u8>>, ErrorV>(None),
        m.encryption_algorithm is Some ==> shared_key(ctx, m) == file_key(ctx, m.members),
{
}

/// What is tracked is there and has no metadata yet; it is encrypted as asked for, by
/// default, and not at all where that is asked for or for a directory, for which no
/// algorithm can be asked for.
#[verifier::rlimit(40)]
pub proof fn untracked_files_are_tracked(
    exists_here: bool,
    attributes: Seq<(Seq<char>, Seq<u8>)>,
    is_dir: bool,
    algorithm: Option<Seq<char>>,
    owner: Seq<char>,
    content: Option<Seq<u8>>,
    now: Seq<char>,
    id: Seq<char>,
)
    ensures
        track_refused(exists_here, attributes, is_dir, algorithm) is None <==> exists_here && !carries_id(attributes) && !(
        is_dir && algorithm is Some),
        track_algorithm(true, algorithm) is None,
        track_algorithm(false, None) == Some(crate::crypto::DEFAULT_ENCRYPTION_ALGORITHM@),
        algorithm matches Some(a) ==> track_algorithm(false, algorithm) == (if a == "none"@ {
            None
        } else {
            algorithm
        }),
        ({
            let m = track_metadata(owner, content, algorithm, now, id);
            &&& m.id == id
            &&& m.created == now
            &&& m.modified == now
            &&& m.modified_by == owner
            &&& m.members.len() == 1
            &&& m.members[0].address == owner
            &&& m.members[0].permission == Permission::Owner
            &&& m.encryption_algorithm == track_algorithm(content is None, algorithm)
            &&& content matches Some(body) ==> m.body_hash is Some && m.body_hash->0.value == sha256_of(body)
            &&& content is None ==> m.body_hash is None
        }),
        content is None ==> track_local(content) is None,
        content matches Some(body) ==> (track_local(content) matches Some(l) && l.encrypted == Some(false) && l.sync_hash
            == Some(sha256_of(body)) && l.sync_modified is None),
{
}

/// Every request to write is recorded, and no other is.
pub proof fn writes_alone_are_recorded(b: Seq<u8>, status: u16)
    ensures
        match request_read(b, true) {
            Ok(request) => if request.method == "PUT"@ {
                recorded(b, status) == entry_bytes(b, status)
            } else {
                recorded(b, status) is None
            },
            Err(_) => recorded(b, status) is None,
        },
{
}

/// A log entry is owned by the server, which writes it, and by the account; it is not
/// encrypted and has the hash of its body.
#[verifier::rlimit(40)]
pub proof fn entries_belong_to_the_account(
    id: Seq<char>,
    now: Seq<char>,
    server: Seq<char>,
    account: Seq<char>,
    body: Seq<u8>,
)
    ensures
        ({
            let m = entry_metadata(id, now, server, account, body);
            &&& m.id == id
            &&& m.created == now
            &&& m.modified == now
            &&& m.modified_by == server
            &&& m.encryption_algorithm is None
            &&& m.members.len() == 2
            &&& m.members[0].address == server
            &&& m.members[1].address == account
            &&& m.members[0].permission == Permission::Owner
            &&& m.members[1].permission == Permission::Owner
            &&& m.body_hash matches Some(hash) && hash.value == sha256_of(body)
        }),
{
}

/// A change on disk is told of just where something was made, removed, or changed in
/// content or name, and as that.
pub proof fn changes_are_told_of(change: Change)
    ensures
        change_means(change) is None <==> change == Change::ModifiedOther || change == Change::Other,
        change_means(change) matches Some((action, kind)) ==> {
            &&& action == EntryAction::Created <==> change == Change::CreatedFolder || change == Change::CreatedFile
                || change == Change::CreatedOther
            &&& action == EntryAction::Modified <==> change == Change::ModifiedData || change == Change::ModifiedName
            &&& action == EntryAction::Deleted <==> change == Change::RemovedFolder || change == Change::RemovedOther
            &&& kind == Some(DirectoryEntryKind::Dir) <==> change == Change::CreatedFolder || change
                == Change::RemovedFolder
            &&& kind == Some(DirectoryEntryKind::File) <==> change == Change::CreatedFile || change
                == Change::RemovedOther
        },
{
}

} // verus!
