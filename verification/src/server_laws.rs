//! What holds of every request that the account server handles.

use vstd::prelude::*;
use vstd::utf8::encode_utf8;

use crate::auth::{claim_in, header_value, permission_for, requestor};
use crate::error::ErrorV;
use crate::fields::{
    attribute_fields, carries_metadata, fields_of, has_owner, header_fields, header_name, metadata_key, metadata_of,
    metadata_of_attributes, Field,
};
use crate::http::{has_header, inserted, response_bytes, response_read, sorted, RequestV};
use crate::listing::{listing, type_of, EntryV, Layout};
use crate::membership::identity_at;
use crate::metadata::signature_verified;
use crate::number::{decimal, is_digit, lemma_decimal};
use crate::paths::{file_name, segments};
use crate::primitives::sha256_of;
use crate::round_trip::{header_belongs, headers_read_back, lemma_header_name, rewritten_attributes_read_back};
use crate::server::{
    asked_prefix, call_of, content_checked, differ, dir_headers, entries_with, file_headers, got, handled,
    is_public, known, nearest_members, only_metadata, place_of, reads, roles, unknown_group, AccountV, ActionV, Content, DiskV,
    NodeV, PlaceV,
};
use crate::text::{is_space, lemma_precedes_total, lower, precedes};
use crate::types::{IdentityV, MemberV, MetadataV, Permission};
use crate::wire::{
    all_clean, clean, in_order, neat, sorting_keeps_headers, sorting_orders_headers, streamed_response_round_trip,
};

verus! {

/// Whether an action changes what is on disk.
pub open spec fn changes(action: ActionV) -> bool {
    action is Store || action is Remove
}

/// Nothing is written or removed unless the request is signed by an account
/// that may write there.
#[verifier::spinoff_prover]
#[verifier::rlimit(60)]
pub proof fn only_writers_change_files(
    request: RequestV,
    place: PlaceV,
    disk: DiskV,
    dir: Seq<(Seq<char>, Result<IdentityV, ErrorV>)>,
    now: nat,
)
    requires
        changes(handled(request, place, disk, dir, now)),
    ensures
        !disk.symlink,
        disk.account matches AccountV::Present { identity: target } && requestor(
            target,
            dir,
            request.headers,
            now,
            call_of(request, place),
        ) matches Ok(who) && permission_for(target, dir, who.address, disk.granted()) matches Ok(permission)
            && permission != Permission::Reader,
        request.method == "PUT"@ || request.method == "DELETE"@,
{
}

/// What is stored is the metadata of the request, signed by the account that it
/// names for what stands at the path from then on.
#[verifier::spinoff_prover]
#[verifier::rlimit(60)]
pub proof fn stored_files_are_signed(
    request: RequestV,
    place: PlaceV,
    disk: DiskV,
    dir: Seq<(Seq<char>, Result<IdentityV, ErrorV>)>,
    now: nat,
)
    requires
        handled(request, place, disk, dir, now) is Store,
    ensures
        ({
            &&& disk.account matches AccountV::Present { identity: target }
            &&& handled(request, place, disk, dir, now) matches ActionV::Store { metadata, content, status }
            &&& metadata_of(request.headers) == Ok::<MetadataV, ErrorV>(metadata)
            &&& identity_at(target, dir, metadata.modified_by) matches Ok(modifier)
            &&& signature_verified(modifier.public_key, metadata) is Ok
            &&& match content {
                Content::Body => metadata.body_hash matches Some(hash) && hash.value == sha256_of(request.body),
                Content::Dir => metadata.body_hash is None,
                Content::Kept => disk.metadata() matches Ok(old_metadata) && old_metadata.body_hash
                    == metadata.body_hash,
            }
            &&& status == (if disk.node is Missing {
                201u16
            } else {
                204u16
            })
        }),
{
}

/// Only an owner gives anyone another role.
#[verifier::spinoff_prover]
#[verifier::rlimit(60)]
pub proof fn only_owners_change_members(
    request: RequestV,
    place: PlaceV,
    disk: DiskV,
    dir: Seq<(Seq<char>, Result<IdentityV, ErrorV>)>,
    now: nat,
)
    requires
        handled(request, place, disk, dir, now) matches ActionV::Store { metadata, content, status } && disk.members()
            matches Some(old_members) && differ(old_members, metadata.members),
    ensures
        disk.account matches AccountV::Present { identity: target } && requestor(
            target,
            dir,
            request.headers,
            now,
            call_of(request, place),
        ) matches Ok(who) && permission_for(target, dir, who.address, disk.members()) == Ok::<Permission, ErrorV>(
            Permission::Owner,
        ),
{
}

/// What everyone may read is answered the same whoever asks.
#[verifier::spinoff_prover]
#[verifier::rlimit(60)]
pub proof fn public_files_are_open(
    request: RequestV,
    place: PlaceV,
    disk: DiskV,
    dir: Seq<(Seq<char>, Result<IdentityV, ErrorV>)>,
    now: nat,
)
    requires
        disk.account is Present,
        !disk.symlink,
        is_public(disk.members()),
        reads(request.method),
    ensures
        handled(request, place, disk, dir, now) == got(
            disk,
            place.file,
            asked_prefix(place.query),
            request.method == "GET"@,
        ),
{
}

/// A write by the owner of the account, signed by them and with metadata that
/// they signed, is stored.
#[verifier::spinoff_prover]
#[verifier::rlimit(60)]
pub proof fn owner_write_is_stored(
    request: RequestV,
    place: PlaceV,
    disk: DiskV,
    dir: Seq<(Seq<char>, Result<IdentityV, ErrorV>)>,
    now: nat,
    target: IdentityV,
    metadata: MetadataV,
)
    requires
        disk.account == (AccountV::Present { identity: target }),
        !disk.symlink,
        request.method == "PUT"@,
        requestor(target, dir, request.headers, now, call_of(request, place)) == Ok::<IdentityV, ErrorV>(target),
        header_value(request.headers, "authorization"@) matches Some(value) && claim_in(value) matches Ok(claim)
            && claim.address == target.address,
        metadata_of(request.headers) == Ok::<MetadataV, ErrorV>(metadata),
        metadata.modified_by == target.address,
        content_checked(
            target.public_key,
            metadata,
            disk.metadata(),
            request.body,
            only_metadata(place.query),
        ) is Ok,
    ensures
        handled(request, place, disk, dir, now) matches ActionV::Store { metadata: stored, content, status } && stored
            == metadata && Ok::<Content, ErrorV>(content) == content_checked(
            target.public_key,
            metadata,
            disk.metadata(),
            request.body,
            only_metadata(place.query),
        ),
{
    assert(known(target, dir, target.address));
    assert(!reads(request.method)) by {
        reveal_strlit("PUT");
        reveal_strlit("GET");
        reveal_strlit("HEAD");
        assert("PUT"@[0] != "GET"@[0] && "PUT"@[0] != "HEAD"@[0]);
        assert("PUT"@.len() == 3 && "GET"@.len() == 3 && "HEAD"@.len() == 4);
    }
}

/// Members reach what is in a directory: where a file has no metadata of its own,
/// the members of the nearest directory above it that has metadata count, and
/// otherwise only its own.
pub proof fn members_are_inherited(disk: DiskV, n: int)
    requires
        0 <= n < disk.above.len(),
        forall|i: int|
            0 <= i < n ==> (#[trigger] disk.above[i] is Err || metadata_of_attributes(disk.above[i]->Ok_0) is Err),
        disk.above[n] is Ok,
        metadata_of_attributes(disk.above[n]->Ok_0) is Ok,
    ensures
        disk.granted() == (match disk.members() {
            Some(list) => Some(list),
            None => Some(metadata_of_attributes(disk.above[n]->Ok_0)->Ok_0.members),
        }),
{
    lemma_nearest(disk.above, n);
}

proof fn lemma_nearest(above: Seq<Result<Seq<(Seq<char>, Seq<u8>)>, ErrorV>>, n: int)
    requires
        0 <= n < above.len(),
        forall|i: int| 0 <= i < n ==> (#[trigger] above[i] is Err || metadata_of_attributes(above[i]->Ok_0) is Err),
        above[n] is Ok,
        metadata_of_attributes(above[n]->Ok_0) is Ok,
    ensures
        nearest_members(above) == Some(metadata_of_attributes(above[n]->Ok_0)->Ok_0.members),
    decreases n,
{
    if n > 0 {
        let rest = above.skip(1);
        assert(above[0] is Err || metadata_of_attributes(above[0]->Ok_0) is Err);
        assert forall|i: int| 0 <= i < n - 1 implies (#[trigger] rest[i] is Err || metadata_of_attributes(
            rest[i]->Ok_0,
        ) is Err) by {
            assert(rest[i] == above[i + 1]);
        }
        assert(rest[n - 1] == above[n]);
        lemma_nearest(rest, n - 1);
    }
}

proof fn lemma_unknown_group(
    target: IdentityV,
    dir: Seq<(Seq<char>, Result<IdentityV, ErrorV>)>,
    members: Seq<MemberV>,
)
    ensures
        unknown_group(target, dir, members) matches Some(address) ==> !known(target, dir, address),
    decreases members.len(),
{
    if members.len() > 0 {
        lemma_unknown_group(target, dir, members.skip(1));
    }
}

/// What has to be looked up is not known yet, and is not asked for again once
/// it was looked up, whatever came of it.
#[verifier::spinoff_prover]
#[verifier::rlimit(60)]
pub proof fn lookups_come_to_an_end(
    request: RequestV,
    place: PlaceV,
    disk: DiskV,
    dir: Seq<(Seq<char>, Result<IdentityV, ErrorV>)>,
    now: nat,
    outcome: Result<IdentityV, ErrorV>,
)
    requires
        handled(request, place, disk, dir, now) is Lookup,
    ensures
        handled(request, place, disk, dir, now) matches ActionV::Lookup { address } && disk.account
            matches AccountV::Present { identity: target } && !known(target, dir, address) && handled(
            request,
            place,
            disk,
            dir.push((address, outcome)),
            now,
        ) != (ActionV::Lookup { address }),
{
    let action = handled(request, place, disk, dir, now);
    let address = action->Lookup_address;
    let target = disk.account->Present_identity;
    let more = dir.push((address, outcome));
    assert(more[dir.len() as int].0 == address);
    assert(known(target, more, address));
    if let Some(members) = disk.granted() {
        lemma_unknown_group(target, dir, members);
        lemma_unknown_group(target, more, members);
    }
}

// Routing.

/// Every request that is let through goes below the directory of the account
/// that it names.
pub proof fn requests_stay_below_accounts(method: Seq<char>, path: Seq<char>, query: Option<Seq<char>>)
    ensures
        match place_of(method, path, query) {
            Ok(place) => segments(path).len() >= 2 && segments(path)[0] == "ark"@ && place.account == segments(path)[1]
                && place.path == path && (segments(path).len() == 2 ==> reads(method)),
            Err(reply) => reply.status == 403 || reply.status == 405,
        },
{
}

// Members.

/// Whether no address occurs twice.
pub open spec fn distinct(list: Seq<(Seq<char>, Seq<char>)>) -> bool {
    forall|i: int, j: int| 0 <= i < j < list.len() ==> (#[trigger] list[i]).0 != (#[trigger] list[j]).0
}

/// Two sorted lists of the same distinct names are one list.
proof fn lemma_sorted_unique(a: Seq<(Seq<char>, Seq<char>)>, b: Seq<(Seq<char>, Seq<char>)>)
    requires
        in_order(a),
        in_order(b),
        distinct(a),
        distinct(b),
        a.to_multiset() == b.to_multiset(),
    ensures
        a == b,
    decreases a.len(),
{
    broadcast use vstd::seq_lib::group_to_multiset_ensures;

    assert(a.to_multiset().len() == a.len() && b.to_multiset().len() == b.len());
    if a.len() > 0 {
        let x = a.last();
        let y = b.last();
        let n = a.len() - 1;
        if x != y {
            assert(b.contains(x)) by {
                assert(a[n] == x);
                assert(a.contains(x));
                assert(a.to_multiset().count(x) > 0);
            }
            assert(a.contains(y)) by {
                assert(b[n] == y);
                assert(b.contains(y));
                assert(b.to_multiset().count(y) > 0);
            }
            let i = choose|i: int| 0 <= i < b.len() && b[i] == x;
            let j = choose|j: int| 0 <= j < a.len() && a[j] == y;
            assert(i < n && j < n);
            assert(!precedes(b[n].0, b[i].0));
            assert(!precedes(a[n].0, a[j].0));
            lemma_precedes_total(x.0, y.0);
            assert(b[i].0 != b[n].0);
            assert(false);
        }
        let u = a.drop_last();
        let v = b.drop_last();
        assert(a =~= u.push(x) && b =~= v.push(x));
        assert(u.to_multiset().insert(x) == v.to_multiset().insert(x));
        assert(u.to_multiset() =~= u.to_multiset().insert(x).remove(x));
        assert(v.to_multiset() =~= v.to_multiset().insert(x).remove(x));
        assert forall|i: int, j: int| 0 <= i < j < u.len() implies (#[trigger] u[i]).0 != (#[trigger] u[j]).0
            && !precedes(u[j].0, u[i].0) by {
            assert(u[i] == a[i] && u[j] == a[j]);
        }
        assert forall|i: int, j: int| 0 <= i < j < v.len() implies (#[trigger] v[i]).0 != (#[trigger] v[j]).0
            && !precedes(v[j].0, v[i].0) by {
            assert(v[i] == b[i] && v[j] == b[j]);
        }
        lemma_sorted_unique(u, v);
    } else {
        assert(a =~= b);
    }
}

/// Sorting keeps names distinct.
proof fn lemma_sorted_distinct(list: Seq<(Seq<char>, Seq<char>)>)
    requires
        distinct(list),
    ensures
        distinct(sorted(list)),
    decreases list.len(),
{
    broadcast use vstd::seq_lib::group_to_multiset_ensures;

    if list.len() > 0 {
        let init = list.drop_last();
        let h = list.last();
        assert forall|i: int, j: int| 0 <= i < j < init.len() implies (#[trigger] init[i]).0 != (#[trigger] init[j]).0
            by {
            assert(init[i] == list[i] && init[j] == list[j]);
        }
        lemma_sorted_distinct(init);
        sorting_keeps_headers(init);
        let s = sorted(init);
        assert forall|i: int| 0 <= i < s.len() implies (#[trigger] s[i]).0 != h.0 by {
            assert(s.contains(s[i]));
            assert(s.to_multiset().count(s[i]) > 0);
            assert(init.contains(s[i]));
            let k = choose|k: int| 0 <= k < init.len() && init[k] == s[i];
            assert(list[k] == init[k]);
            assert(list[list.len() - 1].0 != list[k].0);
        }
        lemma_inserted_distinct(s, h);
    }
}

proof fn lemma_inserted_distinct(list: Seq<(Seq<char>, Seq<char>)>, h: (Seq<char>, Seq<char>))
    requires
        distinct(list),
        forall|i: int| 0 <= i < list.len() ==> (#[trigger] list[i]).0 != h.0,
    ensures
        distinct(inserted(list, h)),
        forall|i: int|
            0 <= i < inserted(list, h).len() ==> (#[trigger] inserted(list, h)[i]) == h || list.contains(
                inserted(list, h)[i],
            ),
    decreases list.len(),
{
    if list.len() > 0 && precedes(h.0, list.last().0) {
        let init = list.drop_last();
        assert forall|i: int, j: int| 0 <= i < j < init.len() implies (#[trigger] init[i]).0 != (#[trigger] init[j]).0
            by {
            assert(init[i] == list[i] && init[j] == list[j]);
        }
        assert forall|i: int| 0 <= i < init.len() implies (#[trigger] init[i]).0 != h.0 by {
            assert(init[i] == list[i]);
        }
        lemma_inserted_distinct(init, h);
        let front = inserted(init, h);
        let after = inserted(list, h);
        assert(after == front.push(list.last()));
        assert forall|i: int| 0 <= i < after.len() implies (#[trigger] after[i]) == h || list.contains(after[i]) by {
            if i < front.len() {
                assert(after[i] == front[i]);
                if front[i] != h {
                    let k = choose|k: int| 0 <= k < init.len() && init[k] == front[i];
                    assert(list[k] == front[i]);
                }
            } else {
                assert(list[list.len() - 1] == after[i]);
            }
        }
        assert forall|i: int, j: int| 0 <= i < j < after.len() implies (#[trigger] after[i]).0 != (
        #[trigger] after[j]).0 by {
            if j < front.len() {
                assert(after[i] == front[i] && after[j] == front[j]);
            } else {
                assert(after[i] == front[i] && after[j] == list[list.len() - 1]);
                if front[i] != h {
                    let k = choose|k: int| 0 <= k < init.len() && init[k] == front[i];
                    assert(list[k] == init[k]);
                }
            }
        }
    } else {
        let after = inserted(list, h);
        assert forall|i: int| 0 <= i < after.len() implies (#[trigger] after[i]) == h || list.contains(after[i]) by {
            if i < list.len() {
                assert(after[i] == list[i]);
            }
        }
    }
}

/// Listing the same members in another order changes nobody's role.
pub proof fn member_order_does_not_matter(old_members: Seq<MemberV>, new_members: Seq<MemberV>)
    requires
        distinct(roles(old_members)),
        distinct(roles(new_members)),
        roles(old_members).to_multiset() == roles(new_members).to_multiset(),
    ensures
        !differ(old_members, new_members),
{
    let a = roles(old_members);
    let b = roles(new_members);
    sorting_keeps_headers(a);
    sorting_keeps_headers(b);
    sorting_orders_headers(a);
    sorting_orders_headers(b);
    lemma_sorted_distinct(a);
    lemma_sorted_distinct(b);
    lemma_sorted_unique(sorted(a), sorted(b));
}

/// Members that do not differ have the same roles.
pub proof fn same_members_have_same_roles(old_members: Seq<MemberV>, new_members: Seq<MemberV>)
    requires
        !differ(old_members, new_members),
    ensures
        roles(old_members).to_multiset() == roles(new_members).to_multiset(),
{
    sorting_keeps_headers(roles(old_members));
    sorting_keeps_headers(roles(new_members));
}

// Reading what was written.

/// Whether a text can be the value of a header.
pub open spec fn header_text(s: Seq<char>) -> bool {
    &&& forall|i: int| 0 <= i < s.len() ==> #[trigger] s[i] != '\n'
    &&& neat(s)
}

/// Whether all texts of metadata can be the values of headers.
pub open spec fn tidy(m: MetadataV) -> bool {
    forall|k: int| 0 <= k < fields_of(m).len() ==> header_text((#[trigger] fields_of(m)[k]).1)
}

/// Whether a text consists of letters, digits and hyphens.
pub open spec fn token(s: Seq<char>) -> bool {
    forall|i: int|
        0 <= i < s.len() ==> 'a' <= #[trigger] s[i] <= 'z' || 'A' <= s[i] <= 'Z' || '0' <= s[i] <= '9' || s[i] == '-'
}

proof fn lemma_token_concat(a: Seq<char>, b: Seq<char>)
    requires
        token(a),
        token(b),
    ensures
        token(a + b),
{
    assert forall|i: int| 0 <= i < (a + b).len() implies 'a' <= #[trigger] (a + b)[i] <= 'z' || 'A' <= (a + b)[i] <= 'Z'
        || '0' <= (a + b)[i] <= '9' || (a + b)[i] == '-' by {
        if i < a.len() {
            assert((a + b)[i] == a[i]);
        } else {
            assert((a + b)[i] == b[i - a.len()]);
        }
    }
}

/// The name of a header that carries metadata consists of letters, digits and
/// hyphens.
pub proof fn lemma_header_token(f: Field)
    ensures
        token(header_name(f)),
{
    reveal_strlit("X-Ark-Meta-Id");
    reveal_strlit("X-Ark-Meta-Created");
    reveal_strlit("X-Ark-Meta-Modified");
    reveal_strlit("X-Ark-Meta-Modified-By");
    reveal_strlit("X-Ark-Meta-Encryption-Algorithm");
    reveal_strlit("X-Ark-Meta-Body-Hash-Algorithm");
    reveal_strlit("X-Ark-Meta-Body-Hash-Value");
    reveal_strlit("X-Ark-Meta-Signature-Algorithm");
    reveal_strlit("X-Ark-Meta-Signature-Value");
    reveal_strlit("X-Ark-Meta-Member-");
    reveal_strlit("-Address");
    reveal_strlit("-Permission");
    reveal_strlit("-Key-Algorithm");
    reveal_strlit("-Key-Value");
    match f {
        Field::MemberAddress(i) => {
            lemma_member_token(i, "-Address"@);
        },
        Field::MemberPermission(i) => {
            lemma_member_token(i, "-Permission"@);
        },
        Field::MemberKeyAlgorithm(i) => {
            lemma_member_token(i, "-Key-Algorithm"@);
        },
        Field::MemberKeyValue(i) => {
            lemma_member_token(i, "-Key-Value"@);
        },
        _ => {},
    }
}

proof fn lemma_member_token(i: usize, suffix: Seq<char>)
    requires
        token(suffix),
    ensures
        token("X-Ark-Meta-Member-"@ + decimal(i as nat) + suffix),
{
    reveal_strlit("X-Ark-Meta-Member-");
    lemma_decimal(i as nat);
    let d = decimal(i as nat);
    assert(token(d)) by {
        assert forall|k: int| 0 <= k < d.len() implies 'a' <= #[trigger] d[k] <= 'z' || 'A' <= d[k] <= 'Z' || '0'
            <= d[k] <= '9' || d[k] == '-' by {
            assert(is_digit(d[k]));
        }
    }
    lemma_token_concat("X-Ark-Meta-Member-"@, d);
    lemma_token_concat("X-Ark-Meta-Member-"@ + d, suffix);
}

/// Such a name and a text that can be a value make a header.
pub proof fn lemma_token_clean(name: Seq<char>, value: Seq<char>)
    requires
        token(name),
        header_text(value),
    ensures
        clean((name, value)),
{
    assert forall|i: int| 0 <= i < name.len() implies #[trigger] name[i] != '\n' && name[i] != ':' && !is_space(name[i])
        by {}
    if name.len() > 0 {
        assert(!is_space(name[0]) && !is_space(name[name.len() - 1]));
    }
}

proof fn lemma_type_text(file: Seq<char>)
    ensures
        header_text(type_of(file)),
{
    reveal_strlit("text/html; charset=utf-8");
    reveal_strlit("text/css; charset=utf-8");
    reveal_strlit("application/javascript");
    reveal_strlit("application/json");
    reveal_strlit("image/png");
    reveal_strlit("image/jpeg");
    reveal_strlit("image/gif");
    reveal_strlit("image/svg+xml");
    reveal_strlit("text/plain; charset=utf-8");
    reveal_strlit("application/pdf");
    reveal_strlit("application/octet-stream");
}

proof fn lemma_not_length(name: Seq<char>)
    requires
        metadata_key(name) is Some,
    ensures
        lower(name) != lower("Content-Length"@),
{
    reveal_strlit("Content-Length");
    reveal_strlit("user.ark.");
    reveal_strlit("x-ark-meta-");
    if lower(name) == lower("Content-Length"@) {
        assert(lower(name)[0] == 'c');
        assert(lower(name.take(9))[0] == lower(name)[0]);
        assert(lower(name.take(11))[0] == lower(name)[0]);
        assert("user.ark."@[0] == 'u' && "x-ark-meta-"@[0] == 'x');
    }
}

proof fn lemma_other_headers()
    ensures
        metadata_key("Content-Type"@) is None,
        metadata_key("Content-Length"@) is None,
        metadata_key("Connection"@) is None,
        lower("Content-Type"@) != lower("Content-Length"@),
        lower("Connection"@) != lower("Content-Length"@),
        token("Content-Type"@),
        token("Content-Length"@),
        token("Connection"@),
        header_text("close"@),
{
    reveal_strlit("Content-Type");
    reveal_strlit("Content-Length");
    reveal_strlit("Connection");
    reveal_strlit("user.ark.");
    reveal_strlit("x-ark-meta-");
    reveal_strlit("close");
    assert(lower("Content-Type"@.take(9))[0] == 'c');
    assert(lower("Content-Type"@.take(11))[0] == 'c');
    assert(lower("Content-Length"@.take(9))[0] == 'c');
    assert(lower("Content-Length"@.take(11))[0] == 'c');
    assert(lower("Connection"@.take(9))[0] == 'c');
    assert("user.ark."@[0] == 'u' && "x-ark-meta-"@[0] == 'x');
    assert(lower("Content-Type"@).len() == 12 && lower("Content-Length"@).len() == 14);
    assert(lower("Connection"@).len() == 10);
}

/// What the headers of a file say, once more in detail.
proof fn lemma_file_headers(m: MetadataV, file: Seq<char>, size: nat)
    requires
        tidy(m),
    ensures
        all_clean(file_headers(m, file, size)),
        has_header(file_headers(m, file, size), "Content-Length"@),
        forall|i: int|
            0 <= i < file_headers(m, file, size).len() && lower((#[trigger] file_headers(m, file, size)[i]).0) == lower(
                "Content-Length"@,
            ) ==> file_headers(m, file, size)[i].1 == decimal(size),
        forall|i: int|
            0 <= i < file_headers(m, file, size).len() ==> header_belongs(
                m,
                #[trigger] file_headers(m, file, size)[i],
            ),
{
    let list = file_headers(m, file, size);
    let own = header_fields(m);
    let n = own.len() as int;
    lemma_other_headers();
    lemma_type_text(file_name(file));
    lemma_decimal(size);
    let d = decimal(size);
    assert(header_text(d)) by {
        assert forall|i: int| 0 <= i < d.len() implies #[trigger] d[i] != '\n' by {
            assert(is_digit(d[i]));
        }
        assert(is_digit(d[0]) && is_digit(d[d.len() - 1]));
    }
    lemma_token_clean("Content-Type"@, type_of(file_name(file)));
    lemma_token_clean("Content-Length"@, d);
    lemma_token_clean("Connection"@, "close"@);
    assert(list[n + 1] == ("Content-Length"@, d));
    assert(lower(list[n + 1].0) == lower("Content-Length"@));
    assert forall|i: int| 0 <= i < list.len() implies clean(#[trigger] list[i]) && header_belongs(m, list[i]) && (lower(
        list[i].0,
    ) == lower("Content-Length"@) ==> list[i].1 == d) by {
        if i < n {
            let f = fields_of(m)[i].0;
            assert(list[i] == own[i]);
            assert(own[i] == (header_name(f), fields_of(m)[i].1));
            lemma_header_token(f);
            lemma_header_name(f);
            lemma_not_length(header_name(f));
            lemma_token_clean(header_name(f), fields_of(m)[i].1);
            assert(own.contains(own[i]));
        }
    }
}

/// A file that was stored with metadata is read back over the wire with its
/// body and that metadata, whatever other attributes the file has.
pub proof fn stored_file_is_read_back(
    m: MetadataV,
    others: Seq<(Seq<char>, Seq<u8>)>,
    body: Seq<u8>,
    file: Seq<char>,
    account: AccountV,
    above: Seq<Result<Seq<(Seq<char>, Seq<u8>)>, ErrorV>>,
    skip_body: bool,
)
    requires
        tidy(m),
        has_owner(m.members),
        m.members.len() <= usize::MAX,
        forall|j: int| 0 <= j < others.len() ==> !"user.ark."@.is_prefix_of((#[trigger] others[j]).0),
        body.len() <= usize::MAX,
    ensures
        ({
            let disk = DiskV {
                account,
                symlink: false,
                attributes: Ok(others + attribute_fields(m)),
                above,
                node: NodeV::File { size: body.len() as u64 },
            };
            &&& got(disk, file, None, !skip_body) matches ActionV::File { head, send }
            &&& send == !skip_body
            &&& response_read(head + body, skip_body) matches Ok(response)
            &&& response.status == 200
            &&& response.body == (if skip_body {
                Seq::empty()
            } else {
                body
            })
            &&& carries_metadata(response.headers)
            &&& metadata_of(response.headers) == Ok::<MetadataV, ErrorV>(m)
        }),
{
    rewritten_attributes_read_back(m, others);
    let headers = file_headers(m, file, body.len());
    lemma_file_headers(m, file, body.len());
    streamed_response_round_trip(200, headers, body, skip_body);
    lemma_sorted_read_back(m, headers);
}

proof fn lemma_dir_headers(m: MetadataV, size: nat)
    requires
        tidy(m),
    ensures
        all_clean(dir_headers(Ok(m), size)),
        has_header(dir_headers(Ok(m), size), "Content-Length"@),
        forall|i: int|
            0 <= i < dir_headers(Ok(m), size).len() && lower((#[trigger] dir_headers(Ok(m), size)[i]).0) == lower(
                "Content-Length"@,
            ) ==> dir_headers(Ok(m), size)[i].1 == decimal(size),
        forall|i: int|
            0 <= i < dir_headers(Ok(m), size).len() ==> header_belongs(m, #[trigger] dir_headers(Ok(m), size)[i]),
{
    let list = dir_headers(Ok(m), size);
    let own = header_fields(m);
    let n = own.len() as int;
    lemma_other_headers();
    lemma_decimal(size);
    let d = decimal(size);
    assert(header_text(d)) by {
        assert forall|i: int| 0 <= i < d.len() implies #[trigger] d[i] != '\n' by {
            assert(is_digit(d[i]));
        }
        assert(is_digit(d[0]) && is_digit(d[d.len() - 1]));
    }
    assert(header_text("application/json"@)) by {
        reveal_strlit("application/json");
    }
    lemma_token_clean("Content-Type"@, "application/json"@);
    lemma_token_clean("Content-Length"@, d);
    lemma_token_clean("Connection"@, "close"@);
    assert(list[n + 1] == ("Content-Length"@, d));
    assert(lower(list[n + 1].0) == lower("Content-Length"@));
    assert forall|i: int| 0 <= i < list.len() implies clean(#[trigger] list[i]) && header_belongs(m, list[i]) && (lower(
        list[i].0,
    ) == lower("Content-Length"@) ==> list[i].1 == d) by {
        if i < n {
            let f = fields_of(m)[i].0;
            assert(list[i] == own[i]);
            assert(own[i] == (header_name(f), fields_of(m)[i].1));
            lemma_header_token(f);
            lemma_header_name(f);
            lemma_not_length(header_name(f));
            lemma_token_clean(header_name(f), fields_of(m)[i].1);
            assert(own.contains(own[i]));
        }
    }
}

/// Headers that belong to metadata and hold all of it are read back as it, in
/// whatever order they come.
pub proof fn lemma_sorted_read_back(m: MetadataV, headers: Seq<(Seq<char>, Seq<char>)>)
    requires
        has_owner(m.members),
        m.members.len() <= usize::MAX,
        forall|j: int| 0 <= j < headers.len() ==> header_belongs(m, #[trigger] headers[j]),
        header_fields(m).len() <= headers.len(),
        forall|k: int| 0 <= k < header_fields(m).len() ==> headers[k] == #[trigger] header_fields(m)[k],
    ensures
        metadata_of(sorted(headers)) == Ok::<MetadataV, ErrorV>(m),
        carries_metadata(sorted(headers)),
{
    broadcast use vstd::seq_lib::group_to_multiset_ensures;

    let list = sorted(headers);
    sorting_keeps_headers(headers);
    assert forall|j: int| 0 <= j < list.len() implies header_belongs(m, #[trigger] list[j]) by {
        assert(list.contains(list[j]));
        assert(list.to_multiset().count(list[j]) > 0);
        assert(headers.contains(list[j]));
        let k = choose|k: int| 0 <= k < headers.len() && headers[k] == list[j];
        assert(header_belongs(m, headers[k]));
    }
    assert forall|k: int| 0 <= k < header_fields(m).len() implies list.contains(#[trigger] header_fields(m)[k]) by {
        assert(headers[k] == header_fields(m)[k]);
        assert(headers.contains(headers[k]));
        assert(headers.to_multiset().count(headers[k]) > 0);
    }
    headers_read_back(m, list);
    let f = fields_of(m)[0].0;
    lemma_header_name(f);
    assert(list.contains(header_fields(m)[0]));
    let j = choose|j: int| 0 <= j < list.len() && list[j] == header_fields(m)[0];
    assert(list[j].0 == header_name(f));
}

/// A directory that was stored with metadata is listed over the wire with that
/// metadata, whatever other attributes it has.
pub proof fn stored_directory_is_read_back(
    m: MetadataV,
    others: Seq<(Seq<char>, Seq<u8>)>,
    entries: Seq<EntryV>,
    file: Seq<char>,
    account: AccountV,
    above: Seq<Result<Seq<(Seq<char>, Seq<u8>)>, ErrorV>>,
)
    requires
        tidy(m),
        has_owner(m.members),
        m.members.len() <= usize::MAX,
        forall|j: int| 0 <= j < others.len() ==> !"user.ark."@.is_prefix_of((#[trigger] others[j]).0),
        encode_utf8(listing(entries_with(entries, None), Layout::Account)).len() <= usize::MAX,
    ensures
        ({
            let disk = DiskV {
                account,
                symlink: false,
                attributes: Ok(others + attribute_fields(m)),
                above,
                node: NodeV::Dir { entries: Ok(entries) },
            };
            &&& got(disk, file, None, true) matches ActionV::Answer { bytes }
            &&& response_read(bytes, false) matches Ok(response)
            &&& response.status == 200
            &&& response.body == encode_utf8(listing(entries_with(entries, None), Layout::Account))
            &&& carries_metadata(response.headers)
            &&& metadata_of(response.headers) == Ok::<MetadataV, ErrorV>(m)
        }),
{
    let body = encode_utf8(listing(entries_with(entries, None), Layout::Account));
    let headers = dir_headers(Ok(m), body.len());
    rewritten_attributes_read_back(m, others);
    lemma_dir_headers(m, body.len());
    streamed_response_round_trip(200, headers, body, false);
    assert(response_bytes(200, headers, Seq::empty()) + body =~= response_bytes(200, headers, body));
    lemma_sorted_read_back(m, headers);
}

} // verus!
