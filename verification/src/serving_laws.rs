//! What holds of every answer of the account server.

use vstd::prelude::*;
use vstd::utf8::encode_utf8;

use crate::auth::{claim_in, header_value, names_group, permission_for, requestor};
use crate::error::ErrorV;
use crate::fields::{header_fields, metadata_of, metadata_of_attributes};
use crate::http::{final_headers, has_header, response_bytes, response_read, sorted, text_headers, RequestV};
use crate::listing::{entry_json, extension, joined_values, listing, named_entries, type_of, EntryV, Layout};
use crate::membership::identity_at;
use crate::metadata::{member_at, signature_verified};
use crate::number::decimal;
use crate::paths::{file_name, joined_names, segments};
use crate::primitives::sha256_of;
use crate::server::{
    answer, asked_prefix, call_of, content_checked, differ, dir_headers, dirs_above, entries_with, file_headers,
    got, handled, known, listing_headers, nearest_members, only_metadata, pair_value, place_of, unknown_claimant,
    unknown_group, unknown_group_for, AccountV, ActionV, Content, DiskV, NodeV, PlaceV,
};
use crate::text::{cut, first, last, lemma_first, lemma_first_is, lemma_last_is, lower};
use crate::types::{IdentityV, MemberV, MetadataV, Permission, Tagged};
use crate::wire::{all_clean, response_round_trip, sorting_keeps_headers, sorting_orders_headers};

verus! {

// What a directory is listed as.

/// A listing shows the entries whose names begin as asked, all of them and no others, in
/// the order in which they are there, and every entry where nothing is asked.
#[verifier::rlimit(40)]
pub proof fn listings_are_complete(list: Seq<EntryV>, prefix: Seq<char>)
    ensures
        entries_with(list, None) == list,
        entries_with(list, Some(prefix)) == list.filter(|e: EntryV| prefix.is_prefix_of(e.name)),
        forall|e: EntryV| #[trigger]
            entries_with(list, Some(prefix)).contains(e) <==> list.contains(e) && prefix.is_prefix_of(e.name),
    decreases list.len(),
{
    reveal(Seq::filter);
    let keep = |e: EntryV| prefix.is_prefix_of(e.name);
    if list.len() > 0 {
        listings_are_complete(list.drop_last(), prefix);
        assert(list.drop_last().push(list.last()) =~= list);
    }
    assert(entries_with(list, Some(prefix)) =~= list.filter(keep));
    assert forall|e: EntryV| #[trigger] entries_with(list, Some(prefix)).contains(e) <==> list.contains(e)
        && prefix.is_prefix_of(e.name) by {
        let r = list.filter(keep);
        if r.contains(e) {
            let i = choose|i: int| 0 <= i < r.len() && r[i] == e;
            list.lemma_filter_pred(keep, i);
            list.lemma_filter_contains_rev(keep, e);
        }
        if list.contains(e) && prefix.is_prefix_of(e.name) {
            let i = choose|i: int| 0 <= i < list.len() && list[i] == e;
            assert(keep(list[i]));
            list.lemma_filter_contains(keep, i);
        }
    }
}

/// Values are written one after the other with a comma between two, and nothing else.
pub proof fn values_are_joined_by_commas(a: Seq<(Seq<char>, Seq<char>)>, b: Seq<(Seq<char>, Seq<char>)>)
    ensures
        joined_values(Seq::empty()) == Seq::<char>::empty(),
        forall|v: (Seq<char>, Seq<char>)| #[trigger] joined_values(seq![v]) == v.1,
        a.len() > 0 && b.len() > 0 ==> joined_values(a + b) == joined_values(a) + ","@ + joined_values(b),
    decreases b.len(),
{
    if a.len() > 0 && b.len() > 0 {
        let whole = a + b;
        assert(whole.last() == b.last());
        if b.len() == 1 {
            assert(whole.drop_last() =~= a);
        } else {
            assert(whole.drop_last() =~= a + b.drop_last());
            values_are_joined_by_commas(a, b.drop_last());
            assert(joined_values(whole) =~= joined_values(a) + ","@ + joined_values(b));
        }
    }
}

/// The listing of a directory shows each entry once, those with smaller names before
/// the others, between brackets.
pub proof fn listings_show_each_entry(entries: Seq<EntryV>, layout: Layout) -> (order: Seq<(Seq<char>, Seq<char>)>)
    ensures
        listing(entries, layout) == "["@ + joined_values(order) + "]"@,
        order.len() == entries.len(),
        order.to_multiset() == entries.map_values(|e: EntryV| (e.name, entry_json(e, layout))).to_multiset(),
        forall|i: int, j: int|
            0 <= i < j < order.len() ==> !crate::text::precedes((#[trigger] order[j]).0, (#[trigger] order[i]).0),
{
    let names = named_entries(entries, layout);
    sorting_keeps_headers(names);
    sorting_orders_headers(names);
    assert(names =~= entries.map_values(|e: EntryV| (e.name, entry_json(e, layout))));
    sorted(names)
}

/// What follows the last dot of a name, unless that begins the name, is its extension.
#[verifier::rlimit(40)]
pub proof fn extensions_follow_the_last_dot(stem: Seq<char>, end: Seq<char>)
    requires
        !end.contains('.'),
    ensures
        stem.len() > 0 ==> extension(stem + "."@ + end) == end,
        extension("."@ + end) == Seq::<char>::empty(),
        extension(end) == Seq::<char>::empty(),
{
    reveal_strlit(".");
    let whole = stem + "."@ + end;
    let at = stem.len() as int;
    assert(whole[at] == '.');
    assert forall|k: int| at < k < whole.len() implies whole[k] != '.' by {
        assert(whole[k] == end[k - at - 1]);
        assert(end.contains(end[k - at - 1]));
    }
    lemma_last_is(whole, '.', at);
    assert(whole.skip(at + 1) =~= end);
    let hidden = "."@ + end;
    assert forall|k: int| 0 < k < hidden.len() implies hidden[k] != '.' by {
        assert(hidden[k] == end[k - 1]);
        assert(end.contains(end[k - 1]));
    }
    lemma_last_is(hidden, '.', 0);
    assert forall|k: int| 0 <= k < end.len() implies end[k] != '.' by {
        assert(end.contains(end[k]));
    }
    assert(last(end, '.') == end.len());
}

// Where a request goes.

/// The directories above a file are the ways to it, each one name shorter than the one
/// before, down to that of the account.
#[verifier::rlimit(40)]
pub proof fn directories_above_are_all_there(names: Seq<Seq<char>>, i: int)
    requires
        0 <= i < names.len() - 2,
    ensures
        dirs_above(names).len() == names.len() - 2,
        dirs_above(names)[i] == joined_names(names.take(names.len() - 1 - i)),
    decreases names.len(),
{
    let front = names.drop_last();
    if names.len() > 3 {
        directories_above_are_all_there(front, if i > 0 {
            i - 1
        } else {
            0
        });
        if i > 0 {
            assert(front.take(front.len() - 1 - (i - 1)) =~= names.take(names.len() - 1 - i));
        }
    }
    if names.len() == 3 {
        assert(dirs_above(front) == Seq::<Seq<char>>::empty());
    }
    if i == 0 {
        assert(names.take(names.len() - 1) =~= front);
    }
}

/// A request goes to the account that the second name of its path gives, where the
/// first is `ark`; to the account itself it only goes to read.
#[verifier::rlimit(40)]
pub proof fn requests_reach_their_account(method: Seq<char>, path: Seq<char>, query: Option<Seq<char>>)
    ensures
        ({
            let names = segments(path);
            let inside = names.len() >= 2 && names[0] == "ark"@;
            let reading = method == "GET"@ || method == "HEAD"@;
            &&& place_of(method, path, query) is Ok <==> inside && (names.len() > 2 || reading)
            &&& place_of(method, path, query) matches Ok(p) ==> p.account == names[1] && p.path == path && p.query == query
                && p.file == crate::text::trim_front(path, crate::text::Trim::Slash)
            &&& place_of(method, path, query) matches Err(r) ==> r.status == (if inside {
                405u16
            } else {
                403u16
            })
        }),
{
}

/// The value of a name in a query is that of the first pair with the name: what follows
/// its first `=`, and nothing where there is none.
pub proof fn first_pair_counts(list: Seq<Seq<char>>, name: Seq<char>, value: Seq<char>, i: int)
    requires
        0 <= i < list.len(),
        !name.contains('='),
        list[i] == name + "="@ + value || list[i] == name && value.len() == 0,
        forall|j: int|
            0 <= j < i ==> #[trigger] list[j] != name && !(name + "="@).is_prefix_of(list[j]),
    ensures
        pair_value(list, name) == Some(value),
    decreases list.len(),
{
    reveal_strlit("=");
    if i == 0 {
        lemma_pair(list[0], name, value);
    } else {
        let rest = list.skip(1);
        lemma_other_pair(list[0], name);
        assert forall|j: int| 0 <= j < i - 1 implies #[trigger] rest[j] != name && !(name + "="@).is_prefix_of(
            rest[j],
        ) by {
            assert(rest[j] == list[j + 1]);
        }
        assert(rest[i - 1] == list[i]);
        first_pair_counts(rest, name, value, i - 1);
    }
}

#[verifier::rlimit(40)]
proof fn lemma_pair(pair: Seq<char>, name: Seq<char>, value: Seq<char>)
    requires
        !name.contains('='),
        pair == name + "="@ + value || pair == name && value.len() == 0,
    ensures
        crate::text::before(pair, '=') == name,
        cut(pair, '=') matches Some((k, v)) ==> v == value,
        cut(pair, '=') is None ==> value.len() == 0,
{
    reveal_strlit("=");
    assert forall|k: int| 0 <= k < name.len() implies name[k] != '=' by {
        assert(name.contains(name[k]));
    }
    lemma_first(pair, '=');
    if pair == name + "="@ + value {
        assert(pair[name.len() as int] == '=');
        assert forall|k: int| 0 <= k < name.len() implies pair[k] != '=' by {
            assert(pair[k] == name[k]);
        }
        lemma_first_is(pair, '=', name.len() as int);
        assert(pair.take(name.len() as int) =~= name);
        assert(pair.skip(name.len() as int + 1) =~= value);
    } else {
        assert(first(pair, '=') == pair.len());
        assert(pair.take(pair.len() as int) =~= pair);
    }
}

proof fn lemma_other_pair(pair: Seq<char>, name: Seq<char>)
    requires
        pair != name,
        !(name + "="@).is_prefix_of(pair),
    ensures
        crate::text::before(pair, '=') != name,
{
    reveal_strlit("=");
    lemma_first(pair, '=');
    let at = first(pair, '=') as int;
    if pair.take(at) == name {
        if at < pair.len() {
            assert((name + "="@) =~= pair.subrange(0, (name + "="@).len() as int));
        } else {
            assert(pair.take(at) =~= pair);
        }
    }
}

// What is refused and what is given.

/// Whether a request is answered with a status and a text in place of what it asks for.
pub open spec fn turned_down(action: ActionV, status: u16) -> bool {
    exists|text: Seq<char>| action == #[trigger] answer(status, text)
}

/// An answer is read back with its status and its text.
pub proof fn answers_are_read_back(status: u16, text: Seq<char>)
    requires
        encode_utf8(text).len() <= usize::MAX,
    ensures
        answer(status, text) matches ActionV::Answer { bytes } && (response_read(bytes, false) matches Ok(r)
            && r.status == status && r.body == encode_utf8(text)),
{
    reveal_strlit("Content-Type");
    reveal_strlit("text/plain");
    reveal_strlit("Connection");
    reveal_strlit("close");
    reveal_strlit("Content-Length");
    let headers = text_headers();
    assert(lower("Content-Type"@)[8] == 't');
    assert(lower("Content-Length"@)[8] == 'l');
    assert(lower("Connection"@).len() == 10);
    assert(lower("Content-Length"@).len() == 14);
    assert(!has_header(headers, "Content-Length"@));
    assert(all_clean(headers));
    response_round_trip(status, headers, encode_utf8(text), false);
}

/// The files of an account are given and refused by what the one who asks may do.
#[verifier::spinoff_prover]
#[verifier::rlimit(60)]
pub proof fn members_are_served(
    request: RequestV,
    place: PlaceV,
    disk: DiskV,
    dir: Seq<(Seq<char>, Result<IdentityV, ErrorV>)>,
    now: nat,
    target: IdentityV,
    who: IdentityV,
    permission: Permission,
)
    requires
        disk.account == (AccountV::Present { identity: target }),
        !disk.symlink,
        requestor(target, dir, request.headers, now, call_of(request, place)) == Ok::<IdentityV, ErrorV>(who),
        disk.granted() matches Some(list) ==> forall|i: int|
            0 <= i < list.len() && (#[trigger] list[i]).address.contains('/') ==> list[i].address == target.address
                || exists|k: int| 0 <= k < dir.len() && (#[trigger] dir[k]).0 == list[i].address,
        permission_for(target, dir, who.address, disk.granted()) == Ok::<Permission, ErrorV>(permission),
    ensures
        ({
            let action = handled(request, place, disk, dir, now);
            let may_write = permission == Permission::Writer || permission == Permission::Owner;
            &&& request.method == "GET"@ ==> action == got(disk, place.file, asked_prefix(place.query), true)
            &&& request.method == "HEAD"@ ==> action == got(disk, place.file, asked_prefix(place.query), false)
            &&& request.method == "PUT"@ && !may_write ==> turned_down(action, 403)
            &&& request.method == "DELETE"@ && !may_write ==> turned_down(action, 403)
            &&& request.method == "DELETE"@ && may_write && disk.node is Missing ==> turned_down(action, 404)
            &&& request.method == "DELETE"@ && may_write && disk.node is Dir ==> action == (ActionV::Remove { dir: true })
            &&& request.method == "DELETE"@ && may_write && disk.node is File ==> action == (ActionV::Remove {
                dir: false,
            })
            &&& request.method != "GET"@ && request.method != "HEAD"@ && request.method != "PUT"@ && request.method
                != "DELETE"@ ==> turned_down(action, 405)
        }),
{
    lemma_known_claimant(request, place, dir, now, target, who);
    lemma_known_groups(disk, dir, target, who.address);
    reveal_strlit("GET");
    reveal_strlit("HEAD");
    reveal_strlit("PUT");
    reveal_strlit("DELETE");
    assert("GET"@[0] != "HEAD"@[0] && "GET"@[0] != "PUT"@[0] && "GET"@[0] != "DELETE"@[0] && "HEAD"@[0] != "PUT"@[0]
        && "HEAD"@[0] != "DELETE"@[0] && "PUT"@[0] != "DELETE"@[0]);
    let action = handled(request, place, disk, dir, now);
    if request.method == "PUT"@ && permission == Permission::Reader {
        assert(action == answer(403, "write permission required"@));
    }
    if request.method == "DELETE"@ && permission == Permission::Reader {
        assert(action == answer(403, "write permission required"@));
    }
    if request.method == "DELETE"@ && permission != Permission::Reader && disk.node is Missing {
        assert(action == answer(404, "not found"@));
    }
    if request.method != "GET"@ && request.method != "HEAD"@ && request.method != "PUT"@ && request.method != "DELETE"@ {
        assert(action == answer(405, "method not allowed"@));
    }
}

/// Who may write may store whatever some known account has signed for the place, and
/// with it change who the members are just where they are an owner.
#[verifier::spinoff_prover]
#[verifier::rlimit(60)]
pub proof fn signed_writes_are_stored(
    request: RequestV,
    place: PlaceV,
    disk: DiskV,
    dir: Seq<(Seq<char>, Result<IdentityV, ErrorV>)>,
    now: nat,
    target: IdentityV,
    who: IdentityV,
    permission: Permission,
    m: MetadataV,
    modifier: IdentityV,
    content: Content,
)
    requires
        disk.account == (AccountV::Present { identity: target }),
        !disk.symlink,
        request.method == "PUT"@,
        requestor(target, dir, request.headers, now, call_of(request, place)) == Ok::<IdentityV, ErrorV>(who),
        disk.granted() matches Some(list) ==> forall|i: int|
            0 <= i < list.len() && (#[trigger] list[i]).address.contains('/') ==> list[i].address == target.address
                || exists|k: int| 0 <= k < dir.len() && (#[trigger] dir[k]).0 == list[i].address,
        permission_for(target, dir, who.address, disk.granted()) == Ok::<Permission, ErrorV>(permission),
        permission == Permission::Writer || permission == Permission::Owner,
        metadata_of(request.headers) == Ok::<MetadataV, ErrorV>(m),
        identity_at(target, dir, m.modified_by) == Ok::<IdentityV, ErrorV>(modifier),
        content_checked(modifier.public_key, m, disk.metadata(), request.body, only_metadata(place.query)) == Ok::<
            Content,
            ErrorV,
        >(content),
    ensures
        ({
            let action = handled(request, place, disk, dir, now);
            let same = match disk.metadata() {
                Ok(old_metadata) => !differ(old_metadata.members, m.members),
                Err(_) => true,
            };
            &&& permission == Permission::Owner || same ==> action == (ActionV::Store {
                metadata: m,
                content,
                status: if disk.node is Missing {
                    201
                } else {
                    204
                },
            })
            &&& permission != Permission::Owner && !same ==> turned_down(action, 403)
        }),
{
    lemma_known_claimant(request, place, dir, now, target, who);
    lemma_known_groups(disk, dir, target, who.address);
    lemma_looked_up_known(target, dir, m.modified_by);
    reveal_strlit("GET");
    reveal_strlit("HEAD");
    reveal_strlit("PUT");
    reveal_strlit("DELETE");
    assert("GET"@[0] != "PUT"@[0] && "HEAD"@[0] != "PUT"@[0] && "PUT"@[0] != "DELETE"@[0]);
    let action = handled(request, place, disk, dir, now);
    let same = match disk.metadata() {
        Ok(old_metadata) => !differ(old_metadata.members, m.members),
        Err(_) => true,
    };
    if permission != Permission::Owner && !same {
        assert(action == answer(403, "owner permission required to change members"@));
    }
}

/// What cannot be done is refused: where there is no account, through a symlink, without
/// a valid signature, and by who is no member.
#[verifier::spinoff_prover]
#[verifier::rlimit(60)]
pub proof fn others_are_turned_down(
    request: RequestV,
    place: PlaceV,
    disk: DiskV,
    dir: Seq<(Seq<char>, Result<IdentityV, ErrorV>)>,
    now: nat,
)
    ensures
        ({
            let action = handled(request, place, disk, dir, now);
            &&& disk.account is Absent ==> turned_down(action, 403)
            &&& disk.account is Present && disk.symlink ==> turned_down(action, 403)
            &&& disk.account matches AccountV::Present { identity: target } ==> {
                let open = !(request.method != "GET"@ && request.method != "HEAD"@) && (match disk.metadata() {
                    Ok(m) => member_at(m.members, "*"@) is Some,
                    Err(_) => false,
                });
                let asking = requestor(target, dir, request.headers, now, call_of(request, place));
                &&& !disk.symlink && !open && header_value(request.headers, "authorization"@) is None ==> turned_down(
                    action,
                    401,
                )
                &&& !disk.symlink && !open && asking is Err && unknown_claimant(request.headers, target, dir) is None
                    ==> turned_down(action, 401)
                &&& !disk.symlink && !open && asking is Ok && permission_for(
                    target,
                    dir,
                    asking->Ok_0.address,
                    disk.granted(),
                ) is Err && unknown_group_for(target, dir, asking->Ok_0.address, disk.granted()) is None ==> turned_down(
                    action,
                    403,
                )
            }
        }),
{
    let action = handled(request, place, disk, dir, now);
    if disk.account is Absent {
        assert(action == answer(403, "forbidden"@));
    }
    if disk.account is Present && disk.symlink {
        assert(action == answer(403, "symlinks not allowed"@));
    }
    if let AccountV::Present { identity: target } = disk.account {
        let asking = requestor(target, dir, request.headers, now, call_of(request, place));
        match asking {
            Err(e) => {
                assert(turned_down(answer(401, crate::error::message_of(e)), 401));
            },
            Ok(who) => {
                lemma_known_claimant(request, place, dir, now, target, who);
                if let Err(e) = permission_for(target, dir, who.address, disk.granted()) {
                    assert(turned_down(answer(403, crate::error::message_of(e)), 403));
                }
            },
        }
    }
}

proof fn lemma_looked_up_known(
    own: IdentityV,
    dir: Seq<(Seq<char>, Result<IdentityV, ErrorV>)>,
    address: Seq<char>,
)
    requires
        identity_at(own, dir, address) is Ok,
    ensures
        known(own, dir, address),
    decreases dir.len(),
{
    if address != own.address && dir.len() > 0 && dir[0].0 != address {
        lemma_looked_up_known(own, dir.skip(1), address);
        let rest = dir.skip(1);
        let k = choose|k: int| 0 <= k < rest.len() && (#[trigger] rest[k]).0 == address;
        assert(dir[k + 1].0 == address);
    } else if address != own.address && dir.len() > 0 {
        assert(dir[0].0 == address);
    }
}

proof fn lemma_known_claimant(
    request: RequestV,
    place: PlaceV,
    dir: Seq<(Seq<char>, Result<IdentityV, ErrorV>)>,
    now: nat,
    target: IdentityV,
    who: IdentityV,
)
    requires
        requestor(target, dir, request.headers, now, call_of(request, place)) == Ok::<IdentityV, ErrorV>(who),
    ensures
        unknown_claimant(request.headers, target, dir) is None,
{
    if let Some(value) = header_value(request.headers, "authorization"@) {
        if let Ok(claim) = claim_in(value) {
            lemma_looked_up_known(target, dir, claim.address);
        }
    }
}

proof fn lemma_known_groups(
    disk: DiskV,
    dir: Seq<(Seq<char>, Result<IdentityV, ErrorV>)>,
    target: IdentityV,
    account: Seq<char>,
)
    requires
        disk.granted() matches Some(list) ==> forall|i: int|
            0 <= i < list.len() && (#[trigger] list[i]).address.contains('/') ==> list[i].address == target.address
                || exists|k: int| 0 <= k < dir.len() && (#[trigger] dir[k]).0 == list[i].address,
    ensures
        unknown_group_for(target, dir, account, disk.granted()) is None,
{
    if let Some(list) = disk.granted() {
        groups_are_looked_up(target, dir, list);
        if let Some(address) = unknown_group(target, dir, list) {
            assert(false);
        }
    }
}

/// A group that is not known has to be looked up: the first among the members. There is
/// none just where every group is known.
#[verifier::rlimit(40)]
pub proof fn groups_are_looked_up(
    target: IdentityV,
    dir: Seq<(Seq<char>, Result<IdentityV, ErrorV>)>,
    list: Seq<MemberV>,
)
    ensures
        match unknown_group(target, dir, list) {
            Some(address) => exists|i: int|
                0 <= i < list.len() && (#[trigger] list[i]).address == address && address.contains('/') && address
                    != target.address && (forall|k: int| 0 <= k < dir.len() ==> (#[trigger] dir[k]).0 != address)
                    && forall|j: int|
                    0 <= j < i ==> (#[trigger] list[j]).address.contains('/') ==> known(target, dir, list[j].address),
            None => forall|i: int|
                0 <= i < list.len() ==> (#[trigger] list[i]).address.contains('/') ==> known(
                    target,
                    dir,
                    list[i].address,
                ),
        },
    decreases list.len(),
{
    if list.len() > 0 {
        let rest = list.skip(1);
        let head = list[0].address;
        lemma_first(head, '/');
        if head.contains('/') {
            let k = choose|k: int| 0 <= k < head.len() && head[k] == '/';
            assert(first(head, '/') <= k);
        }
        assert(names_group(head) == head.contains('/'));
        groups_are_looked_up(target, dir, rest);
        if names_group(head) && !known(target, dir, head) {
            assert(list[0].address == head);
            assert forall|k: int| 0 <= k < dir.len() implies (#[trigger] dir[k]).0 != head by {}
        } else {
            match unknown_group(target, dir, rest) {
                Some(address) => {
                    let i = choose|i: int|
                        0 <= i < rest.len() && (#[trigger] rest[i]).address == address && address.contains('/') && address
                            != target.address && (forall|k: int| 0 <= k < dir.len() ==> (#[trigger] dir[k]).0 != address)
                            && forall|j: int|
                            0 <= j < i ==> (#[trigger] rest[j]).address.contains('/') ==> known(
                                target,
                                dir,
                                rest[j].address,
                            );
                    assert(list[i + 1].address == address);
                    assert forall|j: int| 0 <= j < i + 1 implies (#[trigger] list[j]).address.contains('/') ==> known(
                        target,
                        dir,
                        list[j].address,
                    ) by {
                        if j > 0 {
                            assert(rest[j - 1] == list[j]);
                        }
                    }
                },
                None => {
                    assert forall|i: int| 0 <= i < list.len() implies (#[trigger] list[i]).address.contains('/') ==> known(
                        target,
                        dir,
                        list[i].address,
                    ) by {
                        if i > 0 {
                            assert(rest[i - 1] == list[i]);
                        }
                    }
                },
            }
        }
    }
}

/// What may be written with metadata that is signed: a body that has its hash, a
/// directory where there is neither body nor hash, and, where only the metadata is to
/// be written, what goes with the body that is there. Nothing else may.
#[verifier::rlimit(40)]
pub proof fn content_matches_its_metadata(
    public: Tagged,
    m: MetadataV,
    existing: Result<MetadataV, ErrorV>,
    body: Seq<u8>,
    metadata_only: bool,
)
    ensures
        ({
            let checked = content_checked(public, m, existing, body, metadata_only);
            let is_signed = signature_verified(public, m) is Ok;
            &&& checked == Ok::<Content, ErrorV>(Content::Kept) <==> metadata_only && is_signed && existing is Ok
                && existing->Ok_0.body_hash == m.body_hash
            &&& checked == Ok::<Content, ErrorV>(Content::Dir) <==> !metadata_only && is_signed && m.body_hash is None
                && body.len() == 0
            &&& checked == Ok::<Content, ErrorV>(Content::Body) <==> !metadata_only && is_signed && m.body_hash is Some
                && m.body_hash->0.value == sha256_of(body)
        }),
{
}

/// The members of a file are its own where it has metadata, and otherwise those of the
/// nearest directory that has; there are none where none has.
pub proof fn only_metadata_gives_members(disk: DiskV)
    ensures
        disk.metadata() matches Ok(m) ==> disk.granted() == Some(m.members),
        disk.metadata() is Err && (forall|i: int|
            0 <= i < disk.above.len() ==> (#[trigger] disk.above[i] is Err || metadata_of_attributes(
                disk.above[i]->Ok_0,
            ) is Err)) ==> disk.granted() is None,
        disk.attributes matches Ok(list) ==> disk.metadata() == metadata_of_attributes(list),
        disk.attributes is Err ==> disk.metadata() is Err,
{
    if forall|i: int|
        0 <= i < disk.above.len() ==> (#[trigger] disk.above[i] is Err || metadata_of_attributes(disk.above[i]->Ok_0)
            is Err) {
        lemma_none_above(disk.above);
    }
}

proof fn lemma_none_above(above: Seq<Result<Seq<(Seq<char>, Seq<u8>)>, ErrorV>>)
    requires
        forall|i: int|
            0 <= i < above.len() ==> (#[trigger] above[i] is Err || metadata_of_attributes(above[i]->Ok_0) is Err),
    ensures
        nearest_members(above) is None,
    decreases above.len(),
{
    if above.len() > 0 {
        let rest = above.skip(1);
        assert forall|i: int| 0 <= i < rest.len() implies (#[trigger] rest[i] is Err || metadata_of_attributes(
            rest[i]->Ok_0,
        ) is Err) by {
            assert(rest[i] == above[i + 1]);
        }
        assert(above[0] is Err || metadata_of_attributes(above[0]->Ok_0) is Err);
        lemma_none_above(rest);
    }
}

/// What is not there is turned down, and so is a file without metadata. Of any other file
/// the same headers are given whether its body is asked for or not.
pub proof fn files_are_given(disk: DiskV, file: Seq<char>, prefix: Option<Seq<char>>, send: bool)
    ensures
        disk.node is Missing ==> turned_down(got(disk, file, prefix, send), 404),
        disk.node is File && disk.metadata() is Err ==> turned_down(got(disk, file, prefix, send), 500),
        disk.node is File && disk.metadata() is Ok ==> (got(disk, file, prefix, send) matches ActionV::File {
            head,
            send: sent,
        } && sent == send && head == got(disk, file, prefix, !send)->head),
        disk.node matches NodeV::Dir { entries: Err(error) } ==> got(disk, file, prefix, send) == (ActionV::Fail { error }),
{
    if disk.node is Missing {
        assert(got(disk, file, prefix, send) == answer(404, "not found"@));
    }
    if disk.node is File && disk.metadata() is Err {
        assert(got(disk, file, prefix, send) == answer(500, crate::error::message_of(disk.metadata()->Err_0)));
    }
}

/// Asking for the headers alone of a directory gives what asking for it does, without
/// the listing.
#[verifier::spinoff_prover]
#[verifier::rlimit(60)]
pub proof fn headers_come_without_the_listing(
    disk: DiskV,
    file: Seq<char>,
    prefix: Option<Seq<char>>,
    list: Seq<EntryV>,
)
    requires
        disk.node == (NodeV::Dir { entries: Ok(list) }),
    ensures
        got(disk, file, prefix, true) is Answer,
        got(disk, file, prefix, false) is Answer,
        got(disk, file, prefix, true)->bytes == got(disk, file, prefix, false)->bytes + encode_utf8(
            listing(entries_with(list, prefix), Layout::Account),
        ),
{
    let body = encode_utf8(listing(entries_with(list, prefix), Layout::Account));
    let headers = dir_headers(disk.metadata(), body.len());
    let front = headers.len() - 3;
    assert(headers[front + 1] == listing_headers(body.len())[1]);
    assert(has_header(headers, "Content-Length"@));
    assert(final_headers(headers, body.len()) == final_headers(headers, 0));
    assert(response_bytes(200, headers, body) =~= response_bytes(200, headers, Seq::empty()) + body);
}

/// A file is given with its metadata, its content type and its size; a directory with its
/// metadata, where it has any, and the length of its listing.
pub proof fn answers_describe_what_they_give(m: MetadataV, file: Seq<char>, size: nat, without: ErrorV)
    ensures
        header_fields(m).is_prefix_of(file_headers(m, file, size)),
        file_headers(m, file, size).contains(("Content-Type"@, type_of(file_name(file)))),
        file_headers(m, file, size).contains(("Content-Length"@, decimal(size))),
        header_fields(m).is_prefix_of(dir_headers(Ok(m), size)),
        dir_headers(Ok(m), size).contains(("Content-Length"@, decimal(size))),
        dir_headers(Ok(m), size).contains(("Content-Type"@, "application/json"@)),
        dir_headers(Err(without), size) == listing_headers(size),
{
    let n = header_fields(m).len() as int;
    let f = file_headers(m, file, size);
    let d = dir_headers(Ok(m), size);
    assert(f.subrange(0, n) =~= header_fields(m));
    assert(f[n] == ("Content-Type"@, type_of(file_name(file))));
    assert(f[n + 1] == ("Content-Length"@, decimal(size)));
    assert(d.subrange(0, n) =~= header_fields(m));
    assert(d[n] == listing_headers(size)[0]);
    assert(d[n + 1] == listing_headers(size)[1]);
    assert(dir_headers(Err(without), size) =~= listing_headers(size));
}

} // verus!
