//! What holds of who may do what, whoever asks and whoever is a member.

use vstd::prelude::*;
use vstd::utf8::encode_utf8;

use crate::auth::{
    authorized, claim_in, group_permission, header_value, in_window, last_value, permission_for, permission_of,
    requestor, signing_bytes, CallV,
};
use crate::base64url::decoded;
use crate::crypto::verified;
use crate::error::{ErrorV, Fault};
use crate::membership::{identity_at, looked_up};
use crate::metadata::member_at;
use crate::number::{decimal, is_digit, lemma_decimal, parsed};
use crate::permissions::{place, role};
use crate::text::{lemma_first, lower};
use crate::types::{IdentityV, MemberV, Permission, Tagged};
use crate::wire::{encode_concat, lemma_no_line_feed};

verus! {

/// How much a permission allows: to read, to write as well, and to say who may.
pub open spec fn level(p: Permission) -> int {
    match p {
        Permission::Reader => 1,
        Permission::Writer => 2,
        Permission::Owner => 3,
    }
}

// What is looked up.

/// The member at an address is the first in the list that has it, and none is found
/// just where no member has it.
pub proof fn first_member_is_found(members: Seq<MemberV>, address: Seq<char>, i: int)
    requires
        0 <= i < members.len(),
        members[i].address == address,
        forall|j: int| 0 <= j < i ==> (#[trigger] members[j]).address != address,
    ensures
        member_at(members, address) == Some(members[i]),
        place(members, address) == i,
        role(members, address) == Some(members[i].permission),
    decreases members.len(),
{
    if i > 0 {
        let rest = members.skip(1);
        assert(members[0].address != address);
        assert forall|j: int| 0 <= j < i - 1 implies (#[trigger] rest[j]).address != address by {
            assert(rest[j] == members[j + 1]);
        }
        assert(rest[i - 1] == members[i]);
        first_member_is_found(rest, address, i - 1);
    }
}

/// No member is found at an address that none has.
pub proof fn strangers_are_not_found(members: Seq<MemberV>, address: Seq<char>)
    requires
        forall|j: int| 0 <= j < members.len() ==> (#[trigger] members[j]).address != address,
    ensures
        member_at(members, address) is None,
        place(members, address) == members.len(),
        role(members, address) is None,
    decreases members.len(),
{
    if members.len() > 0 {
        let rest = members.skip(1);
        assert(members[0].address != address);
        assert forall|j: int| 0 <= j < rest.len() implies (#[trigger] rest[j]).address != address by {
            assert(rest[j] == members[j + 1]);
        }
        strangers_are_not_found(rest, address);
    }
}

/// A lookup gives what the first entry for the address says.
pub proof fn first_lookup_counts(
    own: IdentityV,
    dir: Seq<(Seq<char>, Result<IdentityV, ErrorV>)>,
    address: Seq<char>,
    i: int,
)
    requires
        0 <= i < dir.len(),
        dir[i].0 == address,
        forall|j: int| 0 <= j < i ==> (#[trigger] dir[j]).0 != address,
    ensures
        looked_up(dir, address) == dir[i].1,
        identity_at(own, dir, address) == (if address == own.address {
            Ok(own)
        } else {
            dir[i].1
        }),
    decreases dir.len(),
{
    if i > 0 {
        let rest = dir.skip(1);
        assert(dir[0].0 != address);
        assert forall|j: int| 0 <= j < i - 1 implies (#[trigger] rest[j]).0 != address by {
            assert(rest[j] == dir[j + 1]);
        }
        assert(rest[i - 1] == dir[i]);
        first_lookup_counts(own, rest, address, i - 1);
    }
}

/// An address for which there is no entry is not known, unless it is the account's.
pub proof fn missing_lookups_fail(
    own: IdentityV,
    dir: Seq<(Seq<char>, Result<IdentityV, ErrorV>)>,
    address: Seq<char>,
)
    requires
        forall|j: int| 0 <= j < dir.len() ==> (#[trigger] dir[j]).0 != address,
    ensures
        looked_up(dir, address) matches Err(e) && e.fault == Fault::UnknownIdentity,
        identity_at(own, dir, address) is Ok <==> address == own.address,
        address == own.address ==> identity_at(own, dir, address) == Ok::<IdentityV, ErrorV>(own),
    decreases dir.len(),
{
    if dir.len() > 0 {
        let rest = dir.skip(1);
        assert(dir[0].0 != address);
        assert forall|j: int| 0 <= j < rest.len() implies (#[trigger] rest[j]).0 != address by {
            assert(rest[j] == dir[j + 1]);
        }
        missing_lookups_fail(own, rest, address);
    }
}

/// The value of a header is that of the first one with the name, whatever its case.
pub proof fn first_header_counts(headers: Seq<(Seq<char>, Seq<char>)>, name: Seq<char>, i: int)
    requires
        0 <= i <= headers.len(),
        forall|j: int| 0 <= j < i ==> lower((#[trigger] headers[j]).0) != lower(name),
        i < headers.len() ==> lower(headers[i].0) == lower(name),
    ensures
        header_value(headers, name) == (if i < headers.len() {
            Some(headers[i].1)
        } else {
            None
        }),
    decreases headers.len(),
{
    if i > 0 {
        let rest = headers.skip(1);
        assert(lower(headers[0].0) != lower(name));
        assert forall|j: int| 0 <= j < i - 1 implies lower((#[trigger] rest[j]).0) != lower(name) by {
            assert(rest[j] == headers[j + 1]);
        }
        if i < headers.len() {
            assert(rest[i - 1] == headers[i]);
        }
        first_header_counts(rest, name, i - 1);
    }
}

/// The value of a parameter is that of the last one with the name.
pub proof fn last_parameter_counts(list: Seq<(Seq<char>, Seq<char>)>, name: Seq<char>, i: int)
    requires
        -1 <= i < list.len(),
        forall|j: int| i < j < list.len() ==> (#[trigger] list[j]).0 != name,
        i >= 0 ==> list[i].0 == name,
    ensures
        last_value(list, name) == (if i >= 0 {
            Some(list[i].1)
        } else {
            None
        }),
    decreases list.len(),
{
    if i < list.len() - 1 {
        let rest = list.drop_last();
        assert(list[list.len() - 1].0 != name);
        assert forall|j: int| i < j < rest.len() implies (#[trigger] rest[j]).0 != name by {
            assert(rest[j] == list[j]);
        }
        last_parameter_counts(rest, name, i);
    }
}

// What is allowed.

/// Whether a member stands for an account: it is the account itself or everyone, and
/// the first such member; or it is a group, which stands at a path and lists the
/// account.
pub open spec fn stands_for(
    target: IdentityV,
    dir: Seq<(Seq<char>, Result<IdentityV, ErrorV>)>,
    list: Seq<MemberV>,
    i: int,
    account: Seq<char>,
) -> bool {
    let address = list[i].address;
    ||| (address == account || address == "*"@) && forall|j: int| 0 <= j < i ==> (#[trigger] list[j]).address != address
    ||| is_listed(target, dir, address, account)
}

/// Whether a group, which stands at a path, lists an account.
pub open spec fn is_listed(
    target: IdentityV,
    dir: Seq<(Seq<char>, Result<IdentityV, ErrorV>)>,
    group: Seq<char>,
    account: Seq<char>,
) -> bool {
    group.contains('/') && (match identity_at(target, dir, group) {
        Ok(identity) => match identity.members {
            Some(names) => names.contains(account),
            None => false,
        },
        Err(_) => false,
    })
}

proof fn lemma_slash(s: Seq<char>)
    ensures
        crate::auth::names_group(s) == s.contains('/'),
{
    lemma_first(s, '/');
    if s.contains('/') {
        let k = choose|k: int| 0 <= k < s.len() && s[k] == '/';
        assert(crate::text::first(s, '/') <= k);
    }
}

#[verifier::rlimit(40)]
proof fn lemma_groups(
    target: IdentityV,
    dir: Seq<(Seq<char>, Result<IdentityV, ErrorV>)>,
    account: Seq<char>,
    list: Seq<MemberV>,
)
    ensures
        group_permission(target, dir, account, list) matches Some(p) ==> exists|i: int|
            0 <= i < list.len() && is_listed(target, dir, (#[trigger] list[i]).address, account) && list[i].permission == p,
        forall|i: int|
            0 <= i < list.len() && is_listed(target, dir, (#[trigger] list[i]).address, account) ==> (group_permission(
                target,
                dir,
                account,
                list,
            ) is Some && level(group_permission(target, dir, account, list)->0) >= level(list[i].permission)),
    decreases list.len(),
{
    if list.len() > 0 {
        let rest = list.drop_last();
        let n = list.len() - 1;
        lemma_groups(target, dir, account, rest);
        lemma_slash(list.last().address);
        assert(list[n] == list.last());
        if let Some(p) = group_permission(target, dir, account, list) {
            if is_listed(target, dir, list[n].address, account) && list[n].permission == p {
            } else {
                assert(group_permission(target, dir, account, rest) == Some(p));
                let i = choose|i: int|
                    0 <= i < rest.len() && is_listed(target, dir, (#[trigger] rest[i]).address, account)
                        && rest[i].permission == p;
                assert(list[i] == rest[i]);
            }
        }
        assert forall|i: int|
            0 <= i < list.len() && is_listed(target, dir, (#[trigger] list[i]).address, account) implies (
        group_permission(target, dir, account, list) is Some && level(group_permission(target, dir, account, list)->0)
            >= level(list[i].permission)) by {
            if i < n {
                assert(rest[i] == list[i]);
            }
        }
    }
}

#[verifier::rlimit(40)]
proof fn lemma_found(list: Seq<MemberV>, address: Seq<char>)
    ensures
        member_at(list, address) matches Some(m) ==> exists|i: int|
            0 <= i < list.len() && (#[trigger] list[i]) == m && m.address == address && forall|j: int|
                0 <= j < i ==> (#[trigger] list[j]).address != address,
    decreases list.len(),
{
    if let Some(m) = member_at(list, address) {
        if list[0].address == address {
            assert(list[0] == m);
        } else {
            let rest = list.skip(1);
            lemma_found(rest, address);
            let i = choose|i: int|
                0 <= i < rest.len() && (#[trigger] rest[i]) == m && m.address == address && forall|j: int|
                    0 <= j < i ==> (#[trigger] rest[j]).address != address;
            assert(list[i + 1] == m);
            assert forall|j: int| 0 <= j < i + 1 implies (#[trigger] list[j]).address != address by {
                if j > 0 {
                    assert(rest[j - 1] == list[j]);
                }
            }
        }
    }
}

/// An account may do the most of what the members that stand for it may: as much as
/// each of them, as one of them, and nothing where none does.
#[verifier::spinoff_prover]
#[verifier::rlimit(60)]
pub proof fn members_may_what_they_are_given(
    target: IdentityV,
    dir: Seq<(Seq<char>, Result<IdentityV, ErrorV>)>,
    account: Seq<char>,
    list: Seq<MemberV>,
)
    requires
        account != target.address,
    ensures
        permission_for(target, dir, account, Some(list)) matches Ok(p) ==> exists|i: int|
            0 <= i < list.len() && #[trigger] stands_for(target, dir, list, i, account) && list[i].permission == p,
        forall|i: int|
            0 <= i < list.len() && #[trigger] stands_for(target, dir, list, i, account) ==> (permission_for(
                target,
                dir,
                account,
                Some(list),
            ) is Ok && level(permission_for(target, dir, account, Some(list))->Ok_0) >= level(list[i].permission)),
        permission_for(target, dir, account, Some(list)) matches Err(e) ==> e.fault == Fault::NotMember,
{
    lemma_groups(target, dir, account, list);
    lemma_found(list, account);
    lemma_found(list, "*"@);
    let own = permission_of(member_at(list, account));
    let all = permission_of(member_at(list, "*"@));
    let group = group_permission(target, dir, account, list);
    let r = permission_for(target, dir, account, Some(list));
    if let Ok(p) = r {
        if group == Some(p) {
            let i = choose|i: int|
                0 <= i < list.len() && is_listed(target, dir, (#[trigger] list[i]).address, account)
                    && list[i].permission == p;
            assert(stands_for(target, dir, list, i, account));
        } else {
            assert(own == Some(p) || all == Some(p));
            let address = if own == Some(p) {
                account
            } else {
                "*"@
            };
            let m = member_at(list, address)->0;
            let i = choose|i: int|
                0 <= i < list.len() && (#[trigger] list[i]) == m && m.address == address && forall|j: int|
                    0 <= j < i ==> (#[trigger] list[j]).address != address;
            assert(stands_for(target, dir, list, i, account));
        }
    }
    assert forall|i: int|
        0 <= i < list.len() && #[trigger] stands_for(target, dir, list, i, account) implies (r is Ok && level(
        r->Ok_0,
    ) >= level(list[i].permission)) by {
        if !is_listed(target, dir, list[i].address, account) {
            first_member_is_found(list, list[i].address, i);
        }
    }
}

/// Apart from groups, an account may do what its own membership allows, or what that of
/// everyone does, whichever is more, and everything in its own account.
#[verifier::rlimit(40)]
pub proof fn membership_is_what_counts(target: Seq<char>, account: Seq<char>, list: Seq<MemberV>)
    ensures
        authorized(target, target, Some(list)) == Ok::<Permission, ErrorV>(Permission::Owner),
        authorized(target, target, None) == Ok::<Permission, ErrorV>(Permission::Owner),
        account != target ==> authorized(target, account, None) is Err,
        member_at(list, account) matches Some(m) ==> (authorized(target, account, Some(list)) is Ok && level(
            authorized(target, account, Some(list))->Ok_0,
        ) >= level(m.permission)),
        member_at(list, "*"@) matches Some(m) ==> (authorized(target, account, Some(list)) is Ok && level(
            authorized(target, account, Some(list))->Ok_0,
        ) >= level(m.permission)),
        account != target ==> (authorized(target, account, Some(list)) matches Ok(p) ==> Some(p) == permission_of(
            member_at(list, account),
        ) || Some(p) == permission_of(member_at(list, "*"@))),
        forall|m: MemberV| #[trigger] permission_of(Some(m)) == Some(m.permission),
        permission_of(None) is None,
{
}

// Who is asking.

/// A request is taken for that of an account only where the first `Authorization`
/// header names the account, was made within five minutes and holds a signature over
/// the request that is valid under the account's public key.
pub proof fn accepted_requests_are_signed(
    own: IdentityV,
    dir: Seq<(Seq<char>, Result<IdentityV, ErrorV>)>,
    headers: Seq<(Seq<char>, Seq<char>)>,
    now: nat,
    call: CallV,
)
    ensures
        requestor(own, dir, headers, now, call) matches Ok(who) ==> {
            &&& header_value(headers, "authorization"@) matches Some(value)
            &&& claim_in(value) matches Ok(claim)
            &&& identity_at(own, dir, claim.address) == Ok::<IdentityV, ErrorV>(who)
            &&& decoded(claim.signature) matches Some(signature)
            &&& parsed(claim.timestamp, u64::MAX as nat) matches Some(time)
            &&& time <= now + 300
            &&& now <= time + 300
            &&& verified(
                who.public_key,
                Tagged { algorithm: "ed25519"@, value: signature },
                signing_bytes(call, time),
            ) is Ok
        },
        header_value(headers, "authorization"@) is None ==> (requestor(own, dir, headers, now, call) matches Err(e)
            && e.fault == Fault::MissingAuthorization),
{
}

/// Whether a text stands on one line.
pub open spec fn on_one_line(s: Seq<char>) -> bool {
    forall|i: int| 0 <= i < s.len() ==> #[trigger] s[i] != '\n'
}

#[verifier::rlimit(40)]
proof fn lemma_lines(a: Seq<char>, b: Seq<char>, r: Seq<u8>, q: Seq<u8>)
    requires
        on_one_line(a),
        on_one_line(b),
        encode_utf8(a) + seq![10u8] + r == encode_utf8(b) + seq![10u8] + q,
    ensures
        a == b,
        r == q,
{
    broadcast use vstd::utf8::encode_utf8_decode_utf8;

    let x = encode_utf8(a);
    let y = encode_utf8(b);
    let w = x + seq![10u8] + r;
    let v = y + seq![10u8] + q;
    lemma_no_line_feed(a);
    lemma_no_line_feed(b);
    assert(w[x.len() as int] == 10);
    assert(v[y.len() as int] == 10);
    if x.len() < y.len() {
        assert(v[x.len() as int] == y[x.len() as int]);
    }
    if y.len() < x.len() {
        assert(w[y.len() as int] == x[y.len() as int]);
    }
    assert(x =~= w.take(x.len() as int));
    assert(y =~= v.take(x.len() as int));
    assert(r =~= w.skip(x.len() as int + 1));
    assert(q =~= v.skip(x.len() as int + 1));
    assert(vstd::utf8::decode_utf8(x) == vstd::utf8::decode_utf8(y));
}

proof fn lemma_feed()
    ensures
        encode_utf8("\n"@) == seq![10u8],
{
    reveal_strlit("\n");
    assert("\n"@ =~= seq!['\n']);
    assert("\n"@.drop_first() =~= Seq::<char>::empty());
    assert(encode_utf8("\n"@.drop_first()) =~= Seq::<u8>::empty());
    assert(10u32 & 0x7F == 10u32) by (bit_vector);
    assert(encode_utf8("\n"@) =~= seq![10u8]);
}

#[verifier::rlimit(40)]
proof fn lemma_signing_bytes(call: CallV, timestamp: nat)
    ensures
        signing_bytes(call, timestamp) == encode_utf8(call.method) + seq![10u8] + (encode_utf8(call.host) + seq![10u8] + (
        encode_utf8(call.path) + seq![10u8] + (encode_utf8(decimal(timestamp)) + seq![10u8] + call.body))),
{
    let m = call.method;
    let h = call.host;
    let p = call.path;
    let d = decimal(timestamp);
    let n = "\n"@;
    lemma_feed();
    encode_concat(m, n);
    encode_concat(m + n, h);
    encode_concat(m + n + h, n);
    encode_concat(m + n + h + n, p);
    encode_concat(m + n + h + n + p, n);
    encode_concat(m + n + h + n + p + n, d);
    encode_concat(m + n + h + n + p + n + d, n);
    assert(signing_bytes(call, timestamp) =~= encode_utf8(m) + seq![10u8] + (encode_utf8(h) + seq![10u8] + (encode_utf8(p)
        + seq![10u8] + (encode_utf8(d) + seq![10u8] + call.body))));
}

/// What is signed for a request is signed for that one alone: another method, host, path,
/// time or body gives other bytes.
#[verifier::rlimit(40)]
pub proof fn signatures_are_of_one_request(a: CallV, b: CallV, s: nat, t: nat)
    requires
        on_one_line(a.method),
        on_one_line(a.host),
        on_one_line(a.path),
        on_one_line(b.method),
        on_one_line(b.host),
        on_one_line(b.path),
        signing_bytes(a, s) == signing_bytes(b, t),
    ensures
        a == b,
        s == t,
{
    lemma_signing_bytes(a, s);
    lemma_signing_bytes(b, t);
    lemma_decimal(s);
    lemma_decimal(t);
    let x3 = encode_utf8(decimal(s)) + seq![10u8] + a.body;
    let y3 = encode_utf8(decimal(t)) + seq![10u8] + b.body;
    let x2 = encode_utf8(a.path) + seq![10u8] + x3;
    let y2 = encode_utf8(b.path) + seq![10u8] + y3;
    let x1 = encode_utf8(a.host) + seq![10u8] + x2;
    let y1 = encode_utf8(b.host) + seq![10u8] + y2;
    lemma_lines(a.method, b.method, x1, y1);
    lemma_lines(a.host, b.host, x2, y2);
    lemma_lines(a.path, b.path, x3, y3);
    assert forall|i: int| 0 <= i < decimal(s).len() implies #[trigger] decimal(s)[i] != '\n' by {
        assert(is_digit(decimal(s)[i]));
    }
    assert forall|i: int| 0 <= i < decimal(t).len() implies #[trigger] decimal(t)[i] != '\n' by {
        assert(is_digit(decimal(t)[i]));
    }
    lemma_lines(decimal(s), decimal(t), a.body, b.body);
}

/// A request counts for five minutes before and after it is made.
pub proof fn requests_count_for_five_minutes(now: nat, timestamp: nat)
    ensures
        in_window(now, timestamp) <==> timestamp <= now + 300 && now <= timestamp + 300,
{
}

} // verus!
