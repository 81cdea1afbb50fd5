//! What holds of the plain file server, of identities, and of the fields that carry
//! metadata.

use vstd::prelude::*;
use vstd::utf8::encode_utf8;

use crate::base64url::decoded;
use crate::error::{kind_of, lead, message_of, tail, ErrorV, Fault, Kind};
use crate::fields::{
    carries_metadata, fields_read, flag_named, local_set, metadata_key, metadata_of, names_under, underscored,
};
use crate::file_server::{
    allowed, body_behind, chosen, fetched, last_length, resolved, status_bytes, target_decoded, unescaped, PlanV,
    SentV,
};
use crate::identity::{account_name, address_in, address_parts, identity_of, identity_valid, key_in};
use crate::json::identity_json;
use crate::crypto::{json_signed, json_verified, public_key};
use crate::listing::{kind_name, listing, DirectoryEntryKind, Layout};
use crate::number::{decimal, parsed};
use crate::paths::{file_name, joined_names, nonempty, segments};
use crate::primitives::{hex_value, is_hex, url_parts, UrlPartsV};
use crate::server::NodeV;
use crate::text::{before, lower, split, trim_front, Trim};
use crate::types::{no_signature, permission_name, IdentityV, LocalV, MetadataV, Permission, Tagged};
use crate::watch::{action_name, EntryAction};

verus! {

// The plain file server.

/// Whether a request is answered with a status and a text in place of a file.
pub open spec fn told_off(plan: PlanV, status: u16) -> bool {
    exists|text: Seq<char>| plan == (PlanV::Answer { bytes: #[trigger] status_bytes(status, text) })
}

/// What is done about a request: nothing outside `/ark/`, and of an account itself it is
/// only read; a target that cannot be decoded or climbs is refused; otherwise the method
/// says what happens to the file.
#[verifier::rlimit(40)]
pub proof fn methods_say_what_is_done(method: Seq<char>, target: Seq<char>, body: Seq<u8>)
    ensures
        ({
            let names = segments(before(target, '?'));
            let inside = names.len() >= 2 && names[0] == "ark"@;
            let reading = method == "GET"@ || method == "HEAD"@;
            let plan = chosen(method, target, body);
            let open = inside && (names.len() > 2 || reading);
            &&& !inside ==> told_off(plan, 403)
            &&& inside && !open ==> told_off(plan, 405)
            &&& open && resolved(target) is None ==> told_off(plan, 400)
            &&& open && method == "GET"@ ==> (resolved(target) matches Some(file) ==> plan == (PlanV::Get {
                file,
                send: true,
            }))
            &&& open && method == "HEAD"@ ==> (resolved(target) matches Some(file) ==> plan == (PlanV::Get {
                file,
                send: false,
            }))
            &&& open && method == "PUT"@ ==> (resolved(target) matches Some(file) ==> plan == (PlanV::Put { file, body }))
            &&& open && method == "DELETE"@ ==> (resolved(target) matches Some(file) ==> plan == (PlanV::Delete { file }))
            &&& open && resolved(target) is Some && !reading && method != "PUT"@ && method != "DELETE"@ ==> told_off(
                plan,
                405,
            )
        }),
{
    reveal_strlit("GET");
    reveal_strlit("HEAD");
    reveal_strlit("PUT");
    reveal_strlit("DELETE");
    assert("GET"@[0] != "HEAD"@[0] && "GET"@[0] != "PUT"@[0] && "GET"@[0] != "DELETE"@[0] && "HEAD"@[0] != "PUT"@[0]
        && "HEAD"@[0] != "DELETE"@[0] && "PUT"@[0] != "DELETE"@[0]);
    let plan = chosen(method, target, body);
    if let PlanV::Answer { bytes } = plan {
        assert(bytes == status_bytes(403, "forbidden"@) || bytes == status_bytes(405, "method not allowed"@) || bytes
            == status_bytes(400, "bad path"@));
    }
    assert(told_off(PlanV::Answer { bytes: status_bytes(403, "forbidden"@) }, 403));
    assert(told_off(PlanV::Answer { bytes: status_bytes(405, "method not allowed"@) }, 405));
    assert(told_off(PlanV::Answer { bytes: status_bytes(400, "bad path"@) }, 400));
}

/// The file that a target names is its path, decoded and without slashes in front,
/// unless one of its names is `..`.
#[verifier::rlimit(40)]
pub proof fn targets_name_files(target: Seq<char>)
    ensures
        match target_decoded(before(target, '?')) {
            None => resolved(target) is None,
            Some(path) => {
                let file = trim_front(path, Trim::Slash);
                if split(file, '/').contains(".."@) {
                    resolved(target) is None
                } else {
                    resolved(target) == Some(file)
                }
            },
        },
{
}

/// Bytes without a percent or a plus sign stand for themselves; a plus sign stands for a
/// space, and a percent sign with two hexadecimal digits for the byte of that number.
pub proof fn escapes_stand_for_bytes(a: Seq<u8>, h: u8, l: u8, rest: Seq<u8>)
    ensures
        (forall|i: int| 0 <= i < a.len() ==> #[trigger] a[i] != 37 && a[i] != 43) ==> unescaped(a) == Some(a),
        is_hex(h) && is_hex(l) ==> (match unescaped(rest) {
            Some(more) => unescaped(seq![37u8, h, l] + rest) == Some(
                seq![(hex_value(h) * 16 + hex_value(l)) as u8] + more,
            ),
            None => unescaped(seq![37u8, h, l] + rest) is None,
        }),
        !(is_hex(h) && is_hex(l)) ==> unescaped(seq![37u8, h, l] + rest) is None,
        match unescaped(rest) {
            Some(more) => unescaped(seq![43u8] + rest) == Some(seq![32u8] + more),
            None => unescaped(seq![43u8] + rest) is None,
        },
    decreases a.len(),
{
    assert((seq![37u8, h, l] + rest).skip(3) =~= rest);
    assert((seq![43u8] + rest).skip(1) =~= rest);
    if a.len() > 0 && (forall|i: int| 0 <= i < a.len() ==> #[trigger] a[i] != 37 && a[i] != 43) {
        let tail = a.skip(1);
        assert forall|i: int| 0 <= i < tail.len() implies #[trigger] tail[i] != 37 && tail[i] != 43 by {
            assert(tail[i] == a[i + 1]);
        }
        escapes_stand_for_bytes(tail, h, l, rest);
        assert(a[0] != 37 && a[0] != 43);
        assert(seq![a[0]] + tail =~= a);
    } else if a.len() == 0 {
        assert(a =~= Seq::empty());
    }
}

/// The length of a body is what the last header of that name says.
pub proof fn last_length_counts(headers: Seq<(Seq<char>, Seq<char>)>, i: int)
    requires
        -1 <= i < headers.len(),
        forall|j: int| i < j < headers.len() ==> lower((#[trigger] headers[j]).0) != lower("content-length"@),
        i >= 0 ==> lower(headers[i].0) == lower("content-length"@),
    ensures
        i < 0 ==> last_length(headers) == 0,
        i >= 0 ==> last_length(headers) == (match parsed(headers[i].1, usize::MAX as nat) {
            Some(n) => n,
            None => 0,
        }),
    decreases headers.len(),
{
    if i < headers.len() - 1 {
        let front = headers.drop_last();
        assert(lower(headers[headers.len() - 1].0) != lower("content-length"@));
        assert forall|j: int| i < j < front.len() implies lower((#[trigger] front[j]).0) != lower("content-length"@) by {
            assert(front[j] == headers[j]);
        }
        last_length_counts(front, i);
    }
}

/// The body is as many bytes as were announced, as far as they came.
pub proof fn bodies_end_where_announced(rest: Seq<u8>, length: nat)
    ensures
        body_behind(rest, length).is_prefix_of(rest),
        body_behind(rest, length).len() == (if length < rest.len() {
            length
        } else {
            rest.len()
        }),
{
    assert(rest.subrange(0, rest.len() as int) =~= rest);
    if length < rest.len() {
        assert(rest.subrange(0, length as int) =~= rest.take(length as int));
    }
}

/// What is sent: the listing of a directory, all of it; of a file its bytes where they
/// are asked for; and `404` where there is nothing.
pub proof fn what_is_there_is_sent(node: NodeV, file: Seq<char>, send: bool)
    ensures
        node is Missing ==> fetched(node, file, send) == (SentV::Answer { bytes: status_bytes(404, "not found"@) }),
        node is File ==> (fetched(node, file, send) matches SentV::File { head, send: sent } && sent == send && head
            == fetched(node, file, !send)->head),
        node matches NodeV::Dir { entries: Ok(list) } ==> fetched(node, file, true)->Answer_bytes == fetched(
            node,
            file,
            false,
        )->Answer_bytes + encode_utf8(listing(list, Layout::Plain)),
        node matches NodeV::Dir { entries: Err(error) } ==> fetched(node, file, send) == (SentV::Fail { error }),
{
}

/// The names along a path are its parts between slashes that are not empty, and each of
/// them once; the last is the name of the file.
pub proof fn names_lie_between_slashes(path: Seq<char>)
    ensures
        segments(path) == split(path, '/').filter(|s: Seq<char>| s.len() > 0),
        segments(path).len() > 0 ==> file_name(path) == segments(path).last(),
        segments(path).len() == 0 ==> file_name(path).len() == 0,
{
    lemma_nonempty(split(path, '/'));
}

proof fn lemma_nonempty(list: Seq<Seq<char>>)
    ensures
        nonempty(list) == list.filter(|s: Seq<char>| s.len() > 0),
    decreases list.len(),
{
    reveal(Seq::filter);
    if list.len() > 0 {
        lemma_nonempty(list.drop_last());
    }
}

/// Names are joined with a slash between two of them.
pub proof fn names_are_joined_by_slashes(a: Seq<Seq<char>>, b: Seq<Seq<char>>)
    ensures
        joined_names(Seq::empty()) == Seq::<char>::empty(),
        forall|s: Seq<char>| #[trigger] joined_names(seq![s]) == s,
        a.len() > 0 && b.len() > 0 ==> joined_names(a + b) == joined_names(a) + "/"@ + joined_names(b),
    decreases b.len(),
{
    if a.len() > 0 && b.len() > 0 {
        let whole = a + b;
        assert(whole.last() == b.last());
        if b.len() == 1 {
            assert(whole.drop_last() =~= a);
        } else {
            assert(whole.drop_last() =~= a + b.drop_last());
            names_are_joined_by_slashes(a, b.drop_last());
            assert(joined_names(whole) =~= joined_names(a) + "/"@ + joined_names(b));
        }
    }
}

// Identities.

/// An account name is 1 to 64 of the letters `a` to `z`, digits, dots, hyphens and
/// underscores, not all of them dots.
#[verifier::rlimit(40)]
pub proof fn account_names_are_short_and_plain(name: Seq<char>)
    ensures
        account_name(name) <==> 1 <= name.len() <= 64 && (forall|i: int|
            0 <= i < name.len() ==> ('a' <= #[trigger] name[i] && name[i] <= 'z') || ('0' <= name[i] && name[i] <= '9')
                || name[i] == '.' || name[i] == '-' || name[i] == '_') && !(forall|i: int|
            0 <= i < name.len() ==> #[trigger] name[i] == '.'),
{
}

/// An identity can be used just where its address has an account name and it is signed
/// with its own key.
pub proof fn usable_identities_are_signed(i: IdentityV)
    ensures
        identity_valid(i) is Ok <==> (match address_parts(i.address) {
            Ok(parts) => account_name(parts.0),
            Err(_) => false,
        }) && json_verified(
            i.public_key,
            i.signature,
            identity_json(
                IdentityV { signature: no_signature(), public_key: i.public_key, address: i.address, members: i.members },
            ),
        ) is Ok,
{
}

/// The identity of a secret key has its public key, the address and the members, and is
/// signed with it.
#[verifier::rlimit(40)]
pub proof fn identities_are_made_for_their_key(
    secret: Tagged,
    address: Seq<char>,
    members: Option<Seq<Seq<char>>>,
)
    ensures
        identity_of(secret, address, members) matches Ok(i) ==> public_key(secret) == Ok::<Tagged, ErrorV>(i.public_key)
            && i.address == address && i.members == members && json_signed(
            secret,
            identity_json(
                IdentityV { signature: no_signature(), public_key: i.public_key, address, members },
            ),
        ) == Ok::<Tagged, ErrorV>(i.signature),
        identity_of(secret, address, members) is Err ==> (match public_key(secret) {
            Ok(public) => json_signed(
                secret,
                identity_json(IdentityV { signature: no_signature(), public_key: public, address, members }),
            ) is Err,
            Err(_) => true,
        }),
{
}

/// An address is a name at a host, with its port where one is given, and a path unless
/// that is only a slash.
pub proof fn addresses_are_taken_apart(u: UrlPartsV, usual: Option<u16>)
    ensures
        address_in(u, usual) is Ok <==> u.host is Some && u.username.len() > 0,
        address_in(u, usual) matches Ok((name, host, path)) ==> {
            &&& name == u.username
            &&& u.port matches Some(port) ==> host == u.host->0 + ":"@ + decimal(port as nat)
            &&& u.port is None ==> (usual matches Some(port) ==> host == u.host->0 + ":"@ + decimal(port as nat))
            &&& u.port is None && usual is None ==> host == u.host->0
            &&& u.path == "/"@ ==> path.len() == 0
            &&& u.path != "/"@ ==> path == u.path
        },
{
}

/// An address is taken apart as the URL that it is behind a scheme.
#[verifier::rlimit(40)]
pub proof fn addresses_are_urls(address: Seq<char>)
    ensures
        match url_parts("https://"@ + address) {
            Some(u) => address_parts(address) == address_in(
                u,
                match url_parts("http://"@ + address) {
                    Some(v) => v.port,
                    None => None,
                },
            ),
            None => address_parts(address) matches Err(e) && e.fault == Fault::InvalidAddress,
        },
{
}

// Fields.

/// The last value that is given for a field.
pub open spec fn last_given(list: Seq<(Seq<char>, Seq<char>)>, key: Seq<char>) -> Option<Seq<char>>
    decreases list.len(),
{
    if list.len() == 0 {
        None
    } else if metadata_key(list.last().0) == Some(key) {
        Some(list.last().1)
    } else {
        last_given(list.drop_last(), key)
    }
}

proof fn lemma_keys_differ()
    ensures
        "id"@.len() == 2,
        "created"@.len() == 7,
        "modified"@.len() == 8,
        "modified_by"@.len() == 11,
        "encryption_algorithm"@.len() == 20,
        "body_hash_algorithm"@.len() == 19,
        "body_hash_value"@.len() == 15,
        "signature_algorithm"@.len() == 19,
        "signature_value"@.len() == 15,
        "body_hash_algorithm"@ != "signature_algorithm"@,
        "body_hash_value"@ != "signature_value"@,
{
    reveal_strlit("id");
    reveal_strlit("created");
    reveal_strlit("modified");
    reveal_strlit("modified_by");
    reveal_strlit("encryption_algorithm");
    reveal_strlit("body_hash_algorithm");
    reveal_strlit("body_hash_value");
    reveal_strlit("signature_algorithm");
    reveal_strlit("signature_value");
    assert("body_hash_algorithm"@[0] == 'b');
    assert("signature_algorithm"@[0] == 's');
    assert("body_hash_value"@[0] == 'b');
    assert("signature_value"@[0] == 's');
}

proof fn lemma_fields_given(list: Seq<(Seq<char>, Seq<char>)>)
    ensures
        fields_read(list) matches Ok(p) ==> {
            &&& p.id == last_given(list, "id"@)
            &&& p.created == last_given(list, "created"@)
            &&& p.modified == last_given(list, "modified"@)
            &&& p.modified_by == last_given(list, "modified_by"@)
            &&& p.encryption_algorithm == last_given(list, "encryption_algorithm"@)
            &&& p.body_hash_algorithm == last_given(list, "body_hash_algorithm"@)
            &&& p.signature_algorithm == last_given(list, "signature_algorithm"@)
            &&& p.body_hash_value == (match last_given(list, "body_hash_value"@) {
                Some(v) => decoded(v),
                None => None,
            })
            &&& p.signature_value == (match last_given(list, "signature_value"@) {
                Some(v) => decoded(v),
                None => None,
            })
        },
    decreases list.len(),
{
    if list.len() > 0 {
        lemma_fields_given(list.drop_last());
        lemma_keys_differ();
    }
}

/// Metadata is read only from a list that gives its id, its times, who changed it and its
/// signature; each is the last one given. It has an owner, and a hash only where both
/// parts of it are given.
pub proof fn metadata_is_read_whole(list: Seq<(Seq<char>, Seq<char>)>)
    ensures
        metadata_of(list) matches Ok(m) ==> {
            &&& last_given(list, "id"@) == Some(m.id)
            &&& last_given(list, "created"@) == Some(m.created)
            &&& last_given(list, "modified"@) == Some(m.modified)
            &&& last_given(list, "modified_by"@) == Some(m.modified_by)
            &&& last_given(list, "encryption_algorithm"@) == m.encryption_algorithm
            &&& last_given(list, "signature_algorithm"@) == Some(m.signature.algorithm)
            &&& last_given(list, "signature_value"@) matches Some(v) && decoded(v) == Some(m.signature.value)
            &&& m.body_hash matches Some(hash) ==> last_given(list, "body_hash_algorithm"@) == Some(hash.algorithm)
                && last_given(list, "body_hash_value"@) is Some && decoded(last_given(list, "body_hash_value"@)->0) == Some(
                hash.value,
            )
            &&& m.body_hash is None ==> last_given(list, "body_hash_algorithm"@) is None || last_given(
                list,
                "body_hash_value"@,
            ) is None
            &&& exists|i: int|
                0 <= i < m.members.len() && (#[trigger] m.members[i]).permission == crate::types::Permission::Owner
        },
        last_given(list, "id"@) is None ==> metadata_of(list) is Err,
        last_given(list, "created"@) is None ==> metadata_of(list) is Err,
        last_given(list, "modified"@) is None ==> metadata_of(list) is Err,
        last_given(list, "modified_by"@) is None ==> metadata_of(list) is Err,
        last_given(list, "signature_algorithm"@) is None ==> metadata_of(list) is Err,
        last_given(list, "signature_value"@) is None ==> metadata_of(list) is Err,
{
    lemma_fields_given(list);
    lemma_hash_given(list);
}

proof fn lemma_hash_given(list: Seq<(Seq<char>, Seq<char>)>)
    ensures
        fields_read(list) is Ok ==> (last_given(list, "body_hash_value"@) matches Some(v) ==> decoded(v) is Some),
    decreases list.len(),
{
    if list.len() > 0 {
        lemma_hash_given(list.drop_last());
        lemma_keys_differ();
    }
}

/// A response or a file carries metadata where one of its names is that of a field.
pub proof fn any_field_is_metadata(list: Seq<(Seq<char>, Seq<char>)>)
    ensures
        carries_metadata(list) <==> exists|i: int| 0 <= i < list.len() && metadata_key((#[trigger] list[i]).0) is Some,
{
}

/// The names under a prefix are all that begin with it, in their order.
pub proof fn names_under_a_prefix_begin_with_it(names: Seq<Seq<char>>, prefix: Seq<char>)
    ensures
        names_under(names, prefix) == names.filter(|n: Seq<char>| prefix.is_prefix_of(n)),
    decreases names.len(),
{
    reveal(Seq::filter);
    if names.len() > 0 {
        names_under_a_prefix_begin_with_it(names.drop_last(), prefix);
    }
}

/// What is kept on this host alone is read field by field: the flag is `true` or `false`,
/// the hash is base64url, and what has another name changes nothing.
pub proof fn local_fields_are_read(l: LocalV, field: Seq<char>, value: Seq<char>, hash: Seq<u8>)
    ensures
        local_set(l, "encrypted"@, "true"@) == Ok::<LocalV, ErrorV>(LocalV { encrypted: Some(true), ..l }),
        local_set(l, "encrypted"@, "false"@) == Ok::<LocalV, ErrorV>(LocalV { encrypted: Some(false), ..l }),
        local_set(l, "sync_hash"@, crate::base64url::encoded(hash)) == Ok::<LocalV, ErrorV>(
            LocalV { sync_hash: Some(hash), ..l },
        ),
        decoded(value) is None ==> local_set(l, "sync_hash"@, value) is Err,
        local_set(l, "sync_modified"@, value) == Ok::<LocalV, ErrorV>(LocalV { sync_modified: Some(value), ..l }),
        field != "encrypted"@ && field != "sync_hash"@ && field != "sync_modified"@ ==> local_set(l, field, value) == Ok::<
            LocalV,
            ErrorV,
        >(l),
        flag_named(value) is Some <==> value == "true"@ || value == "false"@,
{
    reveal_strlit("encrypted");
    reveal_strlit("sync_hash");
    reveal_strlit("sync_modified");
    reveal_strlit("true");
    reveal_strlit("false");
    assert("encrypted"@[0] != "sync_hash"@[0]);
    assert("sync_hash"@.len() != "sync_modified"@.len());
    assert("encrypted"@[0] != "sync_modified"@[0]);
    assert("true"@[0] != "false"@[0]);
    crate::base64url::decode_after_encode(hash);
    lemma_neat("true"@);
    lemma_neat("false"@);
}

#[verifier::rlimit(40)]
proof fn lemma_neat(s: Seq<char>)
    requires
        s.len() > 0,
        !crate::text::is_space(s[0]),
        !crate::text::is_space(s.last()),
    ensures
        crate::text::trim(s, Trim::Space) == s,
{
}

/// The name of a field is read whatever its case; in a header, dashes stand for
/// underscores.
pub proof fn field_names_are_read_in_any_case(a: Seq<char>, b: Seq<char>, field: Seq<char>)
    ensures
        lower(a) == lower(b) ==> metadata_key(a) == metadata_key(b),
        field.len() > 0 ==> metadata_key("X-Ark-Meta-"@ + field) == Some(lower(underscored(field))),
        field.len() > 0 ==> metadata_key("user.ark."@ + field) == Some(lower(field)),
{
    if lower(a) == lower(b) {
        assert(a.len() == b.len()) by {
            assert(lower(a).len() == a.len() && lower(b).len() == b.len());
        }
        assert forall|i: int| 0 <= i < a.len() implies crate::text::ascii_lower(a[i]) == crate::text::ascii_lower(b[i]) by {
            assert(lower(a)[i] == lower(b)[i]);
        }
        if a.len() > 9 {
            assert(lower(a.take(9)) =~= lower(b.take(9)));
            assert(lower(a.skip(9)) =~= lower(b.skip(9)));
        }
        if a.len() > 11 {
            assert(lower(a.take(11)) =~= lower(b.take(11)));
            assert(lower(underscored(a.skip(11))) =~= lower(underscored(b.skip(11))));
        }
    }
    reveal_strlit("X-Ark-Meta-");
    reveal_strlit("x-ark-meta-");
    reveal_strlit("user.ark.");
    if field.len() > 0 {
        let h = "X-Ark-Meta-"@ + field;
        assert(h.take(11) =~= "X-Ark-Meta-"@);
        assert(h.skip(11) =~= field);
        assert(lower("X-Ark-Meta-"@) =~= "x-ark-meta-"@);
        assert(lower(h.take(9))[0] == 'x');
        let u = "user.ark."@ + field;
        assert(u.take(9) =~= "user.ark."@);
        assert(u.skip(9) =~= field);
        assert(lower("user.ark."@) =~= "user.ark."@);
    }
}

/// A file carries metadata where one of its attributes is the id.
#[verifier::rlimit(40)]
pub proof fn ids_mark_metadata(attributes: Seq<(Seq<char>, Seq<u8>)>)
    ensures
        crate::sealing::carries_id(attributes) <==> exists|i: int|
            0 <= i < attributes.len() && (#[trigger] attributes[i]).0 == "user.ark.id"@,
{
}

/// Metadata is signed without its signature and with everything else.
pub proof fn signatures_are_left_out_alone(m: MetadataV)
    ensures
        crate::metadata::unsigned(m) == (MetadataV {
            id: m.id,
            created: m.created,
            modified: m.modified,
            modified_by: m.modified_by,
            encryption_algorithm: m.encryption_algorithm,
            members: m.members,
            body_hash: m.body_hash,
            signature: no_signature(),
        }),
        no_signature().algorithm.len() == 0,
        no_signature().value.len() == 0,
{
}

/// A key file is read with or without white space around the key.
pub proof fn key_files_are_read(front: Seq<char>, key: Seq<u8>, back: Seq<char>)
    requires
        forall|i: int| 0 <= i < front.len() ==> crate::text::is_space(#[trigger] front[i]),
        forall|i: int| 0 <= i < back.len() ==> crate::text::is_space(#[trigger] back[i]),
        key.len() > 0,
    ensures
        key_in(front + crate::identity::key_file(key) + back) == Ok::<Seq<u8>, ErrorV>(key),
{
    let text = crate::base64url::encoded(key);
    crate::base64url::decode_after_encode(key);
    lemma_symbols(key);
    assert(!crate::text::is_space(text[0]));
    assert(!crate::text::is_space(text[text.len() - 1]));
    lemma_surrounded(front, text, back);
}

proof fn lemma_symbols(b: Seq<u8>)
    ensures
        forall|i: int|
            0 <= i < crate::base64url::encoded(b).len() ==> !crate::text::is_space(
                #[trigger] crate::base64url::encoded(b)[i],
            ),
        b.len() > 0 ==> crate::base64url::encoded(b).len() > 0,
    decreases b.len(),
{
    if b.len() > 2 {
        lemma_symbols(b.skip(3));
        let e = crate::base64url::encoded(b);
        let rest = crate::base64url::encoded(b.skip(3));
        assert forall|i: int| 0 <= i < e.len() implies !crate::text::is_space(#[trigger] e[i]) by {
            if i >= 4 {
                assert(e[i] == rest[i - 4]);
            }
        }
    }
}

proof fn lemma_surrounded(front: Seq<char>, text: Seq<char>, back: Seq<char>)
    requires
        forall|i: int| 0 <= i < front.len() ==> crate::text::is_space(#[trigger] front[i]),
        forall|i: int| 0 <= i < back.len() ==> crate::text::is_space(#[trigger] back[i]),
        text.len() > 0,
        !crate::text::is_space(text[0]),
        !crate::text::is_space(text[text.len() - 1]),
    ensures
        crate::text::trim(front + text + back, Trim::Space) == text,
    decreases front.len(), back.len(),
{
    let whole = front + text + back;
    if front.len() > 0 {
        assert(crate::text::is_space(front[0]));
        assert(whole.skip(1) =~= front.skip(1) + text + back);
        assert forall|i: int| 0 <= i < front.skip(1).len() implies crate::text::is_space(#[trigger] front.skip(1)[i]) by {
            assert(front.skip(1)[i] == front[i + 1]);
        }
        lemma_surrounded(front.skip(1), text, back);
    } else {
        assert(whole =~= text + back);
        assert(whole[0] == text[0]);
        lemma_followed(text, back);
    }
}

#[verifier::rlimit(40)]
proof fn lemma_followed(text: Seq<char>, back: Seq<char>)
    requires
        forall|i: int| 0 <= i < back.len() ==> crate::text::is_space(#[trigger] back[i]),
        text.len() > 0,
        !crate::text::is_space(text[text.len() - 1]),
    ensures
        crate::text::trim_back(text + back, Trim::Space) == text,
    decreases back.len(),
{
    let whole = text + back;
    if back.len() > 0 {
        assert(crate::text::is_space(back[back.len() - 1]));
        assert(whole.last() == back[back.len() - 1]);
        assert(whole.drop_last() =~= text + back.drop_last());
        assert forall|i: int| 0 <= i < back.drop_last().len() implies crate::text::is_space(
            #[trigger] back.drop_last()[i],
        ) by {
            assert(back.drop_last()[i] == back[i]);
        }
        lemma_followed(text, back.drop_last());
    } else {
        assert(whole =~= text);
        assert(whole.last() == text[text.len() - 1]);
    }
}

// Names of things.

/// The names of permissions, of what happens to an entry and of what an entry is.
#[verifier::rlimit(40)]
pub proof fn things_have_their_names()
    ensures
        forall|p: Permission|
            #![auto]
            permission_name(p) == (match p {
                Permission::Owner => "owner"@,
                Permission::Writer => "writer"@,
                Permission::Reader => "reader"@,
            }),
        forall|a: EntryAction|
            #![auto]
            action_name(a) == (match a {
                EntryAction::Created => "created"@,
                EntryAction::Modified => "modified"@,
                EntryAction::Deleted => "deleted"@,
                EntryAction::Metadata => "metadata"@,
            }),
        forall|k: DirectoryEntryKind|
            #![auto]
            kind_name(k) == (match k {
                DirectoryEntryKind::Dir => "dir"@,
                DirectoryEntryKind::File => "file"@,
                DirectoryEntryKind::Symlink => "symlink"@,
            }),
{
}

/// What an error says is its text with the words of its fault around it.
pub proof fn errors_say_their_text(e: ErrorV)
    ensures
        message_of(e).len() == lead(e.fault).len() + e.detail.len() + tail(e.fault).len(),
        lead(e.fault).is_prefix_of(message_of(e)),
        tail(e.fault).is_suffix_of(message_of(e)),
        message_of(e).subrange(lead(e.fault).len() as int, (lead(e.fault).len() + e.detail.len()) as int) == e.detail,
{
    let m = message_of(e);
    assert(m.subrange(0, lead(e.fault).len() as int) =~= lead(e.fault));
    assert(m.subrange(m.len() - tail(e.fault).len(), m.len() as int) =~= tail(e.fault));
    assert(m.subrange(lead(e.fault).len() as int, (lead(e.fault).len() + e.detail.len()) as int) =~= e.detail);
}

/// The class of a fault: what was not found, what cannot be done as asked, what is not as
/// it should be, what is there already, what ended too soon and what is not allowed.
#[verifier::rlimit(40)]
pub proof fn faults_have_their_class(f: Fault)
    ensures
        kind_of(f) == Kind::NotFound <==> f == Fault::UnknownIdentity || f == Fault::NotFound || f == Fault::NoMetadata
            || f == Fault::NoArkDir,
        kind_of(f) == Kind::AlreadyExists <==> f == Fault::FileExists,
        kind_of(f) == Kind::UnexpectedEof <==> f == Fault::BodyTruncated,
        kind_of(f) == Kind::PermissionDenied <==> f == Fault::NoKey || f == Fault::NoMemberDenied,
        f == Fault::IdentitySignature || f == Fault::SignatureInvalid || f == Fault::KeyFileNotBase64 || f
            == Fault::LineNotUtf8 || f == Fault::NoAlgorithm || f == Fault::MaybePlain || f == Fault::IdentityAddress || f
            == Fault::KeyTextNotUtf8 || f == Fault::KeyTextNotBase64 || f == Fault::IdentityParse <==> kind_of(f)
            == Kind::InvalidData,
        f == Fault::LastOwner || f == Fault::PublicMemberEncrypted || f == Fault::InvalidAddress || f
            == Fault::AddressForm || f == Fault::InvalidAccountName || f == Fault::AlreadyEncrypted || f
            == Fault::AlreadyPlain || f == Fault::NotProposal || f == Fault::NoProposal || f == Fault::PathMissing || f
            == Fault::InputMissing ==> kind_of(f) == Kind::InvalidInput,
{
}

// Where things lie.

/// The own copy of a path has a place just where the path can be read and does not climb.
pub proof fn paths_that_climb_have_no_copy(root: Seq<char>, path: Seq<char>, name: Seq<char>)
    ensures
        match crate::locate::inner_path(path) {
            Ok(inner) => if segments(inner).contains(".."@) {
                crate::locate::fs_path(root, path) matches Err(e) && e.fault == Fault::NotWithin
            } else {
                crate::locate::fs_path(root, path) == Ok::<Seq<char>, ErrorV>(
                    crate::text::trim_back(root, Trim::Slash) + "/"@ + joined_names(segments(inner)),
                )
            },
            Err(_) => crate::locate::fs_path(root, path) is Err,
        },
        match crate::paths::below(root, path) {
            Some(rest) => crate::sync::relative_path(root, path) == Ok::<Seq<char>, ErrorV>(rest),
            None => crate::sync::relative_path(root, path) matches Err(e) && e.fault == Fault::NotWithin,
        },
        !name.contains('_') ==> crate::sync::stamp(name) == name,
{
    if !name.contains('_') {
        crate::text_laws::texts_are_cut_at_the_first(name, '_', Seq::empty());
    }
}

/// The name of a log entry is that of one: it begins with the method and the status and
/// ends in `.http`.
pub proof fn log_entries_are_named_as_such(method: Seq<char>, status: u16, time: Seq<char>)
    ensures
        crate::proposals::is_log(crate::log::entry_name_of(method, status, time)),
        (method + "_"@ + decimal(status as nat) + "_"@).is_prefix_of(crate::log::entry_name_of(method, status, time)),
{
    let stem = method + "_"@ + decimal(status as nat) + "_"@ + time;
    crate::share_laws::log_entries_end_in_http(stem, stem);
    let front = method + "_"@ + decimal(status as nat) + "_"@;
    let name = crate::log::entry_name_of(method, status, time);
    assert(name.subrange(0, front.len() as int) =~= front);
}

/// The text of a stored key is read with or without white space around it.
pub proof fn key_texts_are_read(front: Seq<char>, key: Seq<u8>, back: Seq<char>)
    requires
        forall|i: int| 0 <= i < front.len() ==> crate::text::is_space(#[trigger] front[i]),
        forall|i: int| 0 <= i < back.len() ==> crate::text::is_space(#[trigger] back[i]),
        key.len() > 0,
    ensures
        crate::bootstrap::key_text(encode_utf8(front + crate::base64url::encoded(key) + back)) == Ok::<Seq<u8>, ErrorV>(key),
{
    broadcast use vstd::utf8::encode_utf8_valid_utf8;
    broadcast use vstd::utf8::encode_utf8_decode_utf8;

    let text = crate::base64url::encoded(key);
    crate::base64url::decode_after_encode(key);
    lemma_symbols(key);
    assert(!crate::text::is_space(text[0]));
    assert(!crate::text::is_space(text[text.len() - 1]));
    lemma_surrounded(front, text, back);
}

/// A target is decoded where its escapes can be read and give text.
pub proof fn targets_are_decoded_to_text(s: Seq<char>)
    ensures
        match unescaped(encode_utf8(s)) {
            Some(b) => if vstd::utf8::valid_utf8(b) {
                target_decoded(s) == Some(vstd::utf8::decode_utf8(b))
            } else {
                target_decoded(s) is None
            },
            None => target_decoded(s) is None,
        },
{
}

} // verus!
