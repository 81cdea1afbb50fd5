//! Metadata that is written as named values is read back unchanged, in
//! whatever order the values come.

use vstd::prelude::*;
use vstd::utf8::encode_utf8;

use crate::base64url::{decode_after_encode, encoded};
use crate::error::{bare, ErrorV, Fault};
use crate::fields::{
    all_member_fields, attribute_fields, attribute_name, attributes_read, completed, completed_member, field_set,
    field_step, fields_of, fields_read, grown, has_owner, header_fields, header_name, key_of, local_fields,
    local_of, member_fields, member_key, member_set, members_fault, metadata_key, metadata_of,
    metadata_of_attributes, no_member, partial_fault, underscored, Field, PartialMemberV, PartialV,
};
use crate::number::{all_digits, decimal, decimal_round_trip, lemma_decimal};
use crate::text::{after_prefix, lemma_first_is, lower, trim, Trim};
use crate::types::{permission_name, permission_round_trip, LocalV, MemberV, MetadataV};

verus! {

/// The value of a field of metadata, if it has the field.
pub open spec fn value_in(m: MetadataV, f: Field) -> Option<Seq<char>> {
    match f {
        Field::Id => Some(m.id),
        Field::Created => Some(m.created),
        Field::Modified => Some(m.modified),
        Field::ModifiedBy => Some(m.modified_by),
        Field::EncryptionAlgorithm => m.encryption_algorithm,
        Field::BodyHashAlgorithm => match m.body_hash {
            Some(h) => Some(h.algorithm),
            None => None,
        },
        Field::BodyHashValue => match m.body_hash {
            Some(h) => Some(encoded(h.value)),
            None => None,
        },
        Field::SignatureAlgorithm => Some(m.signature.algorithm),
        Field::SignatureValue => Some(encoded(m.signature.value)),
        Field::MemberAddress(i) => if i < m.members.len() {
            Some(m.members[i as int].address)
        } else {
            None
        },
        Field::MemberPermission(i) => if i < m.members.len() {
            Some(permission_name(m.members[i as int].permission))
        } else {
            None
        },
        Field::MemberKeyAlgorithm(i) => if i < m.members.len() {
            match m.members[i as int].key {
                Some(k) => Some(k.algorithm),
                None => None,
            }
        } else {
            None
        },
        Field::MemberKeyValue(i) => if i < m.members.len() {
            match m.members[i as int].key {
                Some(k) => Some(encoded(k.value)),
                None => None,
            }
        } else {
            None
        },
    }
}

/// Whether a field has been read.
spec fn filled(p: PartialV, f: Field) -> bool {
    match f {
        Field::Id => p.id is Some,
        Field::Created => p.created is Some,
        Field::Modified => p.modified is Some,
        Field::ModifiedBy => p.modified_by is Some,
        Field::EncryptionAlgorithm => p.encryption_algorithm is Some,
        Field::BodyHashAlgorithm => p.body_hash_algorithm is Some,
        Field::BodyHashValue => p.body_hash_value is Some,
        Field::SignatureAlgorithm => p.signature_algorithm is Some,
        Field::SignatureValue => p.signature_value is Some,
        Field::MemberAddress(i) => i < p.members.len() && p.members[i as int].address is Some,
        Field::MemberPermission(i) => i < p.members.len() && p.members[i as int].permission is Some,
        Field::MemberKeyAlgorithm(i) => i < p.members.len() && p.members[i as int].key_algorithm is Some,
        Field::MemberKeyValue(i) => i < p.members.len() && p.members[i as int].key_value is Some,
    }
}

/// Whether what has been read of a member is the member's own.
spec fn member_below(p: PartialMemberV, m: MemberV) -> bool {
    &&& p.address is Some ==> p.address->0 == m.address
    &&& p.permission is Some ==> p.permission->0 == m.permission
    &&& p.key_algorithm is Some ==> m.key is Some && p.key_algorithm->0 == m.key->0.algorithm
    &&& p.key_value is Some ==> m.key is Some && p.key_value->0 == m.key->0.value
}

/// Whether what has been read is part of the metadata.
spec fn below(p: PartialV, m: MetadataV) -> bool {
    &&& p.id is Some ==> p.id->0 == m.id
    &&& p.created is Some ==> p.created->0 == m.created
    &&& p.modified is Some ==> p.modified->0 == m.modified
    &&& p.modified_by is Some ==> p.modified_by->0 == m.modified_by
    &&& p.encryption_algorithm is Some ==> p.encryption_algorithm == m.encryption_algorithm
    &&& p.body_hash_algorithm is Some ==> m.body_hash is Some && p.body_hash_algorithm->0 == m.body_hash->0.algorithm
    &&& p.body_hash_value is Some ==> m.body_hash is Some && p.body_hash_value->0 == m.body_hash->0.value
    &&& p.signature_algorithm is Some ==> p.signature_algorithm->0 == m.signature.algorithm
    &&& p.signature_value is Some ==> p.signature_value->0 == m.signature.value
    &&& p.members.len() <= m.members.len()
    &&& forall|i: int| 0 <= i < p.members.len() ==> member_below(#[trigger] p.members[i], m.members[i])
}

proof fn lemma_literals()
    ensures
        forall|rest: Seq<char>|
            {
                let k = #[trigger] ("member_"@ + rest);
                &&& k != "id"@
                &&& k != "created"@
                &&& k != "modified"@
                &&& k != "modified_by"@
                &&& k != "encryption_algorithm"@
                &&& k != "body_hash_algorithm"@
                &&& k != "body_hash_value"@
                &&& k != "signature_algorithm"@
                &&& k != "signature_value"@
            },
{
    reveal_strlit("member_");
    reveal_strlit("id");
    reveal_strlit("created");
    reveal_strlit("modified");
    reveal_strlit("modified_by");
    reveal_strlit("encryption_algorithm");
    reveal_strlit("body_hash_algorithm");
    reveal_strlit("body_hash_value");
    reveal_strlit("signature_algorithm");
    reveal_strlit("signature_value");
    assert forall|rest: Seq<char>|
        {
            let k = #[trigger] ("member_"@ + rest);
            &&& k != "id"@
            &&& k != "created"@
            &&& k != "modified"@
            &&& k != "modified_by"@
            &&& k != "encryption_algorithm"@
            &&& k != "body_hash_algorithm"@
            &&& k != "body_hash_value"@
            &&& k != "signature_algorithm"@
            &&& k != "signature_value"@
        } by {
        let k = "member_"@ + rest;
        assert(k[0] == 'm' && k[1] == 'e');
        assert("modified"@[1] == 'o' && "modified_by"@[1] == 'o');
        assert("id"@[0] == 'i' && "created"@[0] == 'c' && "encryption_algorithm"@[0] == 'e');
        assert("body_hash_algorithm"@[0] == 'b' && "body_hash_value"@[0] == 'b');
        assert("signature_algorithm"@[0] == 's' && "signature_value"@[0] == 's');
    }
}

/// The fields have different names.
proof fn lemma_keys_differ()
    ensures
        "created"@ != "id"@,
        "modified"@ != "id"@ && "modified"@ != "created"@,
        "modified_by"@ != "id"@ && "modified_by"@ != "created"@ && "modified_by"@ != "modified"@,
        "encryption_algorithm"@.len() == 20,
        "body_hash_algorithm"@.len() == 19,
        "body_hash_value"@.len() == 15,
        "signature_algorithm"@.len() == 19,
        "signature_value"@.len() == 15,
        "id"@.len() == 2,
        "created"@.len() == 7,
        "modified"@.len() == 8,
        "modified_by"@.len() == 11,
        "signature_algorithm"@ != "body_hash_algorithm"@,
        "signature_value"@ != "body_hash_value"@,
{
    reveal_strlit("id");
    reveal_strlit("created");
    reveal_strlit("modified");
    reveal_strlit("modified_by");
    reveal_strlit("encryption_algorithm");
    reveal_strlit("body_hash_algorithm");
    reveal_strlit("body_hash_value");
    reveal_strlit("signature_algorithm");
    reveal_strlit("signature_value");
    assert("id"@.len() == 2 && "created"@.len() == 7 && "modified"@.len() == 8 && "modified_by"@.len() == 11);
    assert("body_hash_algorithm"@[0] == 'b' && "signature_algorithm"@[0] == 's');
    assert("body_hash_value"@[0] == 'b' && "signature_value"@[0] == 's');
}

/// The members' fields have different names.
proof fn lemma_member_keys_differ()
    ensures
        "address"@.len() == 7,
        "permission"@.len() == 10,
        "key_algorithm"@.len() == 13,
        "key_value"@.len() == 9,
{
    reveal_strlit("address");
    reveal_strlit("permission");
    reveal_strlit("key_algorithm");
    reveal_strlit("key_value");
}

/// The name of a member's field is taken apart into the number and the field.
proof fn lemma_member_key(i: usize, suffix: Seq<char>, field: Seq<char>)
    requires
        suffix == seq!['_'] + field,
    ensures
        member_key("member_"@ + decimal(i as nat) + suffix) == Some((i as nat, field)),
{
    let number = decimal(i as nat);
    let rest = number + suffix;
    let key = "member_"@ + number + suffix;
    assert(key =~= "member_"@ + rest);
    assert("member_"@.is_prefix_of(key)) by {
        assert(key.subrange(0, "member_"@.len() as int) =~= "member_"@);
    }
    assert(key.skip("member_"@.len() as int) =~= rest);
    lemma_decimal(i as nat);
    assert forall|k: int| 0 <= k < number.len() implies rest[k] != '_' by {
        assert(rest[k] == number[k]);
        assert(crate::number::is_digit(number[k]));
    }
    assert(rest[number.len() as int] == '_');
    lemma_first_is(rest, '_', number.len() as int);
    assert(rest.take(number.len() as int) =~= number);
    assert(rest.skip(number.len() as int + 1) =~= field);
    decimal_round_trip(i as nat, usize::MAX as nat);
}

proof fn lemma_suffixes()
    ensures
        "_address"@ == seq!['_'] + "address"@,
        "_permission"@ == seq!['_'] + "permission"@,
        "_key_algorithm"@ == seq!['_'] + "key_algorithm"@,
        "_key_value"@ == seq!['_'] + "key_value"@,
{
    reveal_strlit("_address");
    reveal_strlit("_permission");
    reveal_strlit("_key_algorithm");
    reveal_strlit("_key_value");
    reveal_strlit("address");
    reveal_strlit("permission");
    reveal_strlit("key_algorithm");
    reveal_strlit("key_value");
    assert("_address"@ =~= seq!['_'] + "address"@);
    assert("_permission"@ =~= seq!['_'] + "permission"@);
    assert("_key_algorithm"@ =~= seq!['_'] + "key_algorithm"@);
    assert("_key_value"@ =~= seq!['_'] + "key_value"@);
}

/// Reading a member's own field keeps to the member.
proof fn lemma_member_step(m: MetadataV, p: PartialV, i: usize, field: Seq<char>, value: Seq<char>, f: Field)
    requires
        below(p, m),
        i < m.members.len(),
        value_in(m, f) == Some(value),
        key_of(f) == "member_"@ + decimal(i as nat) + (seq!['_'] + field),
        f == Field::MemberAddress(i) && field == "address"@ || f == Field::MemberPermission(i) && field
            == "permission"@ || f == Field::MemberKeyAlgorithm(i) && field == "key_algorithm"@ || f
            == Field::MemberKeyValue(i) && field == "key_value"@,
    ensures
        field_set(p, key_of(f), value) matches Ok(q) && below(q, m) && filled(q, f) && (forall|g: Field|
            filled(p, g) ==> filled(q, g)),
{
    lemma_literals();
    lemma_member_keys_differ();
    lemma_member_key(i, seq!['_'] + field, field);
    let key = key_of(f);
    assert(key =~= "member_"@ + (decimal(i as nat) + (seq!['_'] + field)));
    let members = grown(p.members, i as nat + 1);
    let own = m.members[i as int];
    assert(members.len() <= m.members.len());
    assert forall|k: int| 0 <= k < members.len() implies member_below(#[trigger] members[k], m.members[k]) by {
        if k < p.members.len() {
            assert(members[k] == p.members[k]);
        } else {
            assert(members[k] == no_member());
        }
    }
    permission_round_trip(own.permission);
    if let Some(k) = own.key {
        decode_after_encode(k.value);
    }
    let set = member_set(members[i as int], field, value);
    assert(set is Ok);
    let q = PartialV { members: members.update(i as int, set->Ok_0), ..p };
    assert(field_set(p, key, value) == Ok::<PartialV, ErrorV>(q));
    assert(member_below(set->Ok_0, own));
    assert forall|g: Field| filled(p, g) implies filled(q, g) by {
        match g {
            Field::MemberAddress(k) => {
                assert(members[k as int] == p.members[k as int]);
            },
            Field::MemberPermission(k) => {
                assert(members[k as int] == p.members[k as int]);
            },
            Field::MemberKeyAlgorithm(k) => {
                assert(members[k as int] == p.members[k as int]);
            },
            Field::MemberKeyValue(k) => {
                assert(members[k as int] == p.members[k as int]);
            },
            _ => {},
        }
    }
}

/// Reading a field of the metadata keeps to the metadata.
proof fn lemma_step(m: MetadataV, p: PartialV, f: Field, value: Seq<char>)
    requires
        below(p, m),
        value_in(m, f) == Some(value),
    ensures
        field_set(p, key_of(f), value) matches Ok(q) && below(q, m) && filled(q, f) && (forall|g: Field|
            filled(p, g) ==> filled(q, g)),
{
    lemma_keys_differ();
    lemma_suffixes();
    match f {
        Field::MemberAddress(i) => {
            lemma_member_step(m, p, i, "address"@, value, f);
        },
        Field::MemberPermission(i) => {
            lemma_member_step(m, p, i, "permission"@, value, f);
        },
        Field::MemberKeyAlgorithm(i) => {
            lemma_member_step(m, p, i, "key_algorithm"@, value, f);
        },
        Field::MemberKeyValue(i) => {
            lemma_member_step(m, p, i, "key_value"@, value, f);
        },
        Field::BodyHashValue => {
            decode_after_encode(m.body_hash->0.value);
        },
        Field::SignatureValue => {
            decode_after_encode(m.signature.value);
        },
        _ => {},
    }
}

/// Everything that was written is a field of the metadata with its value.
proof fn lemma_member_fields(members: Seq<MemberV>, k: int)
    requires
        members.len() <= usize::MAX,
        0 <= k < all_member_fields(members).len(),
    ensures
        ({
            let (f, v) = all_member_fields(members)[k];
            exists|i: int|
                0 <= i < members.len() && #[trigger] member_fields(i, members[i]).contains((f, v))
        }),
    decreases members.len(),
{
    let head = all_member_fields(members.drop_last());
    let n = members.len() - 1;
    let last = member_fields(n, members.last());
    if k < head.len() {
        lemma_member_fields(members.drop_last(), k);
        let (f, v) = head[k];
        let i = choose|i: int|
            0 <= i < members.drop_last().len() && #[trigger] member_fields(i, members.drop_last()[i]).contains((f, v));
        assert(members.drop_last()[i] == members[i]);
        assert(member_fields(i, members[i]).contains((f, v)));
    } else {
        assert(last[k - head.len()] == all_member_fields(members)[k]);
        assert(member_fields(n, members[n]).contains(all_member_fields(members)[k]));
    }
}

/// Every member's fields are among all members' fields.
proof fn lemma_member_fields_cover(members: Seq<MemberV>, i: int, field: (Field, Seq<char>))
    requires
        0 <= i < members.len(),
        member_fields(i, members[i]).contains(field),
    ensures
        all_member_fields(members).contains(field),
    decreases members.len(),
{
    let head = all_member_fields(members.drop_last());
    let last = member_fields(members.len() - 1, members.last());
    if i == members.len() - 1 {
        let k = choose|k: int| 0 <= k < last.len() && last[k] == field;
        assert((head + last)[head.len() + k] == field);
    } else {
        assert(members.drop_last()[i] == members[i]);
        lemma_member_fields_cover(members.drop_last(), i, field);
        let k = choose|k: int| 0 <= k < head.len() && head[k] == field;
        assert((head + last)[k] == field);
    }
}

/// Every field that is written has the value that the metadata gives it.
proof fn lemma_written_agree(m: MetadataV, k: int)
    requires
        m.members.len() <= usize::MAX,
        0 <= k < fields_of(m).len(),
    ensures
        value_in(m, fields_of(m)[k].0) == Some(fields_of(m)[k].1),
{
    let all = all_member_fields(m.members);
    let base = fields_of(m).len() - all.len();
    if k >= base {
        assert(fields_of(m)[k] == all[k - base]);
        lemma_member_fields(m.members, k - base);
        let (f, v) = all[k - base];
        let i = choose|i: int| 0 <= i < m.members.len() && #[trigger] member_fields(i, m.members[i]).contains((f, v));
        let list = member_fields(i, m.members[i]);
        let j = choose|j: int| 0 <= j < list.len() && list[j] == (f, v);
        assert(list[j] == (f, v));
    }
}

/// Every field that the metadata has is written.
proof fn lemma_written_cover(m: MetadataV, f: Field)
    requires
        m.members.len() <= usize::MAX,
        value_in(m, f) is Some,
    ensures
        exists|k: int| 0 <= k < fields_of(m).len() && (#[trigger] fields_of(m)[k]).0 == f,
{
    let list = fields_of(m);
    let e: int = if m.encryption_algorithm is Some { 1 } else { 0 };
    let h: int = if m.body_hash is Some { 2 } else { 0 };
    match f {
        Field::Id => { assert(list[0].0 == f); },
        Field::Created => { assert(list[1].0 == f); },
        Field::Modified => { assert(list[2].0 == f); },
        Field::ModifiedBy => { assert(list[3].0 == f); },
        Field::EncryptionAlgorithm => { assert(list[4].0 == f); },
        Field::BodyHashAlgorithm => { assert(list[4 + e].0 == f); },
        Field::BodyHashValue => { assert(list[5 + e].0 == f); },
        Field::SignatureAlgorithm => { assert(list[4 + e + h].0 == f); },
        Field::SignatureValue => { assert(list[5 + e + h].0 == f); },
        Field::MemberAddress(i) => { lemma_member_written(m, i, 0); },
        Field::MemberPermission(i) => { lemma_member_written(m, i, 1); },
        Field::MemberKeyAlgorithm(i) => { lemma_member_written(m, i, 2); },
        Field::MemberKeyValue(i) => { lemma_member_written(m, i, 3); },
    }
}

proof fn lemma_member_written(m: MetadataV, i: usize, which: int)
    requires
        i < m.members.len() <= usize::MAX,
        0 <= which < member_fields(i as int, m.members[i as int]).len(),
    ensures
        exists|k: int|
            0 <= k < fields_of(m).len() && #[trigger] fields_of(m)[k] == member_fields(
                i as int,
                m.members[i as int],
            )[which],
{
    let field = member_fields(i as int, m.members[i as int])[which];
    assert(member_fields(i as int, m.members[i as int]).contains(field));
    lemma_member_fields_cover(m.members, i as int, field);
    let all = all_member_fields(m.members);
    let j = choose|j: int| 0 <= j < all.len() && all[j] == field;
    let base = fields_of(m).len() - all.len();
    assert(fields_of(m)[base + j] == field);
}

/// When every field has been read, what was read is the metadata.
proof fn lemma_complete(m: MetadataV, p: PartialV)
    requires
        m.members.len() <= usize::MAX,
        below(p, m),
        forall|f: Field| value_in(m, f) is Some ==> filled(p, f),
    ensures
        partial_fault(p) is None,
        completed(p) == m,
{
    assert(value_in(m, Field::Id) is Some && value_in(m, Field::Created) is Some);
    assert(value_in(m, Field::Modified) is Some && value_in(m, Field::ModifiedBy) is Some);
    assert(value_in(m, Field::SignatureAlgorithm) is Some && value_in(m, Field::SignatureValue) is Some);
    assert(filled(p, Field::Id) && filled(p, Field::Created) && filled(p, Field::Modified));
    assert(filled(p, Field::ModifiedBy) && filled(p, Field::SignatureAlgorithm));
    assert(filled(p, Field::SignatureValue));
    let n = m.members.len();
    if n > 0 {
        assert(value_in(m, Field::MemberAddress((n - 1) as usize)) is Some);
        assert(filled(p, Field::MemberAddress((n - 1) as usize)));
    }
    assert(p.members.len() == n);
    assert forall|i: int| 0 <= i < n implies #[trigger] completed(p).members[i] == m.members[i]
        && p.members[i].address is Some && p.members[i].permission is Some by {
        let own = m.members[i];
        assert(member_below(p.members[i], own));
        assert(value_in(m, Field::MemberAddress(i as usize)) is Some);
        assert(filled(p, Field::MemberAddress(i as usize)));
        assert(value_in(m, Field::MemberPermission(i as usize)) is Some);
        assert(filled(p, Field::MemberPermission(i as usize)));
        if own.key is Some {
            assert(value_in(m, Field::MemberKeyAlgorithm(i as usize)) is Some);
            assert(filled(p, Field::MemberKeyAlgorithm(i as usize)));
            assert(value_in(m, Field::MemberKeyValue(i as usize)) is Some);
            assert(filled(p, Field::MemberKeyValue(i as usize)));
        }
        assert(completed_member(p.members[i]) =~= own);
    }
    assert forall|i: int| 0 <= i < n implies (#[trigger] p.members[i]).address is Some
        && p.members[i].permission is Some by {
        assert(completed(p).members[i] == m.members[i]);
    }
    lemma_no_member_fault(p.members);
    if m.encryption_algorithm is Some {
        assert(value_in(m, Field::EncryptionAlgorithm) is Some);
        assert(filled(p, Field::EncryptionAlgorithm));
    }
    if m.body_hash is Some {
        assert(value_in(m, Field::BodyHashAlgorithm) is Some && value_in(m, Field::BodyHashValue) is Some);
        assert(filled(p, Field::BodyHashAlgorithm) && filled(p, Field::BodyHashValue));
    }
    assert(completed(p).members =~= m.members);
    assert(completed(p).signature =~= m.signature);
    assert(completed(p).body_hash =~= m.body_hash);
    assert(completed(p) =~= m);
}

proof fn lemma_no_member_fault(members: Seq<PartialMemberV>)
    requires
        forall|i: int|
            0 <= i < members.len() ==> (#[trigger] members[i]).address is Some && members[i].permission is Some,
    ensures
        members_fault(members) is None,
    decreases members.len(),
{
    if members.len() > 0 {
        assert forall|i: int| 0 <= i < members.len() - 1 implies (#[trigger] members.skip(1)[i]).address is Some
            && members.skip(1)[i].permission is Some by {
            assert(members.skip(1)[i] == members[i + 1]);
        }
        lemma_no_member_fault(members.skip(1));
    }
}


/// Digits are the same in lower case and with underscores.
proof fn lemma_digits_kept(s: Seq<char>)
    requires
        all_digits(s),
    ensures
        lower(s) == s,
        lower(underscored(s)) == s,
{
    assert forall|i: int| 0 <= i < s.len() implies lower(s)[i] == s[i] && lower(underscored(s))[i] == s[i] by {
        assert(crate::number::is_digit(s[i]));
    }
    assert(lower(s) =~= s);
    assert(lower(underscored(s)) =~= s);
}

/// A header name with a number in it stands for the field with that number.
proof fn lemma_numbered_header(i: usize, suffix: Seq<char>, key_suffix: Seq<char>)
    requires
        lower(underscored(suffix)) == key_suffix,
    ensures
        metadata_key("X-Ark-Meta-Member-"@ + decimal(i as nat) + suffix) == Some(
            "member_"@ + decimal(i as nat) + key_suffix,
        ),
{
    reveal_strlit("X-Ark-Meta-Member-");
    reveal_strlit("x-ark-meta-");
    reveal_strlit("user.ark.");
    reveal_strlit("member_");
    let number = decimal(i as nat);
    lemma_decimal(i as nat);
    lemma_digits_kept(number);
    let name = "X-Ark-Meta-Member-"@ + number + suffix;
    assert("X-Ark-Meta-Member-"@.len() == 18);
    assert(lower(name.take(9))[0] == 'x');
    assert("user.ark."@[0] == 'u');
    assert(lower(name.take(11)) =~= "x-ark-meta-"@);
    let rest = name.skip(11);
    assert(rest =~= "X-Ark-Meta-Member-"@.skip(11) + number + suffix);
    assert(lower(underscored("X-Ark-Meta-Member-"@.skip(11))) =~= "member_"@);
    assert(lower(underscored(rest)) =~= lower(underscored("X-Ark-Meta-Member-"@.skip(11))) + lower(underscored(number))
        + lower(underscored(suffix)));
}

/// An attribute name with a number in it stands for the field with that
/// number.
proof fn lemma_numbered_attribute(i: usize, suffix: Seq<char>)
    requires
        lower(suffix) == suffix,
    ensures
        metadata_key("user.ark.member_"@ + decimal(i as nat) + suffix) == Some(
            "member_"@ + decimal(i as nat) + suffix,
        ),
        "user.ark."@.is_prefix_of("user.ark.member_"@ + decimal(i as nat) + suffix),
{
    reveal_strlit("user.ark.member_");
    reveal_strlit("user.ark.");
    reveal_strlit("member_");
    let number = decimal(i as nat);
    lemma_decimal(i as nat);
    lemma_digits_kept(number);
    let name = "user.ark.member_"@ + number + suffix;
    assert("user.ark.member_"@.len() == 16);
    assert("user.ark."@.len() == 9);
    assert(lower(name.take(9)) =~= "user.ark."@);
    assert(name.subrange(0, 9) =~= "user.ark."@);
    let rest = name.skip(9);
    assert(rest =~= "user.ark.member_"@.skip(9) + number + suffix);
    assert(lower("user.ark.member_"@.skip(9)) =~= "member_"@);
    assert(lower(rest) =~= lower("user.ark.member_"@.skip(9)) + lower(number) + lower(suffix));
}

/// A fixed header name stands for its field.
proof fn lemma_header(name: Seq<char>, key: Seq<char>)
    requires
        name.len() > 11,
        lower(name.take(11)) == "x-ark-meta-"@,
        lower(underscored(name.skip(11))) == key,
    ensures
        metadata_key(name) == Some(key),
{
    reveal_strlit("user.ark.");
    reveal_strlit("x-ark-meta-");
    assert(lower(name.take(11))[0] == 'x');
    assert(lower(name.take(9))[0] == lower(name.take(11))[0]);
    assert("user.ark."@[0] == 'u');
}

/// The name of a header stands for the field that it carries.
pub proof fn lemma_header_name(f: Field)
    ensures
        metadata_key(header_name(f)) == Some(key_of(f)),
{
    reveal_strlit("x-ark-meta-");
    match f {
        Field::Id => {
            reveal_strlit("X-Ark-Meta-Id");
            reveal_strlit("id");
            assert("X-Ark-Meta-Id"@.len() == 13);
            assert(lower("X-Ark-Meta-Id"@.take(11)) =~= "x-ark-meta-"@);
            assert(lower(underscored("X-Ark-Meta-Id"@.skip(11))) =~= "id"@);
            lemma_header("X-Ark-Meta-Id"@, "id"@);
        },
        Field::Created => {
            reveal_strlit("X-Ark-Meta-Created");
            reveal_strlit("created");
            assert("X-Ark-Meta-Created"@.len() == 18);
            assert(lower("X-Ark-Meta-Created"@.take(11)) =~= "x-ark-meta-"@);
            assert(lower(underscored("X-Ark-Meta-Created"@.skip(11))) =~= "created"@);
            lemma_header("X-Ark-Meta-Created"@, "created"@);
        },
        Field::Modified => {
            reveal_strlit("X-Ark-Meta-Modified");
            reveal_strlit("modified");
            assert("X-Ark-Meta-Modified"@.len() == 19);
            assert(lower("X-Ark-Meta-Modified"@.take(11)) =~= "x-ark-meta-"@);
            assert(lower(underscored("X-Ark-Meta-Modified"@.skip(11))) =~= "modified"@);
            lemma_header("X-Ark-Meta-Modified"@, "modified"@);
        },
        Field::ModifiedBy => {
            reveal_strlit("X-Ark-Meta-Modified-By");
            reveal_strlit("modified_by");
            assert("X-Ark-Meta-Modified-By"@.len() == 22);
            assert(lower("X-Ark-Meta-Modified-By"@.take(11)) =~= "x-ark-meta-"@);
            assert(lower(underscored("X-Ark-Meta-Modified-By"@.skip(11))) =~= "modified_by"@);
            lemma_header("X-Ark-Meta-Modified-By"@, "modified_by"@);
        },
        Field::EncryptionAlgorithm => {
            reveal_strlit("X-Ark-Meta-Encryption-Algorithm");
            reveal_strlit("encryption_algorithm");
            assert("X-Ark-Meta-Encryption-Algorithm"@.len() == 31);
            assert(lower("X-Ark-Meta-Encryption-Algorithm"@.take(11)) =~= "x-ark-meta-"@);
            assert(lower(underscored("X-Ark-Meta-Encryption-Algorithm"@.skip(11))) =~= "encryption_algorithm"@);
            lemma_header("X-Ark-Meta-Encryption-Algorithm"@, "encryption_algorithm"@);
        },
        Field::BodyHashAlgorithm => {
            reveal_strlit("X-Ark-Meta-Body-Hash-Algorithm");
            reveal_strlit("body_hash_algorithm");
            assert("X-Ark-Meta-Body-Hash-Algorithm"@.len() == 30);
            assert(lower("X-Ark-Meta-Body-Hash-Algorithm"@.take(11)) =~= "x-ark-meta-"@);
            assert(lower(underscored("X-Ark-Meta-Body-Hash-Algorithm"@.skip(11))) =~= "body_hash_algorithm"@);
            lemma_header("X-Ark-Meta-Body-Hash-Algorithm"@, "body_hash_algorithm"@);
        },
        Field::BodyHashValue => {
            reveal_strlit("X-Ark-Meta-Body-Hash-Value");
            reveal_strlit("body_hash_value");
            assert("X-Ark-Meta-Body-Hash-Value"@.len() == 26);
            assert(lower("X-Ark-Meta-Body-Hash-Value"@.take(11)) =~= "x-ark-meta-"@);
            assert(lower(underscored("X-Ark-Meta-Body-Hash-Value"@.skip(11))) =~= "body_hash_value"@);
            lemma_header("X-Ark-Meta-Body-Hash-Value"@, "body_hash_value"@);
        },
        Field::SignatureAlgorithm => {
            reveal_strlit("X-Ark-Meta-Signature-Algorithm");
            reveal_strlit("signature_algorithm");
            assert("X-Ark-Meta-Signature-Algorithm"@.len() == 30);
            assert(lower("X-Ark-Meta-Signature-Algorithm"@.take(11)) =~= "x-ark-meta-"@);
            assert(lower(underscored("X-Ark-Meta-Signature-Algorithm"@.skip(11))) =~= "signature_algorithm"@);
            lemma_header("X-Ark-Meta-Signature-Algorithm"@, "signature_algorithm"@);
        },
        Field::SignatureValue => {
            reveal_strlit("X-Ark-Meta-Signature-Value");
            reveal_strlit("signature_value");
            assert("X-Ark-Meta-Signature-Value"@.len() == 26);
            assert(lower("X-Ark-Meta-Signature-Value"@.take(11)) =~= "x-ark-meta-"@);
            assert(lower(underscored("X-Ark-Meta-Signature-Value"@.skip(11))) =~= "signature_value"@);
            lemma_header("X-Ark-Meta-Signature-Value"@, "signature_value"@);
        },
        Field::MemberAddress(i) => {
            reveal_strlit("-Address");
            reveal_strlit("_address");
            assert(lower(underscored("-Address"@)) =~= "_address"@);
            lemma_numbered_header(i, "-Address"@, "_address"@);
        },
        Field::MemberPermission(i) => {
            reveal_strlit("-Permission");
            reveal_strlit("_permission");
            assert(lower(underscored("-Permission"@)) =~= "_permission"@);
            lemma_numbered_header(i, "-Permission"@, "_permission"@);
        },
        Field::MemberKeyAlgorithm(i) => {
            reveal_strlit("-Key-Algorithm");
            reveal_strlit("_key_algorithm");
            assert(lower(underscored("-Key-Algorithm"@)) =~= "_key_algorithm"@);
            lemma_numbered_header(i, "-Key-Algorithm"@, "_key_algorithm"@);
        },
        Field::MemberKeyValue(i) => {
            reveal_strlit("-Key-Value");
            reveal_strlit("_key_value");
            assert(lower(underscored("-Key-Value"@)) =~= "_key_value"@);
            lemma_numbered_header(i, "-Key-Value"@, "_key_value"@);
        },
    }
}

/// The name of an attribute stands for the field that it carries.
pub proof fn lemma_attribute_name(f: Field)
    ensures
        metadata_key(attribute_name(f)) == Some(key_of(f)),
        "user.ark."@.is_prefix_of(attribute_name(f)),
{
    reveal_strlit("user.ark.");
    assert("user.ark."@.len() == 9);
    match f {
        Field::Id => {
            reveal_strlit("user.ark.id");
            reveal_strlit("id");
            assert("user.ark.id"@.len() == 11);
            assert(lower("user.ark.id"@.take(9)) =~= "user.ark."@);
            assert("user.ark.id"@.subrange(0, 9) =~= "user.ark."@);
            assert(lower("user.ark.id"@.skip(9)) =~= "id"@);
        },
        Field::Created => {
            reveal_strlit("user.ark.created");
            reveal_strlit("created");
            assert("user.ark.created"@.len() == 16);
            assert(lower("user.ark.created"@.take(9)) =~= "user.ark."@);
            assert("user.ark.created"@.subrange(0, 9) =~= "user.ark."@);
            assert(lower("user.ark.created"@.skip(9)) =~= "created"@);
        },
        Field::Modified => {
            reveal_strlit("user.ark.modified");
            reveal_strlit("modified");
            assert("user.ark.modified"@.len() == 17);
            assert(lower("user.ark.modified"@.take(9)) =~= "user.ark."@);
            assert("user.ark.modified"@.subrange(0, 9) =~= "user.ark."@);
            assert(lower("user.ark.modified"@.skip(9)) =~= "modified"@);
        },
        Field::ModifiedBy => {
            reveal_strlit("user.ark.modified_by");
            reveal_strlit("modified_by");
            assert("user.ark.modified_by"@.len() == 20);
            assert(lower("user.ark.modified_by"@.take(9)) =~= "user.ark."@);
            assert("user.ark.modified_by"@.subrange(0, 9) =~= "user.ark."@);
            assert(lower("user.ark.modified_by"@.skip(9)) =~= "modified_by"@);
        },
        Field::EncryptionAlgorithm => {
            reveal_strlit("user.ark.encryption_algorithm");
            reveal_strlit("encryption_algorithm");
            assert("user.ark.encryption_algorithm"@.len() == 29);
            assert(lower("user.ark.encryption_algorithm"@.take(9)) =~= "user.ark."@);
            assert("user.ark.encryption_algorithm"@.subrange(0, 9) =~= "user.ark."@);
            assert(lower("user.ark.encryption_algorithm"@.skip(9)) =~= "encryption_algorithm"@);
        },
        Field::BodyHashAlgorithm => {
            reveal_strlit("user.ark.body_hash_algorithm");
            reveal_strlit("body_hash_algorithm");
            assert("user.ark.body_hash_algorithm"@.len() == 28);
            assert(lower("user.ark.body_hash_algorithm"@.take(9)) =~= "user.ark."@);
            assert("user.ark.body_hash_algorithm"@.subrange(0, 9) =~= "user.ark."@);
            assert(lower("user.ark.body_hash_algorithm"@.skip(9)) =~= "body_hash_algorithm"@);
        },
        Field::BodyHashValue => {
            reveal_strlit("user.ark.body_hash_value");
            reveal_strlit("body_hash_value");
            assert("user.ark.body_hash_value"@.len() == 24);
            assert(lower("user.ark.body_hash_value"@.take(9)) =~= "user.ark."@);
            assert("user.ark.body_hash_value"@.subrange(0, 9) =~= "user.ark."@);
            assert(lower("user.ark.body_hash_value"@.skip(9)) =~= "body_hash_value"@);
        },
        Field::SignatureAlgorithm => {
            reveal_strlit("user.ark.signature_algorithm");
            reveal_strlit("signature_algorithm");
            assert("user.ark.signature_algorithm"@.len() == 28);
            assert(lower("user.ark.signature_algorithm"@.take(9)) =~= "user.ark."@);
            assert("user.ark.signature_algorithm"@.subrange(0, 9) =~= "user.ark."@);
            assert(lower("user.ark.signature_algorithm"@.skip(9)) =~= "signature_algorithm"@);
        },
        Field::SignatureValue => {
            reveal_strlit("user.ark.signature_value");
            reveal_strlit("signature_value");
            assert("user.ark.signature_value"@.len() == 24);
            assert(lower("user.ark.signature_value"@.take(9)) =~= "user.ark."@);
            assert("user.ark.signature_value"@.subrange(0, 9) =~= "user.ark."@);
            assert(lower("user.ark.signature_value"@.skip(9)) =~= "signature_value"@);
        },
        Field::MemberAddress(i) => {
            reveal_strlit("_address");
            assert(lower("_address"@) =~= "_address"@);
            lemma_numbered_attribute(i, "_address"@);
        },
        Field::MemberPermission(i) => {
            reveal_strlit("_permission");
            assert(lower("_permission"@) =~= "_permission"@);
            lemma_numbered_attribute(i, "_permission"@);
        },
        Field::MemberKeyAlgorithm(i) => {
            reveal_strlit("_key_algorithm");
            assert(lower("_key_algorithm"@) =~= "_key_algorithm"@);
            lemma_numbered_attribute(i, "_key_algorithm"@);
        },
        Field::MemberKeyValue(i) => {
            reveal_strlit("_key_value");
            assert(lower("_key_value"@) =~= "_key_value"@);
            lemma_numbered_attribute(i, "_key_value"@);
        },
    }
}

/// Whether a named value is foreign to metadata or one of the metadata's own.
pub open spec fn header_belongs(m: MetadataV, header: (Seq<char>, Seq<char>)) -> bool {
    metadata_key(header.0) is None || header_fields(m).contains(header)
}

proof fn lemma_headers_below(m: MetadataV, list: Seq<(Seq<char>, Seq<char>)>)
    requires
        m.members.len() <= usize::MAX,
        forall|j: int| 0 <= j < list.len() ==> header_belongs(m, #[trigger] list[j]),
    ensures
        fields_read(list) matches Ok(p) && below(p, m) && (forall|k: int|
            0 <= k < fields_of(m).len() && list.contains(#[trigger] header_fields(m)[k]) ==> filled(
                p,
                fields_of(m)[k].0,
            )),
    decreases list.len(),
{
    if list.len() > 0 {
        let init = list.drop_last();
        assert forall|j: int| 0 <= j < init.len() implies header_belongs(m, #[trigger] init[j]) by {
            assert(init[j] == list[j]);
        }
        lemma_headers_below(m, init);
        let p = fields_read(init)->Ok_0;
        let last = list.last();
        assert(header_belongs(m, list[list.len() - 1]));
        let step = field_step(p, last.0, last.1);
        if metadata_key(last.0) is Some {
            let all = header_fields(m);
            let k = choose|k: int| 0 <= k < all.len() && all[k] == last;
            assert(all[k] == last);
            lemma_header_name(fields_of(m)[k].0);
            lemma_written_agree(m, k);
            lemma_step(m, p, fields_of(m)[k].0, last.1);
        }
        assert(step is Ok);
        let q = step->Ok_0;
        assert forall|k: int|
            0 <= k < fields_of(m).len() && list.contains(#[trigger] header_fields(m)[k]) implies filled(
            q,
            fields_of(m)[k].0,
        ) by {
            if last == header_fields(m)[k] {
                lemma_header_name(fields_of(m)[k].0);
                lemma_written_agree(m, k);
                lemma_step(m, p, fields_of(m)[k].0, last.1);
            } else {
                let j = choose|j: int| 0 <= j < list.len() && list[j] == header_fields(m)[k];
                assert(init[j] == header_fields(m)[k]);
                assert(filled(p, fields_of(m)[k].0));
            }
        }
    }
}

proof fn lemma_headers_complete(m: MetadataV, list: Seq<(Seq<char>, Seq<char>)>)
    requires
        m.members.len() <= usize::MAX,
        forall|j: int| 0 <= j < list.len() ==> header_belongs(m, #[trigger] list[j]),
        forall|k: int| 0 <= k < header_fields(m).len() ==> list.contains(#[trigger] header_fields(m)[k]),
    ensures
        fields_read(list) matches Ok(p) && partial_fault(p) is None && completed(p) == m,
{
    lemma_headers_below(m, list);
    let p = fields_read(list)->Ok_0;
    assert forall|f: Field| value_in(m, f) is Some implies filled(p, f) by {
        lemma_written_cover(m, f);
        let k = choose|k: int| 0 <= k < fields_of(m).len() && (#[trigger] fields_of(m)[k]).0 == f;
        assert(list.contains(header_fields(m)[k]));
    }
    lemma_complete(m, p);
}

proof fn lemma_own_headers(m: MetadataV)
    ensures
        forall|j: int| 0 <= j < header_fields(m).len() ==> header_belongs(m, #[trigger] header_fields(m)[j]),
        forall|k: int| 0 <= k < header_fields(m).len() ==> header_fields(m).contains(#[trigger] header_fields(m)[k]),
{
    let list = header_fields(m);
    assert forall|j: int| 0 <= j < list.len() implies header_belongs(m, #[trigger] list[j]) by {
        assert(list.contains(list[j]));
    }
}

/// Metadata is read back unchanged from any headers that hold all of its own
/// and otherwise only ones that stand for no field, in any order.
pub proof fn headers_read_back(m: MetadataV, list: Seq<(Seq<char>, Seq<char>)>)
    requires
        has_owner(m.members),
        m.members.len() <= usize::MAX,
        forall|j: int| 0 <= j < list.len() ==> header_belongs(m, #[trigger] list[j]),
        forall|k: int| 0 <= k < header_fields(m).len() ==> list.contains(#[trigger] header_fields(m)[k]),
    ensures
        metadata_of(list) == Ok::<MetadataV, ErrorV>(m),
{
    lemma_headers_complete(m, list);
}

/// Metadata that was written as headers is read back unchanged.
pub proof fn header_round_trip(m: MetadataV)
    requires
        has_owner(m.members),
        m.members.len() <= usize::MAX,
    ensures
        metadata_of(header_fields(m)) == Ok::<MetadataV, ErrorV>(m),
{
    lemma_own_headers(m);
    headers_read_back(m, header_fields(m));
}

/// Metadata without an owner that was written as headers is refused when it is
/// read.
pub proof fn ownerless_headers_are_refused(m: MetadataV)
    requires
        !has_owner(m.members),
        m.members.len() <= usize::MAX,
    ensures
        metadata_of(header_fields(m)) == Err::<MetadataV, ErrorV>(bare(Fault::NoOwner)),
{
    lemma_own_headers(m);
    lemma_headers_complete(m, header_fields(m));
}

/// Whether a name stands for no field: it has no prefix of metadata, or what
/// follows the prefix is neither a field nor begins as one of a member does.
pub open spec fn stands_for_nothing(name: Seq<char>) -> bool {
    match metadata_key(name) {
        None => true,
        Some(key) => {
            &&& key != "id"@
            &&& key != "created"@
            &&& key != "modified"@
            &&& key != "modified_by"@
            &&& key != "encryption_algorithm"@
            &&& key != "body_hash_algorithm"@
            &&& key != "body_hash_value"@
            &&& key != "signature_algorithm"@
            &&& key != "signature_value"@
            &&& !"member_"@.is_prefix_of(key)
        },
    }
}

/// A header that stands for no field changes nothing, wherever in whatever headers
/// it stands: the same metadata is read, or the same error comes.
pub proof fn unknown_headers_change_nothing(
    list: Seq<(Seq<char>, Seq<char>)>,
    at: int,
    extra: (Seq<char>, Seq<char>),
)
    requires
        0 <= at <= list.len(),
        stands_for_nothing(extra.0),
    ensures
        metadata_of(list.insert(at, extra)) == metadata_of(list),
{
    lemma_nothing_read(list, at, extra);
}

proof fn lemma_nothing_read(list: Seq<(Seq<char>, Seq<char>)>, at: int, extra: (Seq<char>, Seq<char>))
    requires
        0 <= at <= list.len(),
        stands_for_nothing(extra.0),
    ensures
        fields_read(list.insert(at, extra)) == fields_read(list),
    decreases list.len(),
{
    let more = list.insert(at, extra);
    if at == list.len() {
        assert(more.drop_last() =~= list);
        assert(more.last() == extra);
    } else {
        lemma_nothing_read(list.drop_last(), at, extra);
        assert(more.drop_last() =~= list.drop_last().insert(at, extra));
        assert(more.last() == list.last());
    }
}

proof fn lemma_attributes_below(m: MetadataV, list: Seq<(Seq<char>, Seq<u8>)>)
    requires
        m.members.len() <= usize::MAX,
        forall|j: int|
            0 <= j < list.len() ==> !"user.ark."@.is_prefix_of((#[trigger] list[j]).0)
                || attribute_fields(m).contains(list[j]),
    ensures
        attributes_read(list) matches Ok(p) && below(p, m) && (forall|k: int|
            0 <= k < fields_of(m).len() && list.contains(#[trigger] attribute_fields(m)[k]) ==> filled(
                p,
                fields_of(m)[k].0,
            )),
    decreases list.len(),
{
    broadcast use vstd::utf8::encode_utf8_valid_utf8;
    broadcast use vstd::utf8::encode_utf8_decode_utf8;

    if list.len() > 0 {
        let init = list.drop_last();
        assert forall|j: int| 0 <= j < init.len() implies !"user.ark."@.is_prefix_of((#[trigger] init[j]).0)
            || attribute_fields(m).contains(init[j]) by {
            assert(init[j] == list[j]);
        }
        lemma_attributes_below(m, init);
        let p = attributes_read(init)->Ok_0;
        let last = list.last();
        assert(last == list[list.len() - 1]);
        if "user.ark."@.is_prefix_of(last.0) {
            let all = attribute_fields(m);
            let k = choose|k: int| 0 <= k < all.len() && all[k] == last;
            assert(all[k] == last);
            lemma_attribute_name(fields_of(m)[k].0);
            lemma_written_agree(m, k);
            lemma_step(m, p, fields_of(m)[k].0, fields_of(m)[k].1);
        }
        assert(attributes_read(list) is Ok);
        let q = attributes_read(list)->Ok_0;
        assert forall|k: int|
            0 <= k < fields_of(m).len() && list.contains(#[trigger] attribute_fields(m)[k]) implies filled(
            q,
            fields_of(m)[k].0,
        ) by {
            if last == attribute_fields(m)[k] {
                lemma_attribute_name(fields_of(m)[k].0);
                lemma_written_agree(m, k);
                lemma_step(m, p, fields_of(m)[k].0, fields_of(m)[k].1);
            } else {
                let j = choose|j: int| 0 <= j < list.len() && list[j] == attribute_fields(m)[k];
                assert(init[j] == attribute_fields(m)[k]);
                assert(filled(p, fields_of(m)[k].0));
            }
        }
    }
}

/// Metadata is read back unchanged from any file attributes that hold all of
/// its own and otherwise only ones with other names, in any order.
pub proof fn attribute_round_trip(m: MetadataV, list: Seq<(Seq<char>, Seq<u8>)>)
    requires
        has_owner(m.members),
        m.members.len() <= usize::MAX,
        forall|j: int|
            0 <= j < list.len() ==> !"user.ark."@.is_prefix_of((#[trigger] list[j]).0)
                || attribute_fields(m).contains(list[j]),
        forall|k: int| 0 <= k < attribute_fields(m).len() ==> list.contains(#[trigger] attribute_fields(m)[k]),
    ensures
        metadata_of_attributes(list) == Ok::<MetadataV, ErrorV>(m),
{
    lemma_attributes_below(m, list);
    let p = attributes_read(list)->Ok_0;
    assert forall|f: Field| value_in(m, f) is Some implies filled(p, f) by {
        lemma_written_cover(m, f);
        let k = choose|k: int| 0 <= k < fields_of(m).len() && (#[trigger] fields_of(m)[k]).0 == f;
        assert(list.contains(attribute_fields(m)[k]));
    }
    lemma_complete(m, p);
}

/// Metadata is read back from a file after its old attributes with the prefix
/// were removed and the new ones set, whatever other attributes it has.
pub proof fn rewritten_attributes_read_back(m: MetadataV, others: Seq<(Seq<char>, Seq<u8>)>)
    requires
        has_owner(m.members),
        m.members.len() <= usize::MAX,
        forall|j: int| 0 <= j < others.len() ==> !"user.ark."@.is_prefix_of((#[trigger] others[j]).0),
    ensures
        metadata_of_attributes(others + attribute_fields(m)) == Ok::<MetadataV, ErrorV>(m),
{
    let list = others + attribute_fields(m);
    assert forall|j: int| 0 <= j < list.len() implies !"user.ark."@.is_prefix_of((#[trigger] list[j]).0)
        || attribute_fields(m).contains(list[j]) by {
        if j >= others.len() {
            assert(list[j] == attribute_fields(m)[j - others.len()]);
        }
    }
    assert forall|k: int| 0 <= k < attribute_fields(m).len() implies list.contains(
        #[trigger] attribute_fields(m)[k],
    ) by {
        assert(list[others.len() + k] == attribute_fields(m)[k]);
    }
    attribute_round_trip(m, list);
}

/// Whether what has been read of local metadata is its own.
spec fn local_below(p: LocalV, l: LocalV) -> bool {
    &&& p.encrypted is Some ==> p.encrypted == l.encrypted
    &&& p.sync_hash is Some ==> p.sync_hash == l.sync_hash
    &&& p.sync_modified is Some ==> p.sync_modified == l.sync_modified
}

proof fn lemma_local_names()
    ensures
        after_prefix("user.ark_local.encrypted"@, "user.ark_local."@) == Some("encrypted"@),
        after_prefix("user.ark_local.sync_hash"@, "user.ark_local."@) == Some("sync_hash"@),
        after_prefix("user.ark_local.sync_modified"@, "user.ark_local."@) == Some("sync_modified"@),
        "encrypted"@.len() == 9,
        "sync_hash"@.len() == 9,
        "encrypted"@ != "sync_hash"@,
        "sync_modified"@.len() == 13,
        "true"@ != "false"@,
        trim("true"@, Trim::Space) == "true"@,
        trim("false"@, Trim::Space) == "false"@,
{
    reveal_strlit("user.ark_local.");
    reveal_strlit("user.ark_local.encrypted");
    reveal_strlit("user.ark_local.sync_hash");
    reveal_strlit("user.ark_local.sync_modified");
    reveal_strlit("encrypted");
    reveal_strlit("sync_hash");
    reveal_strlit("sync_modified");
    reveal_strlit("true");
    reveal_strlit("false");
    assert("user.ark_local."@.len() == 15);
    assert("user.ark_local.encrypted"@.subrange(0, 15) =~= "user.ark_local."@);
    assert("user.ark_local.sync_hash"@.subrange(0, 15) =~= "user.ark_local."@);
    assert("user.ark_local.sync_modified"@.subrange(0, 15) =~= "user.ark_local."@);
    assert("user.ark_local.encrypted"@.skip(15) =~= "encrypted"@);
    assert("user.ark_local.sync_hash"@.skip(15) =~= "sync_hash"@);
    assert("user.ark_local.sync_modified"@.skip(15) =~= "sync_modified"@);
    assert("encrypted"@[0] == 'e' && "sync_hash"@[0] == 's');
    assert("true"@.len() == 4 && "false"@.len() == 5);
}

proof fn lemma_local_below(l: LocalV, list: Seq<(Seq<char>, Seq<u8>)>)
    requires
        forall|j: int|
            0 <= j < list.len() ==> !"user.ark_local."@.is_prefix_of((#[trigger] list[j]).0)
                || local_fields(l).contains(list[j]),
    ensures
        local_of(list) matches Ok(p) && local_below(p, l) && (l.encrypted is Some && list.contains(
            ("user.ark_local.encrypted"@, encode_utf8(if l.encrypted->0 { "true"@ } else { "false"@ })),
        ) ==> p.encrypted is Some) && (l.sync_hash is Some && list.contains(
            ("user.ark_local.sync_hash"@, encode_utf8(encoded(l.sync_hash->0))),
        ) ==> p.sync_hash is Some) && (l.sync_modified is Some && list.contains(
            ("user.ark_local.sync_modified"@, encode_utf8(l.sync_modified->0)),
        ) ==> p.sync_modified is Some),
    decreases list.len(),
{
    broadcast use vstd::utf8::encode_utf8_valid_utf8;
    broadcast use vstd::utf8::encode_utf8_decode_utf8;

    lemma_local_names();
    if list.len() > 0 {
        let init = list.drop_last();
        assert forall|j: int| 0 <= j < init.len() implies !"user.ark_local."@.is_prefix_of((#[trigger] init[j]).0)
            || local_fields(l).contains(init[j]) by {
            assert(init[j] == list[j]);
        }
        lemma_local_below(l, init);
        let last = list.last();
        assert(last == list[list.len() - 1]);
        if l.sync_hash is Some {
            decode_after_encode(l.sync_hash->0);
        }
        let own = local_fields(l);
        if "user.ark_local."@.is_prefix_of(last.0) {
            let k = choose|k: int| 0 <= k < own.len() && own[k] == last;
            assert(own[k] == last);
        }
        assert forall|x: (Seq<char>, Seq<u8>)| list.contains(x) && x != last implies init.contains(x) by {
            let j = choose|j: int| 0 <= j < list.len() && list[j] == x;
            assert(init[j] == x);
        }
    }
}

/// Local metadata is read back unchanged from any file attributes that hold all
/// of its own and otherwise only ones with other names, in any order.
pub proof fn local_round_trip(l: LocalV, list: Seq<(Seq<char>, Seq<u8>)>)
    requires
        forall|j: int|
            0 <= j < list.len() ==> !"user.ark_local."@.is_prefix_of((#[trigger] list[j]).0)
                || local_fields(l).contains(list[j]),
        forall|k: int| 0 <= k < local_fields(l).len() ==> list.contains(#[trigger] local_fields(l)[k]),
    ensures
        local_of(list) == Ok::<LocalV, ErrorV>(l),
{
    lemma_local_below(l, list);
    let p = local_of(list)->Ok_0;
    let own = local_fields(l);
    let e: int = if l.encrypted is Some { 1 } else { 0 };
    let h: int = if l.sync_hash is Some { 1 } else { 0 };
    if l.encrypted is Some {
        assert(list.contains(own[0]));
    }
    if l.sync_hash is Some {
        assert(list.contains(own[e]));
    }
    if l.sync_modified is Some {
        assert(list.contains(own[e + h]));
    }
    assert(p =~= l);
}

} // verus!
