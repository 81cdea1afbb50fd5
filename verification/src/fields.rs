//! Metadata as named values: message headers and file attributes.

use vstd::prelude::*;
use vstd::utf8::{decode_utf8, encode_utf8, valid_utf8};

use crate::base64url::{decode_base64url, decoded, encode_base64url, encoded};
use crate::error::{bare, fail, fail_with, seen, with, Error, ErrorV, Fault};
use crate::number::{decimal, format_usize, parse_usize, parsed};
use crate::primitives::utf8_text;
use crate::text::{
    after_prefix, concat3, find, first, from_chars, lower, opt_bytes, opt_text, part, same, same_chars, starts_with,
    strip_prefix, to_chars, to_lower, trim, trimmed, Trim,
};
use crate::types::{
    members_view, no_local, pairs, permission_name, permission_named, Key, LocalMetadata, LocalV, Member, MemberV,
    Metadata, MetadataV, Permission, Signature, Tagged,
};

verus! {

// Names.

/// A text with every dash made an underscore.
pub open spec fn underscored(s: Seq<char>) -> Seq<char> {
    s.map_values(|c: char| if c == '-' { '_' } else { c })
}

/// The field that a name stands for: what follows the attribute prefix or the
/// header prefix, in lower case and with underscores.
pub open spec fn metadata_key(name: Seq<char>) -> Option<Seq<char>> {
    if name.len() > 9 && lower(name.take(9)) == "user.ark."@ {
        Some(lower(name.skip(9)))
    } else if name.len() > 11 && lower(name.take(11)) == "x-ark-meta-"@ {
        Some(lower(underscored(name.skip(11))))
    } else {
        None
    }
}

fn with_underscores(s: &[char]) -> (r: Vec<char>)
    ensures
        r@ == underscored(s@),
{
    let mut out: Vec<char> = Vec::new();
    let n: usize = s.len();
    let mut i: usize = 0;
    while i < n
        invariant
            i <= n == s@.len(),
            out@.len() == i,
            forall|k: int| 0 <= k < i ==> out@[k] == underscored(s@)[k],
        decreases n - i,
    {
        out.push(if s[i] == '-' { '_' } else { s[i] });
        i = i + 1;
    }
    assert(out@ =~= underscored(s@));
    out
}

/// The field that an attribute or header name stands for.
pub fn get_metadata_key(key: &str) -> (r: Option<String>)
    ensures
        opt_text(r) == metadata_key(key@),
{
    let chars = to_chars(key);
    let n: usize = chars.len();
    if n > 9 {
        assert(chars@.subrange(0, 9) =~= chars@.take(9));
        assert(chars@.subrange(9, n as int) =~= chars@.skip(9));
        if same_chars(&to_lower(part(&chars, 0, 9)), &to_chars("user.ark.")) {
            return Some(from_chars(&to_lower(part(&chars, 9, n))));
        }
    }
    if n > 11 {
        assert(chars@.subrange(0, 11) =~= chars@.take(11));
        assert(chars@.subrange(11, n as int) =~= chars@.skip(11));
        if same_chars(&to_lower(part(&chars, 0, 11)), &to_chars("x-ark-meta-")) {
            return Some(from_chars(&to_lower(&with_underscores(part(&chars, 11, n)))));
        }
    }
    None
}

/// The member number and the member's field that a field stands for.
pub open spec fn member_key(key: Seq<char>) -> Option<(nat, Seq<char>)> {
    match after_prefix(key, "member_"@) {
        Some(rest) => {
            let at = first(rest, '_');
            if at < rest.len() {
                match parsed(rest.take(at as int), usize::MAX as nat) {
                    Some(i) => Some((i, rest.skip(at as int + 1))),
                    None => None,
                }
            } else {
                None
            }
        },
        None => None,
    }
}

fn split_member_key(key: &str) -> (r: Option<(usize, String)>)
    ensures
        r is Some <==> member_key(key@) is Some,
        r matches Some(k) ==> member_key(key@) == Some((k.0 as nat, k.1@)),
{
    let rest = match strip_prefix(key, "member_") {
        Some(s) => to_chars(&s),
        None => {
            return None;
        },
    };
    let n: usize = rest.len();
    let at: usize = find(&rest, '_');
    if at == n {
        return None;
    }
    assert(rest@.subrange(0, at as int) =~= rest@.take(at as int));
    assert(rest@.subrange(at + 1, n as int) =~= rest@.skip(at + 1));
    match parse_usize(part(&rest, 0, at)) {
        Some(i) => Some((i, from_chars(part(&rest, at + 1, n)))),
        None => None,
    }
}

// Reading.

/// Metadata as far as it has been read.
#[derive(Debug)]
pub struct PartialMetadata {
    pub id: Option<String>,
    pub created: Option<String>,
    pub modified: Option<String>,
    pub modified_by: Option<String>,
    pub encryption_algorithm: Option<String>,
    pub members: Vec<PartialMember>,
    pub body_hash_algorithm: Option<String>,
    pub body_hash_value: Option<Vec<u8>>,
    pub signature_algorithm: Option<String>,
    pub signature_value: Option<Vec<u8>>,
}

/// A member as far as it has been read.
#[derive(Debug)]
pub struct PartialMember {
    pub address: Option<String>,
    pub permission: Option<Permission>,
    pub key_algorithm: Option<String>,
    pub key_value: Option<Vec<u8>>,
}

/// The view of partial metadata.
#[verifier::ext_equal]
pub struct PartialV {
    pub id: Option<Seq<char>>,
    pub created: Option<Seq<char>>,
    pub modified: Option<Seq<char>>,
    pub modified_by: Option<Seq<char>>,
    pub encryption_algorithm: Option<Seq<char>>,
    pub members: Seq<PartialMemberV>,
    pub body_hash_algorithm: Option<Seq<char>>,
    pub body_hash_value: Option<Seq<u8>>,
    pub signature_algorithm: Option<Seq<char>>,
    pub signature_value: Option<Seq<u8>>,
}

/// The view of a partial member.
#[verifier::ext_equal]
pub struct PartialMemberV {
    pub address: Option<Seq<char>>,
    pub permission: Option<Permission>,
    pub key_algorithm: Option<Seq<char>>,
    pub key_value: Option<Seq<u8>>,
}

impl View for PartialMember {
    type V = PartialMemberV;

    open spec fn view(&self) -> PartialMemberV {
        PartialMemberV {
            address: opt_text(self.address),
            permission: self.permission,
            key_algorithm: opt_text(self.key_algorithm),
            key_value: opt_bytes(self.key_value),
        }
    }
}

/// The views of a list of partial members.
pub open spec fn partials_view(list: Seq<PartialMember>) -> Seq<PartialMemberV> {
    list.map_values(|m: PartialMember| m@)
}

impl View for PartialMetadata {
    type V = PartialV;

    open spec fn view(&self) -> PartialV {
        PartialV {
            id: opt_text(self.id),
            created: opt_text(self.created),
            modified: opt_text(self.modified),
            modified_by: opt_text(self.modified_by),
            encryption_algorithm: opt_text(self.encryption_algorithm),
            members: partials_view(self.members@),
            body_hash_algorithm: opt_text(self.body_hash_algorithm),
            body_hash_value: opt_bytes(self.body_hash_value),
            signature_algorithm: opt_text(self.signature_algorithm),
            signature_value: opt_bytes(self.signature_value),
        }
    }
}

/// A member of which nothing has been read.
pub open spec fn no_member() -> PartialMemberV {
    PartialMemberV { address: None, permission: None, key_algorithm: None, key_value: None }
}

/// Metadata of which nothing has been read.
pub open spec fn no_metadata() -> PartialV {
    PartialV {
        id: None,
        created: None,
        modified: None,
        modified_by: None,
        encryption_algorithm: None,
        members: Seq::empty(),
        body_hash_algorithm: None,
        body_hash_value: None,
        signature_algorithm: None,
        signature_value: None,
    }
}

/// The members with room for at least `n` of them.
pub open spec fn grown(members: Seq<PartialMemberV>, n: nat) -> Seq<PartialMemberV> {
    if members.len() >= n {
        members
    } else {
        members + Seq::new((n - members.len()) as nat, |i: int| no_member())
    }
}

/// A member after one of its fields has been read.
pub open spec fn member_set(m: PartialMemberV, field: Seq<char>, value: Seq<char>) -> Result<PartialMemberV, ErrorV> {
    if field == "address"@ {
        Ok(PartialMemberV { address: Some(value), ..m })
    } else if field == "permission"@ {
        match permission_named(value) {
            Some(p) => Ok(PartialMemberV { permission: Some(p), ..m }),
            None => Err(with(Fault::UnknownPermission, value)),
        }
    } else if field == "key_algorithm"@ {
        Ok(PartialMemberV { key_algorithm: Some(value), ..m })
    } else if field == "key_value"@ {
        match decoded(value) {
            Some(b) => Ok(PartialMemberV { key_value: Some(b), ..m }),
            None => Err(bare(Fault::KeyNotBase64)),
        }
    } else {
        Ok(m)
    }
}

/// Metadata after one of its fields has been read.
pub open spec fn field_set(p: PartialV, key: Seq<char>, value: Seq<char>) -> Result<PartialV, ErrorV> {
    if key == "id"@ {
        Ok(PartialV { id: Some(value), ..p })
    } else if key == "created"@ {
        Ok(PartialV { created: Some(value), ..p })
    } else if key == "modified"@ {
        Ok(PartialV { modified: Some(value), ..p })
    } else if key == "modified_by"@ {
        Ok(PartialV { modified_by: Some(value), ..p })
    } else if key == "encryption_algorithm"@ {
        Ok(PartialV { encryption_algorithm: Some(value), ..p })
    } else if key == "body_hash_algorithm"@ {
        Ok(PartialV { body_hash_algorithm: Some(value), ..p })
    } else if key == "body_hash_value"@ {
        match decoded(value) {
            Some(b) => Ok(PartialV { body_hash_value: Some(b), ..p }),
            None => Err(bare(Fault::BodyHashNotBase64)),
        }
    } else if key == "signature_algorithm"@ {
        Ok(PartialV { signature_algorithm: Some(value), ..p })
    } else if key == "signature_value"@ {
        match decoded(value) {
            Some(b) => Ok(PartialV { signature_value: Some(b), ..p }),
            None => Err(bare(Fault::SignatureNotBase64)),
        }
    } else {
        match member_key(key) {
            Some((i, field)) => {
                let members = grown(p.members, i + 1);
                match member_set(members[i as int], field, value) {
                    Ok(m) => Ok(PartialV { members: members.update(i as int, m), ..p }),
                    Err(e) => Err(e),
                }
            },
            None => Ok(p),
        }
    }
}

/// Metadata after a named value has been read. Names that stand for no field
/// change nothing.
pub open spec fn field_step(p: PartialV, name: Seq<char>, value: Seq<char>) -> Result<PartialV, ErrorV> {
    match metadata_key(name) {
        Some(key) => field_set(p, key, value),
        None => Ok(p),
    }
}

/// Metadata after a list of named values has been read in order.
pub open spec fn fields_read(list: Seq<(Seq<char>, Seq<char>)>) -> Result<PartialV, ErrorV>
    decreases list.len(),
{
    if list.len() == 0 {
        Ok(no_metadata())
    } else {
        match fields_read(list.drop_last()) {
            Ok(p) => field_step(p, list.last().0, list.last().1),
            Err(e) => Err(e),
        }
    }
}

impl PartialMetadata {
    fn new() -> (r: PartialMetadata)
        ensures
            r@ == no_metadata(),
    {
        let r = PartialMetadata {
            id: None,
            created: None,
            modified: None,
            modified_by: None,
            encryption_algorithm: None,
            members: Vec::new(),
            body_hash_algorithm: None,
            body_hash_value: None,
            signature_algorithm: None,
            signature_value: None,
        };
        assert(r@ =~= no_metadata());
        r
    }
}

fn grow(members: &mut Vec<PartialMember>, index: usize)
    ensures
        final(members)@.len() > index,
        partials_view(final(members)@) == grown(partials_view(old(members)@), index as nat + 1),
{
    while members.len() <= index
        invariant
            members@.len() >= old(members)@.len(),
            members@.len() <= index + 1 || members@.len() == old(members)@.len(),
            forall|k: int|
                0 <= k < members@.len() ==> #[trigger] members@[k]@ == grown(
                    partials_view(old(members)@),
                    members@.len(),
                )[k],
        decreases index + 1 - members@.len(),
    {
        members.push(PartialMember { address: None, permission: None, key_algorithm: None, key_value: None });
    }
    assert(partials_view(members@) =~= grown(partials_view(old(members)@), index as nat + 1));
}

fn set_member_field(member: &mut PartialMember, field: &str, value: &str) -> (r: Result<(), Error>)
    ensures
        r is Ok ==> member_set(old(member)@, field@, value@) == Ok::<PartialMemberV, ErrorV>(final(member)@),
        r matches Err(e) ==> member_set(old(member)@, field@, value@) == Err::<PartialMemberV, ErrorV>(e@),
{
    if same(field, "address") {
        member.address = Some(value.to_owned());
    } else if same(field, "permission") {
        match Permission::parse(value) {
            Some(p) => {
                member.permission = Some(p);
            },
            None => {
                return Err(fail_with(Fault::UnknownPermission, value.to_owned()));
            },
        }
    } else if same(field, "key_algorithm") {
        member.key_algorithm = Some(value.to_owned());
    } else if same(field, "key_value") {
        match decode_base64url(value) {
            Some(b) => {
                member.key_value = Some(b);
            },
            None => {
                return Err(fail(Fault::KeyNotBase64));
            },
        }
    }
    Ok(())
}

fn apply_field(metadata: &mut PartialMetadata, key: &str, value: &str) -> (r: Result<(), Error>)
    ensures
        r is Ok ==> field_step(old(metadata)@, key@, value@) == Ok::<PartialV, ErrorV>(final(metadata)@),
        r matches Err(e) ==> field_step(old(metadata)@, key@, value@) == Err::<PartialV, ErrorV>(e@),
{
    let field = match get_metadata_key(key) {
        Some(s) => s,
        None => {
            return Ok(());
        },
    };
    if same(&field, "id") {
        metadata.id = Some(value.to_owned());
    } else if same(&field, "created") {
        metadata.created = Some(value.to_owned());
    } else if same(&field, "modified") {
        metadata.modified = Some(value.to_owned());
    } else if same(&field, "modified_by") {
        metadata.modified_by = Some(value.to_owned());
    } else if same(&field, "encryption_algorithm") {
        metadata.encryption_algorithm = Some(value.to_owned());
    } else if same(&field, "body_hash_algorithm") {
        metadata.body_hash_algorithm = Some(value.to_owned());
    } else if same(&field, "body_hash_value") {
        match decode_base64url(value) {
            Some(b) => {
                metadata.body_hash_value = Some(b);
            },
            None => {
                return Err(fail(Fault::BodyHashNotBase64));
            },
        }
    } else if same(&field, "signature_algorithm") {
        metadata.signature_algorithm = Some(value.to_owned());
    } else if same(&field, "signature_value") {
        match decode_base64url(value) {
            Some(b) => {
                metadata.signature_value = Some(b);
            },
            None => {
                return Err(fail(Fault::SignatureNotBase64));
            },
        }
    } else {
        match split_member_key(&field) {
            Some((index, member_field)) => {
                grow(&mut metadata.members, index);
                let ghost members = metadata.members@;
                assert(partials_view(members)[index as int] == members[index as int]@);
                match set_member_field(&mut metadata.members[index], &member_field, value) {
                    Ok(()) => {
                        assert(partials_view(metadata.members@) =~= partials_view(members).update(
                            index as int,
                            metadata.members@[index as int]@,
                        ));
                    },
                    Err(e) => {
                        return Err(e);
                    },
                }
            },
            None => {},
        }
    }
    Ok(())
}

/// What is missing from the first incomplete member, if any is incomplete.
pub open spec fn members_fault(members: Seq<PartialMemberV>) -> Option<ErrorV>
    decreases members.len(),
{
    if members.len() == 0 {
        None
    } else if members[0].address is None {
        Some(bare(Fault::MissingMemberAddress))
    } else if members[0].permission is None {
        Some(bare(Fault::MissingMemberPermission))
    } else {
        members_fault(members.skip(1))
    }
}

/// What is missing first, if anything is.
pub open spec fn partial_fault(p: PartialV) -> Option<ErrorV> {
    if p.id is None {
        Some(bare(Fault::MissingId))
    } else if p.created is None {
        Some(bare(Fault::MissingCreated))
    } else if p.modified is None {
        Some(bare(Fault::MissingModified))
    } else if p.modified_by is None {
        Some(bare(Fault::MissingModifiedBy))
    } else if p.signature_algorithm is None {
        Some(bare(Fault::MissingSignatureAlgorithm))
    } else if p.signature_value is None {
        Some(bare(Fault::MissingSignature))
    } else {
        members_fault(p.members)
    }
}

fn validate_partial_metadata(metadata: &PartialMetadata) -> (r: Result<(), Error>)
    ensures
        r is Ok ==> partial_fault(metadata@) is None,
        r matches Err(e) ==> partial_fault(metadata@) == Some(e@),
{
    if metadata.id.is_none() {
        return Err(fail(Fault::MissingId));
    }
    if metadata.created.is_none() {
        return Err(fail(Fault::MissingCreated));
    }
    if metadata.modified.is_none() {
        return Err(fail(Fault::MissingModified));
    }
    if metadata.modified_by.is_none() {
        return Err(fail(Fault::MissingModifiedBy));
    }
    if metadata.signature_algorithm.is_none() {
        return Err(fail(Fault::MissingSignatureAlgorithm));
    }
    if metadata.signature_value.is_none() {
        return Err(fail(Fault::MissingSignature));
    }
    let n: usize = metadata.members.len();
    let mut i: usize = 0;
    let ghost all = partials_view(metadata.members@);
    assert(all.skip(0) =~= all);
    while i < n
        invariant
            i <= n == metadata.members@.len(),
            all == partials_view(metadata.members@),
            members_fault(all.skip(i as int)) == partial_fault(metadata@),
        decreases n - i,
    {
        assert(all.skip(i as int)[0] == metadata.members@[i as int]@);
        assert(all.skip(i as int).skip(1) =~= all.skip(i + 1));
        if metadata.members[i].address.is_none() {
            return Err(fail(Fault::MissingMemberAddress));
        }
        if metadata.members[i].permission.is_none() {
            return Err(fail(Fault::MissingMemberPermission));
        }
        i = i + 1;
    }
    Ok(())
}

/// A key or hash of which both parts were read.
pub open spec fn both(algorithm: Option<Seq<char>>, value: Option<Seq<u8>>) -> Option<Tagged> {
    match (algorithm, value) {
        (Some(algorithm), Some(value)) => Some(Tagged { algorithm, value }),
        _ => None,
    }
}

/// The member that was read.
pub open spec fn completed_member(m: PartialMemberV) -> MemberV {
    MemberV {
        address: m.address->0,
        permission: m.permission->0,
        key: both(m.key_algorithm, m.key_value),
    }
}

/// The metadata that was read.
pub open spec fn completed(p: PartialV) -> MetadataV {
    MetadataV {
        id: p.id->0,
        created: p.created->0,
        modified: p.modified->0,
        modified_by: p.modified_by->0,
        encryption_algorithm: p.encryption_algorithm,
        members: p.members.map_values(|m: PartialMemberV| completed_member(m)),
        body_hash: both(p.body_hash_algorithm, p.body_hash_value),
        signature: Tagged { algorithm: p.signature_algorithm->0, value: p.signature_value->0 },
    }
}

proof fn lemma_members_complete(members: Seq<PartialMemberV>, i: int)
    requires
        members_fault(members) is None,
        0 <= i < members.len(),
    ensures
        members[i].address is Some,
        members[i].permission is Some,
    decreases members.len(),
{
    if i > 0 {
        lemma_members_complete(members.skip(1), i - 1);
    }
}

fn metadata_from_partial(partial: PartialMetadata) -> (r: Metadata)
    requires
        partial_fault(partial@) is None,
    ensures
        r@ == completed(partial@),
{
    let ghost before = partial@;
    let mut members: Vec<Member> = Vec::new();
    let n: usize = partial.members.len();
    let mut i: usize = 0;
    while i < n
        invariant
            i <= n == partial.members@.len(),
            partial_fault(partial@) is None,
            members@.len() == i,
            forall|k: int| 0 <= k < i ==> #[trigger] members@[k]@ == completed_member(partial.members@[k]@),
        decreases n - i,
    {
        proof {
            lemma_members_complete(partial@.members, i as int);
            assert(partial@.members[i as int] == partial.members@[i as int]@);
        }
        let member = &partial.members[i];
        let key = match (&member.key_algorithm, &member.key_value) {
            (Some(algorithm), Some(value)) => Some(
                Key { algorithm: algorithm.clone(), value: crate::text::copy_bytes(value) },
            ),
            _ => None,
        };
        let address = match &member.address {
            Some(a) => a.clone(),
            None => String::new(),
        };
        let permission = match member.permission {
            Some(p) => p,
            None => Permission::Reader,
        };
        members.push(Member { address, permission, key });
        i = i + 1;
    }
    let body_hash = match (partial.body_hash_algorithm, partial.body_hash_value) {
        (Some(algorithm), Some(value)) => Some(crate::types::Hash { algorithm, value }),
        _ => None,
    };
    let r = Metadata {
        id: partial.id.unwrap(),
        created: partial.created.unwrap(),
        modified: partial.modified.unwrap(),
        modified_by: partial.modified_by.unwrap(),
        encryption_algorithm: partial.encryption_algorithm,
        members,
        body_hash,
        signature: Signature {
            algorithm: partial.signature_algorithm.unwrap(),
            value: partial.signature_value.unwrap(),
        },
    };
    proof {
        assert forall|k: int| 0 <= k < n implies #[trigger] members_view(members@)[k] == completed(
            before,
        ).members[k] by {
            assert(before.members[k] == partial.members@[k]@);
        }
        assert(members_view(members@) =~= completed(before).members);
    }
    r
}

/// Whether some member is an owner.
pub open spec fn has_owner(members: Seq<MemberV>) -> bool {
    exists|i: int| 0 <= i < members.len() && (#[trigger] members[i]).permission == Permission::Owner
}

/// Refuses metadata without an owner.
pub fn validate_metadata(metadata: &Metadata) -> (r: Result<(), Error>)
    ensures
        r is Ok <==> has_owner(metadata@.members),
        r matches Err(e) ==> e@ == bare(Fault::NoOwner),
{
    let n: usize = metadata.members.len();
    let mut i: usize = 0;
    while i < n
        invariant
            i <= n == metadata.members@.len(),
            forall|k: int| 0 <= k < i ==> (#[trigger] metadata@.members[k]).permission != Permission::Owner,
        decreases n - i,
    {
        if metadata.members[i].permission == Permission::Owner {
            assert(metadata@.members[i as int].permission == Permission::Owner);
            return Ok(());
        }
        i = i + 1;
    }
    Err(fail(Fault::NoOwner))
}

/// The metadata that named values stand for.
pub open spec fn metadata_of(list: Seq<(Seq<char>, Seq<char>)>) -> Result<MetadataV, ErrorV> {
    match fields_read(list) {
        Ok(p) => match partial_fault(p) {
            None => if has_owner(completed(p).members) {
                Ok(completed(p))
            } else {
                Err(bare(Fault::NoOwner))
            },
            Some(e) => Err(e),
        },
        Err(e) => Err(e),
    }
}

fn finish(partial: PartialMetadata) -> (r: Result<Metadata, Error>)
    ensures
        seen(r) == (match partial_fault(partial@) {
            None => if has_owner(completed(partial@).members) {
                Ok(completed(partial@))
            } else {
                Err(bare(Fault::NoOwner))
            },
            Some(e) => Err(e),
        }),
{
    match validate_partial_metadata(&partial) {
        Ok(()) => {},
        Err(e) => {
            return Err(e);
        },
    }
    let metadata = metadata_from_partial(partial);
    match validate_metadata(&metadata) {
        Ok(()) => Ok(metadata),
        Err(e) => Err(e),
    }
}

/// The metadata in message headers.
pub fn read_metadata_headers(headers: &[(String, String)]) -> (r: Result<Metadata, Error>)
    ensures
        seen(r) == metadata_of(pairs(headers@)),
{
    let mut partial = PartialMetadata::new();
    let n: usize = headers.len();
    let mut i: usize = 0;
    let ghost list = pairs(headers@);
    assert(list.take(0).len() == 0);
    while i < n
        invariant
            i <= n == headers@.len(),
            list == pairs(headers@),
            fields_read(list.take(i as int)) == Ok::<PartialV, ErrorV>(partial@),
        decreases n - i,
    {
        proof {
            assert(list.take(i + 1).drop_last() =~= list.take(i as int));
            assert(list.take(i + 1).last() == (headers@[i as int].0@, headers@[i as int].1@));
        }
        match apply_field(&mut partial, &headers[i].0, &headers[i].1) {
            Ok(()) => {},
            Err(e) => {
                proof {
                    lemma_fault_stays(list, i + 1);
                }
                return Err(e);
            },
        }
        i = i + 1;
    }
    assert(list.take(n as int) =~= list);
    finish(partial)
}

/// Reading stops at the first fault.
proof fn lemma_fault_stays(list: Seq<(Seq<char>, Seq<char>)>, i: int)
    requires
        0 <= i <= list.len(),
        fields_read(list.take(i)) is Err,
    ensures
        fields_read(list) == fields_read(list.take(i)),
    decreases list.len() - i,
{
    if i == list.len() {
        assert(list.take(i) =~= list);
    } else {
        assert(list.take(i + 1).drop_last() =~= list.take(i));
        lemma_fault_stays(list, i + 1);
    }
}

/// Named byte strings, such as file attributes.
pub open spec fn byte_pairs(list: Seq<(String, Vec<u8>)>) -> Seq<(Seq<char>, Seq<u8>)> {
    list.map_values(|p: (String, Vec<u8>)| (p.0@, p.1@))
}

/// Metadata after a list of file attributes has been read in order. Only names
/// with the attribute prefix count, and their values must be UTF-8.
pub open spec fn attributes_read(list: Seq<(Seq<char>, Seq<u8>)>) -> Result<PartialV, ErrorV>
    decreases list.len(),
{
    if list.len() == 0 {
        Ok(no_metadata())
    } else {
        match attributes_read(list.drop_last()) {
            Ok(p) => {
                let (name, value) = list.last();
                if !"user.ark."@.is_prefix_of(name) {
                    Ok(p)
                } else if !valid_utf8(value) {
                    Err(with(Fault::AttributeNotUtf8, name))
                } else {
                    field_step(p, name, decode_utf8(value))
                }
            },
            Err(e) => Err(e),
        }
    }
}

/// The metadata that file attributes stand for.
pub open spec fn metadata_of_attributes(list: Seq<(Seq<char>, Seq<u8>)>) -> Result<MetadataV, ErrorV> {
    match attributes_read(list) {
        Ok(p) => match partial_fault(p) {
            None => if has_owner(completed(p).members) {
                Ok(completed(p))
            } else {
                Err(bare(Fault::NoOwner))
            },
            Some(e) => Err(e),
        },
        Err(e) => Err(e),
    }
}

proof fn lemma_attribute_fault_stays(list: Seq<(Seq<char>, Seq<u8>)>, i: int)
    requires
        0 <= i <= list.len(),
        attributes_read(list.take(i)) is Err,
    ensures
        attributes_read(list) == attributes_read(list.take(i)),
    decreases list.len() - i,
{
    if i == list.len() {
        assert(list.take(i) =~= list);
    } else {
        assert(list.take(i + 1).drop_last() =~= list.take(i));
        lemma_attribute_fault_stays(list, i + 1);
    }
}

/// The metadata in file attributes.
pub fn read_metadata_attributes(attributes: &[(String, Vec<u8>)]) -> (r: Result<Metadata, Error>)
    ensures
        seen(r) == metadata_of_attributes(byte_pairs(attributes@)),
{
    let mut partial = PartialMetadata::new();
    let n: usize = attributes.len();
    let mut i: usize = 0;
    let ghost list = byte_pairs(attributes@);
    assert(list.take(0).len() == 0);
    while i < n
        invariant
            i <= n == attributes@.len(),
            list == byte_pairs(attributes@),
            attributes_read(list.take(i as int)) == Ok::<PartialV, ErrorV>(partial@),
        decreases n - i,
    {
        proof {
            assert(list.take(i + 1).drop_last() =~= list.take(i as int));
            assert(list.take(i + 1).last() == (attributes@[i as int].0@, attributes@[i as int].1@));
        }
        let name = &attributes[i].0;
        if starts_with(&to_chars(name), &to_chars("user.ark.")) {
            match utf8_text(&attributes[i].1) {
                Some(value) => match apply_field(&mut partial, name, &value) {
                    Ok(()) => {},
                    Err(e) => {
                        proof {
                            lemma_attribute_fault_stays(list, i + 1);
                        }
                        return Err(e);
                    },
                },
                None => {
                    proof {
                        lemma_attribute_fault_stays(list, i + 1);
                    }
                    return Err(fail_with(Fault::AttributeNotUtf8, name.clone()));
                },
            }
        }
        i = i + 1;
    }
    assert(list.take(n as int) =~= list);
    finish(partial)
}

// Writing.

/// A field of metadata.
#[derive(Clone, Copy, PartialEq, Eq, Structural)]
pub enum Field {
    Id,
    Created,
    Modified,
    ModifiedBy,
    EncryptionAlgorithm,
    BodyHashAlgorithm,
    BodyHashValue,
    SignatureAlgorithm,
    SignatureValue,
    MemberAddress(usize),
    MemberPermission(usize),
    MemberKeyAlgorithm(usize),
    MemberKeyValue(usize),
}

/// The field's own name.
pub open spec fn key_of(f: Field) -> Seq<char> {
    match f {
        Field::Id => "id"@,
        Field::Created => "created"@,
        Field::Modified => "modified"@,
        Field::ModifiedBy => "modified_by"@,
        Field::EncryptionAlgorithm => "encryption_algorithm"@,
        Field::BodyHashAlgorithm => "body_hash_algorithm"@,
        Field::BodyHashValue => "body_hash_value"@,
        Field::SignatureAlgorithm => "signature_algorithm"@,
        Field::SignatureValue => "signature_value"@,
        Field::MemberAddress(i) => "member_"@ + decimal(i as nat) + "_address"@,
        Field::MemberPermission(i) => "member_"@ + decimal(i as nat) + "_permission"@,
        Field::MemberKeyAlgorithm(i) => "member_"@ + decimal(i as nat) + "_key_algorithm"@,
        Field::MemberKeyValue(i) => "member_"@ + decimal(i as nat) + "_key_value"@,
    }
}

/// The name of the header that carries the field.
pub open spec fn header_name(f: Field) -> Seq<char> {
    match f {
        Field::Id => "X-Ark-Meta-Id"@,
        Field::Created => "X-Ark-Meta-Created"@,
        Field::Modified => "X-Ark-Meta-Modified"@,
        Field::ModifiedBy => "X-Ark-Meta-Modified-By"@,
        Field::EncryptionAlgorithm => "X-Ark-Meta-Encryption-Algorithm"@,
        Field::BodyHashAlgorithm => "X-Ark-Meta-Body-Hash-Algorithm"@,
        Field::BodyHashValue => "X-Ark-Meta-Body-Hash-Value"@,
        Field::SignatureAlgorithm => "X-Ark-Meta-Signature-Algorithm"@,
        Field::SignatureValue => "X-Ark-Meta-Signature-Value"@,
        Field::MemberAddress(i) => "X-Ark-Meta-Member-"@ + decimal(i as nat) + "-Address"@,
        Field::MemberPermission(i) => "X-Ark-Meta-Member-"@ + decimal(i as nat) + "-Permission"@,
        Field::MemberKeyAlgorithm(i) => "X-Ark-Meta-Member-"@ + decimal(i as nat) + "-Key-Algorithm"@,
        Field::MemberKeyValue(i) => "X-Ark-Meta-Member-"@ + decimal(i as nat) + "-Key-Value"@,
    }
}

/// The name of the file attribute that carries the field.
pub open spec fn attribute_name(f: Field) -> Seq<char> {
    match f {
        Field::Id => "user.ark.id"@,
        Field::Created => "user.ark.created"@,
        Field::Modified => "user.ark.modified"@,
        Field::ModifiedBy => "user.ark.modified_by"@,
        Field::EncryptionAlgorithm => "user.ark.encryption_algorithm"@,
        Field::BodyHashAlgorithm => "user.ark.body_hash_algorithm"@,
        Field::BodyHashValue => "user.ark.body_hash_value"@,
        Field::SignatureAlgorithm => "user.ark.signature_algorithm"@,
        Field::SignatureValue => "user.ark.signature_value"@,
        Field::MemberAddress(i) => "user.ark.member_"@ + decimal(i as nat) + "_address"@,
        Field::MemberPermission(i) => "user.ark.member_"@ + decimal(i as nat) + "_permission"@,
        Field::MemberKeyAlgorithm(i) => "user.ark.member_"@ + decimal(i as nat) + "_key_algorithm"@,
        Field::MemberKeyValue(i) => "user.ark.member_"@ + decimal(i as nat) + "_key_value"@,
    }
}

impl Field {
    fn header(self) -> (r: String)
        ensures
            r@ == header_name(self),
    {
        match self {
            Field::Id => "X-Ark-Meta-Id".to_owned(),
            Field::Created => "X-Ark-Meta-Created".to_owned(),
            Field::Modified => "X-Ark-Meta-Modified".to_owned(),
            Field::ModifiedBy => "X-Ark-Meta-Modified-By".to_owned(),
            Field::EncryptionAlgorithm => "X-Ark-Meta-Encryption-Algorithm".to_owned(),
            Field::BodyHashAlgorithm => "X-Ark-Meta-Body-Hash-Algorithm".to_owned(),
            Field::BodyHashValue => "X-Ark-Meta-Body-Hash-Value".to_owned(),
            Field::SignatureAlgorithm => "X-Ark-Meta-Signature-Algorithm".to_owned(),
            Field::SignatureValue => "X-Ark-Meta-Signature-Value".to_owned(),
            Field::MemberAddress(i) => concat3("X-Ark-Meta-Member-", &format_usize(i), "-Address"),
            Field::MemberPermission(i) => concat3("X-Ark-Meta-Member-", &format_usize(i), "-Permission"),
            Field::MemberKeyAlgorithm(i) => concat3("X-Ark-Meta-Member-", &format_usize(i), "-Key-Algorithm"),
            Field::MemberKeyValue(i) => concat3("X-Ark-Meta-Member-", &format_usize(i), "-Key-Value"),
        }
    }

    fn attribute(self) -> (r: String)
        ensures
            r@ == attribute_name(self),
    {
        match self {
            Field::Id => "user.ark.id".to_owned(),
            Field::Created => "user.ark.created".to_owned(),
            Field::Modified => "user.ark.modified".to_owned(),
            Field::ModifiedBy => "user.ark.modified_by".to_owned(),
            Field::EncryptionAlgorithm => "user.ark.encryption_algorithm".to_owned(),
            Field::BodyHashAlgorithm => "user.ark.body_hash_algorithm".to_owned(),
            Field::BodyHashValue => "user.ark.body_hash_value".to_owned(),
            Field::SignatureAlgorithm => "user.ark.signature_algorithm".to_owned(),
            Field::SignatureValue => "user.ark.signature_value".to_owned(),
            Field::MemberAddress(i) => concat3("user.ark.member_", &format_usize(i), "_address"),
            Field::MemberPermission(i) => concat3("user.ark.member_", &format_usize(i), "_permission"),
            Field::MemberKeyAlgorithm(i) => concat3("user.ark.member_", &format_usize(i), "_key_algorithm"),
            Field::MemberKeyValue(i) => concat3("user.ark.member_", &format_usize(i), "_key_value"),
        }
    }
}

/// The fields of a member with their values: the address, the permission and,
/// where the member has one, the wrapped key.
pub open spec fn member_fields(i: int, m: MemberV) -> Seq<(Field, Seq<char>)> {
    let base = seq![
        (Field::MemberAddress(i as usize), m.address),
        (Field::MemberPermission(i as usize), permission_name(m.permission)),
    ];
    match m.key {
        Some(key) => base + seq![
            (Field::MemberKeyAlgorithm(i as usize), key.algorithm),
            (Field::MemberKeyValue(i as usize), encoded(key.value)),
        ],
        None => base,
    }
}

/// The fields of a list of members with their values.
pub open spec fn all_member_fields(members: Seq<MemberV>) -> Seq<(Field, Seq<char>)>
    decreases members.len(),
{
    if members.len() == 0 {
        Seq::empty()
    } else {
        all_member_fields(members.drop_last()) + member_fields(members.len() - 1, members.last())
    }
}

/// The fields of metadata with their values, in the order in which they are
/// written.
pub open spec fn fields_of(m: MetadataV) -> Seq<(Field, Seq<char>)> {
    let base = seq![
        (Field::Id, m.id),
        (Field::Created, m.created),
        (Field::Modified, m.modified),
        (Field::ModifiedBy, m.modified_by),
    ];
    let encryption = match m.encryption_algorithm {
        Some(a) => seq![(Field::EncryptionAlgorithm, a)],
        None => Seq::empty(),
    };
    let hash = match m.body_hash {
        Some(h) => seq![(Field::BodyHashAlgorithm, h.algorithm), (Field::BodyHashValue, encoded(h.value))],
        None => Seq::empty(),
    };
    let signature = seq![
        (Field::SignatureAlgorithm, m.signature.algorithm),
        (Field::SignatureValue, encoded(m.signature.value)),
    ];
    base + encryption + hash + signature + all_member_fields(m.members)
}

/// The headers that carry metadata.
pub open spec fn header_fields(m: MetadataV) -> Seq<(Seq<char>, Seq<char>)> {
    fields_of(m).map_values(|p: (Field, Seq<char>)| (header_name(p.0), p.1))
}

/// The file attributes that carry metadata.
pub open spec fn attribute_fields(m: MetadataV) -> Seq<(Seq<char>, Seq<u8>)> {
    fields_of(m).map_values(|p: (Field, Seq<char>)| (attribute_name(p.0), encode_utf8(p.1)))
}

/// The views of a list of fields with their values.
pub open spec fn field_pairs(list: Seq<(Field, String)>) -> Seq<(Field, Seq<char>)> {
    list.map_values(|p: (Field, String)| (p.0, p.1@))
}

fn push_field(out: &mut Vec<(Field, String)>, field: Field, value: String)
    ensures
        field_pairs(final(out)@) == field_pairs(old(out)@).push((field, value@)),
{
    out.push((field, value));
    assert(field_pairs(out@) =~= field_pairs(old(out)@).push((field, value@)));
}

fn write_fields(metadata: &Metadata) -> (r: Vec<(Field, String)>)
    ensures
        field_pairs(r@) == fields_of(metadata@),
{
    let mut out: Vec<(Field, String)> = Vec::new();
    assert(field_pairs(out@) =~= Seq::empty());
    push_field(&mut out, Field::Id, metadata.id.clone());
    push_field(&mut out, Field::Created, metadata.created.clone());
    push_field(&mut out, Field::Modified, metadata.modified.clone());
    push_field(&mut out, Field::ModifiedBy, metadata.modified_by.clone());
    if let Some(algorithm) = &metadata.encryption_algorithm {
        push_field(&mut out, Field::EncryptionAlgorithm, algorithm.clone());
    }
    if let Some(hash) = &metadata.body_hash {
        push_field(&mut out, Field::BodyHashAlgorithm, hash.algorithm.clone());
        push_field(&mut out, Field::BodyHashValue, encode_base64url(&hash.value));
    }
    push_field(&mut out, Field::SignatureAlgorithm, metadata.signature.algorithm.clone());
    push_field(&mut out, Field::SignatureValue, encode_base64url(&metadata.signature.value));
    let ghost base = field_pairs(out@);
    let ghost all = metadata@.members;
    let n: usize = metadata.members.len();
    let mut i: usize = 0;
    assert(base + all_member_fields(all.take(0)) =~= base);
    while i < n
        invariant
            i <= n == metadata.members@.len(),
            all == members_view(metadata.members@),
            field_pairs(out@) == base + all_member_fields(all.take(i as int)),
        decreases n - i,
    {
        let member = &metadata.members[i];
        let ghost earlier = field_pairs(out@);
        push_field(&mut out, Field::MemberAddress(i), member.address.clone());
        push_field(&mut out, Field::MemberPermission(i), member.permission.as_str().to_owned());
        if let Some(key) = &member.key {
            push_field(&mut out, Field::MemberKeyAlgorithm(i), key.algorithm.clone());
            push_field(&mut out, Field::MemberKeyValue(i), encode_base64url(&key.value));
        }
        proof {
            assert(all.take(i + 1).drop_last() =~= all.take(i as int));
            assert(all.take(i + 1).last() == member@);
            assert(field_pairs(out@) =~= earlier + member_fields(i as int, member@));
            assert(field_pairs(out@) =~= base + all_member_fields(all.take(i + 1)));
        }
        i = i + 1;
    }
    proof {
        assert(all.take(n as int) =~= all);
        assert(field_pairs(out@) =~= fields_of(metadata@));
    }
    out
}

/// The headers that carry metadata.
pub fn write_metadata_headers(metadata: &Metadata) -> (r: Vec<(String, String)>)
    ensures
        pairs(r@) == header_fields(metadata@),
{
    let fields = write_fields(metadata);
    let mut out: Vec<(String, String)> = Vec::new();
    let n: usize = fields.len();
    let mut i: usize = 0;
    while i < n
        invariant
            i <= n == fields@.len(),
            out@.len() == i,
            forall|k: int|
                0 <= k < i ==> (#[trigger] out@[k]).0@ == header_name(fields@[k].0) && out@[k].1@ == fields@[k].1@,
        decreases n - i,
    {
        out.push((fields[i].0.header(), fields[i].1.clone()));
        i = i + 1;
    }
    proof {
        assert forall|k: int| 0 <= k < n implies #[trigger] pairs(out@)[k] == header_fields(metadata@)[k] by {
            assert(field_pairs(fields@)[k] == (fields@[k].0, fields@[k].1@));
            assert((out@[k].0@, out@[k].1@) == (header_name(fields@[k].0), fields@[k].1@));
        }
        assert(field_pairs(fields@).len() == fields@.len());
        assert(pairs(out@) =~= header_fields(metadata@));
    }
    out
}

/// The file attributes that carry metadata.
pub fn write_metadata_attributes(metadata: &Metadata) -> (r: Vec<(String, Vec<u8>)>)
    ensures
        byte_pairs(r@) == attribute_fields(metadata@),
{
    let fields = write_fields(metadata);
    let mut out: Vec<(String, Vec<u8>)> = Vec::new();
    let n: usize = fields.len();
    let mut i: usize = 0;
    while i < n
        invariant
            i <= n == fields@.len(),
            out@.len() == i,
            forall|k: int|
                0 <= k < i ==> (#[trigger] out@[k]).0@ == attribute_name(fields@[k].0) && out@[k].1@ == encode_utf8(
                    fields@[k].1@,
                ),
        decreases n - i,
    {
        out.push((fields[i].0.attribute(), crate::text::copy_bytes(fields[i].1.as_str().as_bytes())));
        i = i + 1;
    }
    proof {
        assert forall|k: int| 0 <= k < n implies #[trigger] byte_pairs(out@)[k] == attribute_fields(
            metadata@,
        )[k] by {
            assert(field_pairs(fields@)[k] == (fields@[k].0, fields@[k].1@));
            assert((out@[k].0@, out@[k].1@) == (attribute_name(fields@[k].0), encode_utf8(fields@[k].1@)));
        }
        assert(field_pairs(fields@).len() == fields@.len());
        assert(byte_pairs(out@) =~= attribute_fields(metadata@));
    }
    out
}

/// Whether some header carries metadata.
pub open spec fn carries_metadata(list: Seq<(Seq<char>, Seq<char>)>) -> bool {
    exists|i: int| 0 <= i < list.len() && metadata_key((#[trigger] list[i]).0) is Some
}

/// Whether some header carries metadata.
pub fn has_metadata_headers(headers: &[(String, String)]) -> (r: bool)
    ensures
        r == carries_metadata(pairs(headers@)),
{
    let n: usize = headers.len();
    let mut i: usize = 0;
    while i < n
        invariant
            i <= n == headers@.len(),
            forall|k: int| 0 <= k < i ==> metadata_key((#[trigger] pairs(headers@)[k]).0) is None,
        decreases n - i,
    {
        if get_metadata_key(&headers[i].0).is_some() {
            assert(metadata_key(pairs(headers@)[i as int].0) is Some);
            return true;
        }
        i = i + 1;
    }
    false
}

/// The names that start with a prefix.
pub open spec fn names_under(names: Seq<Seq<char>>, prefix: Seq<char>) -> Seq<Seq<char>>
    decreases names.len(),
{
    if names.len() == 0 {
        Seq::empty()
    } else {
        let init = names_under(names.drop_last(), prefix);
        if prefix.is_prefix_of(names.last()) {
            init.push(names.last())
        } else {
            init
        }
    }
}

fn select_names(names: &[String], prefix: &str) -> (r: Vec<String>)
    ensures
        crate::text::texts(r@) == names_under(crate::text::texts(names@), prefix@),
{
    let wanted = to_chars(prefix);
    let mut out: Vec<String> = Vec::new();
    let n: usize = names.len();
    let mut i: usize = 0;
    let ghost all = crate::text::texts(names@);
    assert(crate::text::texts(out@) =~= names_under(all.take(0), prefix@));
    while i < n
        invariant
            i <= n == names@.len(),
            all == crate::text::texts(names@),
            wanted@ == prefix@,
            crate::text::texts(out@) == names_under(all.take(i as int), prefix@),
        decreases n - i,
    {
        assert(all.take(i + 1).drop_last() =~= all.take(i as int));
        assert(all.take(i + 1).last() == names@[i as int]@);
        let ghost earlier = out@;
        if starts_with(&to_chars(&names[i]), &wanted) {
            out.push(names[i].clone());
            assert(crate::text::texts(out@) =~= crate::text::texts(earlier).push(names@[i as int]@));
        }
        i = i + 1;
    }
    assert(all.take(n as int) =~= all);
    out
}

/// The attributes, of those that a file has, that are removed before its
/// metadata is written.
pub fn stale_attributes(names: &[String]) -> (r: Vec<String>)
    ensures
        crate::text::texts(r@) == names_under(crate::text::texts(names@), "user.ark."@),
{
    select_names(names, "user.ark.")
}

/// The attributes, of those that a file has, that are removed before its
/// local metadata is written.
pub fn stale_local_attributes(names: &[String]) -> (r: Vec<String>)
    ensures
        crate::text::texts(r@) == names_under(crate::text::texts(names@), "user.ark_local."@),
{
    select_names(names, "user.ark_local.")
}

/// Whether a file carries metadata: whether it has the attribute with the id.
pub fn has_metadata_attributes(names: &[String]) -> (r: bool)
    ensures
        r == crate::text::texts(names@).contains("user.ark.id"@),
{
    crate::text::holds(names, "user.ark.id")
}

// Local metadata.

/// The flag that a text stands for.
pub open spec fn flag_named(s: Seq<char>) -> Option<bool> {
    if s == "true"@ {
        Some(true)
    } else if s == "false"@ {
        Some(false)
    } else {
        None
    }
}

/// Local metadata after one of its fields has been read.
pub open spec fn local_set(l: LocalV, field: Seq<char>, value: Seq<char>) -> Result<LocalV, ErrorV> {
    if field == "encrypted"@ {
        match flag_named(trim(value, Trim::Space)) {
            Some(b) => Ok(LocalV { encrypted: Some(b), ..l }),
            None => Err(with(Fault::EncryptedAttribute, trim(value, Trim::Space))),
        }
    } else if field == "sync_hash"@ {
        match decoded(value) {
            Some(b) => Ok(LocalV { sync_hash: Some(b), ..l }),
            None => Err(bare(Fault::SyncHashNotBase64)),
        }
    } else if field == "sync_modified"@ {
        Ok(LocalV { sync_modified: Some(value), ..l })
    } else {
        Ok(l)
    }
}

/// The local metadata that file attributes stand for, read in order. Only
/// names with the local prefix count, and their values must be UTF-8.
pub open spec fn local_of(list: Seq<(Seq<char>, Seq<u8>)>) -> Result<LocalV, ErrorV>
    decreases list.len(),
{
    if list.len() == 0 {
        Ok(no_local())
    } else {
        match local_of(list.drop_last()) {
            Ok(l) => {
                let (name, value) = list.last();
                match after_prefix(name, "user.ark_local."@) {
                    None => Ok(l),
                    Some(field) => if !valid_utf8(value) {
                        Err(with(Fault::AttributeNotUtf8, name))
                    } else {
                        local_set(l, field, decode_utf8(value))
                    },
                }
            },
            Err(e) => Err(e),
        }
    }
}

fn set_local_field(local: &mut LocalMetadata, field: &str, value: &str) -> (r: Result<(), Error>)
    ensures
        r is Ok ==> local_set(old(local)@, field@, value@) == Ok::<LocalV, ErrorV>(final(local)@),
        r matches Err(e) ==> local_set(old(local)@, field@, value@) == Err::<LocalV, ErrorV>(e@),
{
    if same(field, "encrypted") {
        let flag = trimmed(value);
        if same(&flag, "true") {
            local.encrypted = Some(true);
        } else if same(&flag, "false") {
            local.encrypted = Some(false);
        } else {
            return Err(fail_with(Fault::EncryptedAttribute, flag));
        }
    } else if same(field, "sync_hash") {
        match decode_base64url(value) {
            Some(b) => {
                local.sync_hash = Some(b);
            },
            None => {
                return Err(fail(Fault::SyncHashNotBase64));
            },
        }
    } else if same(field, "sync_modified") {
        local.sync_modified = Some(value.to_owned());
    }
    Ok(())
}

proof fn lemma_local_fault_stays(list: Seq<(Seq<char>, Seq<u8>)>, i: int)
    requires
        0 <= i <= list.len(),
        local_of(list.take(i)) is Err,
    ensures
        local_of(list) == local_of(list.take(i)),
    decreases list.len() - i,
{
    if i == list.len() {
        assert(list.take(i) =~= list);
    } else {
        assert(list.take(i + 1).drop_last() =~= list.take(i));
        lemma_local_fault_stays(list, i + 1);
    }
}

/// The local metadata in file attributes.
pub fn read_local_metadata_attributes(attributes: &[(String, Vec<u8>)]) -> (r: Result<LocalMetadata, Error>)
    ensures
        seen(r) == local_of(byte_pairs(attributes@)),
{
    let mut local = LocalMetadata::default();
    let n: usize = attributes.len();
    let mut i: usize = 0;
    let ghost list = byte_pairs(attributes@);
    assert(list.take(0).len() == 0);
    while i < n
        invariant
            i <= n == attributes@.len(),
            list == byte_pairs(attributes@),
            local_of(list.take(i as int)) == Ok::<LocalV, ErrorV>(local@),
        decreases n - i,
    {
        proof {
            assert(list.take(i + 1).drop_last() =~= list.take(i as int));
            assert(list.take(i + 1).last() == (attributes@[i as int].0@, attributes@[i as int].1@));
        }
        let name = &attributes[i].0;
        match strip_prefix(name, "user.ark_local.") {
            Some(field) => match utf8_text(&attributes[i].1) {
                Some(value) => match set_local_field(&mut local, &field, &value) {
                    Ok(()) => {},
                    Err(e) => {
                        proof {
                            lemma_local_fault_stays(list, i + 1);
                        }
                        return Err(e);
                    },
                },
                None => {
                    proof {
                        lemma_local_fault_stays(list, i + 1);
                    }
                    return Err(fail_with(Fault::AttributeNotUtf8, name.clone()));
                },
            },
            None => {},
        }
        i = i + 1;
    }
    assert(list.take(n as int) =~= list);
    Ok(local)
}

/// The file attributes that carry local metadata.
pub open spec fn local_fields(l: LocalV) -> Seq<(Seq<char>, Seq<u8>)> {
    let encrypted = match l.encrypted {
        Some(b) => seq![("user.ark_local.encrypted"@, encode_utf8(if b { "true"@ } else { "false"@ }))],
        None => Seq::empty(),
    };
    let hash = match l.sync_hash {
        Some(h) => seq![("user.ark_local.sync_hash"@, encode_utf8(encoded(h)))],
        None => Seq::empty(),
    };
    let modified = match l.sync_modified {
        Some(t) => seq![("user.ark_local.sync_modified"@, encode_utf8(t))],
        None => Seq::empty(),
    };
    encrypted + hash + modified
}

fn push_attribute(out: &mut Vec<(String, Vec<u8>)>, name: &str, value: &str)
    ensures
        byte_pairs(final(out)@) == byte_pairs(old(out)@).push((name@, encode_utf8(value@))),
{
    out.push((name.to_owned(), crate::text::copy_bytes(value.as_bytes())));
    assert(byte_pairs(out@) =~= byte_pairs(old(out)@).push((name@, encode_utf8(value@))));
}

/// The file attributes that carry local metadata.
pub fn write_local_metadata_attributes(local: &LocalMetadata) -> (r: Vec<(String, Vec<u8>)>)
    ensures
        byte_pairs(r@) == local_fields(local@),
{
    let mut out: Vec<(String, Vec<u8>)> = Vec::new();
    assert(byte_pairs(out@) =~= Seq::empty());
    if let Some(encrypted) = local.encrypted {
        push_attribute(&mut out, "user.ark_local.encrypted", if encrypted { "true" } else { "false" });
    }
    if let Some(hash) = &local.sync_hash {
        let text = encode_base64url(hash);
        push_attribute(&mut out, "user.ark_local.sync_hash", &text);
    }
    if let Some(modified) = &local.sync_modified {
        push_attribute(&mut out, "user.ark_local.sync_modified", modified);
    }
    assert(byte_pairs(out@) =~= local_fields(local@));
    out
}

} // verus!
