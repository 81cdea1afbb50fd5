//! JSON texts.

use vstd::prelude::*;

use crate::base64url::{encode_base64url, encoded};
use crate::text::{opt_text, texts, to_chars};
use crate::types::{
    opt_hash, opt_texts, permission_name, Identity, IdentityV, Member, MemberV, Metadata, MetadataV, Tagged,
};

verus! {

/// A lower-case hexadecimal digit.
pub open spec fn hex_digit(d: int) -> char {
    if d < 10 {
        (('0' as u32) + d) as char
    } else {
        (('a' as u32) + (d - 10)) as char
    }
}

/// A character inside a JSON string.
pub open spec fn escape_char(c: char) -> Seq<char> {
    if c == '"' {
        seq!['\\', '"']
    } else if c == '\\' {
        seq!['\\', '\\']
    } else if c == '\n' {
        seq!['\\', 'n']
    } else if c == '\r' {
        seq!['\\', 'r']
    } else if c == '\t' {
        seq!['\\', 't']
    } else if c as u32 == 0x08 {
        seq!['\\', 'b']
    } else if c as u32 == 0x0c {
        seq!['\\', 'f']
    } else if (c as u32) < 0x20 {
        seq!['\\', 'u', '0', '0', hex_digit((c as u32) as int / 16), hex_digit((c as u32) as int % 16)]
    } else {
        seq![c]
    }
}

/// A text inside a JSON string.
pub open spec fn escaped(s: Seq<char>) -> Seq<char>
    decreases s.len(),
{
    if s.len() == 0 {
        Seq::empty()
    } else {
        escaped(s.drop_last()) + escape_char(s.last())
    }
}

fn hex_of(d: u8) -> (r: char)
    requires
        d < 16,
    ensures
        r == hex_digit(d as int),
{
    if d < 10 {
        (48 + d) as char
    } else {
        (97 + (d - 10)) as char
    }
}

fn push_escaped(out: &mut String, c: char)
    ensures
        final(out)@ == old(out)@ + escape_char(c),
{
    let u: u32 = c as u32;
    if c == '"' {
        out.push('\\');
        out.push('"');
    } else if c == '\\' {
        out.push('\\');
        out.push('\\');
    } else if c == '\n' {
        out.push('\\');
        out.push('n');
    } else if c == '\r' {
        out.push('\\');
        out.push('r');
    } else if c == '\t' {
        out.push('\\');
        out.push('t');
    } else if u == 0x08 {
        out.push('\\');
        out.push('b');
    } else if u == 0x0c {
        out.push('\\');
        out.push('f');
    } else if u < 0x20 {
        out.push('\\');
        out.push('u');
        out.push('0');
        out.push('0');
        out.push(hex_of((u / 16) as u8));
        out.push(hex_of((u % 16) as u8));
    } else {
        out.push(c);
    }
    assert(out@ =~= old(out)@ + escape_char(c));
}

/// The text as it stands inside a JSON string.
pub fn json_escape(s: &str) -> (r: String)
    ensures
        r@ == escaped(s@),
{
    let chars = to_chars(s);
    let mut out = String::new();
    let n: usize = chars.len();
    let mut i: usize = 0;
    assert(escaped(chars@.take(0)) =~= Seq::empty());
    while i < n
        invariant
            i <= n == chars@.len(),
            out@ == escaped(chars@.take(i as int)),
        decreases n - i,
    {
        push_escaped(&mut out, chars[i]);
        assert(chars@.take(i + 1).drop_last() =~= chars@.take(i as int));
        i = i + 1;
    }
    assert(chars@.take(n as int) =~= chars@);
    out
}

/// An escaped text holds no control characters.
pub proof fn escaped_has_no_controls(s: Seq<char>, i: int)
    requires
        0 <= i < escaped(s).len(),
    ensures
        escaped(s)[i] as u32 >= 0x20,
    decreases s.len(),
{
    let init = escaped(s.drop_last());
    if i < init.len() {
        escaped_has_no_controls(s.drop_last(), i);
    } else {
        assert(escaped(s)[i] == escape_char(s.last())[i - init.len()]);
    }
}

/// A JSON string.
pub open spec fn json_string(s: Seq<char>) -> Seq<char> {
    "\""@ + escaped(s) + "\""@
}

fn push_string(out: &mut String, s: &str)
    ensures
        final(out)@ == old(out)@ + json_string(s@),
{
    out.append("\"");
    out.append(&json_escape(s));
    out.append("\"");
    assert(out@ =~= old(out)@ + json_string(s@));
}

/// The JSON object of a key, signature or hash.
pub open spec fn json_tagged(t: Tagged) -> Seq<char> {
    "{\"algorithm\":"@ + json_string(t.algorithm) + ",\"value\":"@ + json_string(encoded(t.value)) + "}"@
}

fn push_tagged(out: &mut String, algorithm: &str, value: &[u8])
    ensures
        final(out)@ == old(out)@ + json_tagged((Tagged { algorithm: algorithm@, value: value@ })),
{
    out.append("{\"algorithm\":");
    push_string(out, algorithm);
    out.append(",\"value\":");
    push_string(out, &encode_base64url(value));
    out.append("}");
    assert(out@ =~= old(out)@ + json_tagged((Tagged { algorithm: algorithm@, value: value@ })));
}

/// The elements of a JSON array of strings.
pub open spec fn json_strings(list: Seq<Seq<char>>) -> Seq<char>
    decreases list.len(),
{
    if list.len() == 0 {
        Seq::empty()
    } else if list.len() == 1 {
        json_string(list[0])
    } else {
        json_strings(list.drop_last()) + ","@ + json_string(list.last())
    }
}

/// The JSON object of an identity. A group lists its members.
pub open spec fn identity_json(i: IdentityV) -> Seq<char> {
    let members = match i.members {
        Some(list) => ",\"members\":["@ + json_strings(list) + "]"@,
        None => Seq::empty(),
    };
    "{\"public_key\":"@ + json_tagged(i.public_key) + ",\"address\":"@ + json_string(i.address) + members
        + ",\"signature\":"@ + json_tagged(i.signature) + "}"@
}

fn push_strings(out: &mut String, list: &[String])
    ensures
        final(out)@ == old(out)@ + json_strings(texts(list@)),
{
    let n: usize = list.len();
    let mut i: usize = 0;
    let ghost all = texts(list@);
    assert(out@ =~= old(out)@ + json_strings(all.take(0)));
    while i < n
        invariant
            i <= n == list@.len(),
            all == texts(list@),
            out@ == old(out)@ + json_strings(all.take(i as int)),
        decreases n - i,
    {
        let ghost earlier = out@;
        if i > 0 {
            out.append(",");
        }
        push_string(out, &list[i]);
        proof {
            assert(all.take(i + 1).drop_last() =~= all.take(i as int));
            assert(all.take(i + 1).last() == list@[i as int]@);
            assert(out@ =~= old(out)@ + json_strings(all.take(i + 1)));
        }
        i = i + 1;
    }
    assert(all.take(n as int) =~= all);
}

fn group_part(members: &Option<Vec<String>>) -> (r: String)
    ensures
        r@ == (match opt_texts(*members) {
            Some(list) => ",\"members\":["@ + json_strings(list) + "]"@,
            None => Seq::empty(),
        }),
{
    match members {
        Some(list) => {
            let mut out = ",\"members\":[".to_owned();
            push_strings(&mut out, list);
            out.append("]");
            out
        },
        None => String::new(),
    }
}

/// The JSON object of an identity.
pub fn write_identity_json(identity: &Identity) -> (r: String)
    ensures
        r@ == identity_json(identity@),
{
    let members = group_part(&identity.members);
    let mut out = "{\"public_key\":".to_owned();
    push_tagged(&mut out, &identity.public_key.algorithm, &identity.public_key.value);
    out.append(",\"address\":");
    push_string(&mut out, &identity.address);
    out.append(&members);
    out.append(",\"signature\":");
    push_tagged(&mut out, &identity.signature.algorithm, &identity.signature.value);
    out.append("}");
    out
}

/// The JSON object of a member.
pub open spec fn member_json(m: MemberV) -> Seq<char> {
    let key = match m.key {
        Some(k) => ",\"key\":"@ + json_tagged(k),
        None => Seq::empty(),
    };
    "{\"address\":"@ + json_string(m.address) + ",\"permission\":"@ + json_string(permission_name(m.permission)) + key
        + "}"@
}

/// The elements of a JSON array of members.
pub open spec fn members_json(list: Seq<MemberV>) -> Seq<char>
    decreases list.len(),
{
    if list.len() == 0 {
        Seq::empty()
    } else if list.len() == 1 {
        member_json(list[0])
    } else {
        members_json(list.drop_last()) + ","@ + member_json(list.last())
    }
}

/// The JSON object of metadata.
pub open spec fn metadata_json(m: MetadataV) -> Seq<char> {
    let encryption = match m.encryption_algorithm {
        Some(a) => ",\"encryption_algorithm\":"@ + json_string(a),
        None => Seq::empty(),
    };
    let hash = match m.body_hash {
        Some(h) => ",\"body_hash\":"@ + json_tagged(h),
        None => Seq::empty(),
    };
    "{\"id\":"@ + json_string(m.id) + ",\"created\":"@ + json_string(m.created) + ",\"modified\":"@ + json_string(
        m.modified,
    ) + ",\"modified_by\":"@ + json_string(m.modified_by) + encryption + ",\"members\":["@ + members_json(m.members)
        + "]"@ + hash + ",\"signature\":"@ + json_tagged(m.signature) + "}"@
}

fn push_member(out: &mut String, member: &Member)
    ensures
        final(out)@ == old(out)@ + member_json(member@),
{
    out.append("{\"address\":");
    push_string(out, &member.address);
    out.append(",\"permission\":");
    push_string(out, member.permission.as_str());
    if let Some(key) = &member.key {
        out.append(",\"key\":");
        push_tagged(out, &key.algorithm, &key.value);
    }
    out.append("}");
    assert(out@ =~= old(out)@ + member_json(member@));
}

fn push_members(out: &mut String, list: &[Member])
    ensures
        final(out)@ == old(out)@ + members_json(crate::types::members_view(list@)),
{
    let n: usize = list.len();
    let mut i: usize = 0;
    let ghost all = crate::types::members_view(list@);
    assert(out@ =~= old(out)@ + members_json(all.take(0)));
    while i < n
        invariant
            i <= n == list@.len(),
            all == crate::types::members_view(list@),
            out@ == old(out)@ + members_json(all.take(i as int)),
        decreases n - i,
    {
        if i > 0 {
            out.append(",");
        }
        push_member(out, &list[i]);
        proof {
            assert(all.take(i + 1).drop_last() =~= all.take(i as int));
            assert(all.take(i + 1).last() == list@[i as int]@);
            assert(out@ =~= old(out)@ + members_json(all.take(i + 1)));
        }
        i = i + 1;
    }
    assert(all.take(n as int) =~= all);
}

fn encryption_part(algorithm: &Option<String>) -> (r: String)
    ensures
        r@ == (match opt_text(*algorithm) {
            Some(a) => ",\"encryption_algorithm\":"@ + json_string(a),
            None => Seq::empty(),
        }),
{
    match algorithm {
        Some(a) => {
            let mut out = ",\"encryption_algorithm\":".to_owned();
            push_string(&mut out, a);
            out
        },
        None => String::new(),
    }
}

fn hash_part(hash: &Option<crate::types::Hash>) -> (r: String)
    ensures
        r@ == (match opt_hash(*hash) {
            Some(h) => ",\"body_hash\":"@ + json_tagged(h),
            None => Seq::empty(),
        }),
{
    match hash {
        Some(h) => {
            let mut out = ",\"body_hash\":".to_owned();
            push_tagged(&mut out, &h.algorithm, &h.value);
            out
        },
        None => String::new(),
    }
}

/// The JSON object of metadata.
pub fn write_metadata_json(metadata: &Metadata) -> (r: String)
    ensures
        r@ == metadata_json(metadata@),
{
    let encryption = encryption_part(&metadata.encryption_algorithm);
    let hash = hash_part(&metadata.body_hash);
    let mut out = "{\"id\":".to_owned();
    push_string(&mut out, &metadata.id);
    out.append(",\"created\":");
    push_string(&mut out, &metadata.created);
    out.append(",\"modified\":");
    push_string(&mut out, &metadata.modified);
    out.append(",\"modified_by\":");
    push_string(&mut out, &metadata.modified_by);
    out.append(&encryption);
    out.append(",\"members\":[");
    push_members(&mut out, &metadata.members);
    out.append("]");
    out.append(&hash);
    out.append(",\"signature\":");
    push_tagged(&mut out, &metadata.signature.algorithm, &metadata.signature.value);
    out.append("}");
    out
}

} // verus!
