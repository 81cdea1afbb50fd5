//! What holds of the texts that are signed: each of them stands for one value alone.

use vstd::prelude::*;

use crate::base64url::{decode_after_encode, encoded};
use crate::json::{
    escape_char, escaped, hex_digit, identity_json, json_string, json_strings, json_tagged, member_json,
    members_json, metadata_json,
};
use crate::listing::{entry_json, kind_name, DirectoryEntryKind, EntryV, Layout};
use crate::number::{decimal, lemma_decimal};
use crate::types::{permission_name, permission_round_trip, IdentityV, MemberV, MetadataV, Tagged};

verus! {

proof fn lemma_same_rest(a: Seq<char>, b: Seq<char>, r: Seq<char>, q: Seq<char>)
    requires
        a + r == b + q,
        a.len() == b.len(),
    ensures
        a == b,
        r == q,
{
    let w = a + r;
    assert(a =~= w.take(a.len() as int));
    assert(b =~= w.take(a.len() as int));
    assert(r =~= w.skip(a.len() as int));
    assert(q =~= w.skip(a.len() as int));
}

proof fn lemma_assoc(a: Seq<char>, b: Seq<char>, c: Seq<char>)
    ensures
        a + b + c == a + (b + c),
{
    assert(a + b + c =~= a + (b + c));
}

proof fn lemma_nothing(a: Seq<char>)
    ensures
        Seq::<char>::empty() + a == a,
        a + Seq::<char>::empty() == a,
{
    assert(Seq::<char>::empty() + a =~= a);
    assert(a + Seq::<char>::empty() =~= a);
}

#[verifier::rlimit(40)]
proof fn lemma_nest(
    a: Seq<char>,
    b: Seq<char>,
    c: Seq<char>,
    d: Seq<char>,
    e: Seq<char>,
    f: Seq<char>,
    g: Seq<char>,
    h: Seq<char>,
    i: Seq<char>,
)
    ensures
        a + b + c + d + e == a + (b + (c + (d + e))),
        a + b + c + d + e + f + g == a + (b + (c + (d + (e + (f + g))))),
        a + b + c + d + e + f + g + h + i == a + (b + (c + (d + (e + (f + (g + (h + i))))))),
{
    lemma_assoc(a, b, c);
    lemma_assoc(a, b + c, d);
    lemma_assoc(b, c, d);
    let r = a + b + c + d;
    assert(r == a + (b + (c + d)));
    lemma_push(a, b, c, d, e);
    lemma_push(a, b, c, d, e + f);
    lemma_assoc(r, e, f);
    lemma_assoc(r, e + f, g);
    lemma_assoc(e, f, g);
    lemma_push(a, b, c, d, e + (f + g));
    let t = f + g;
    lemma_assoc(r, e + t, h);
    lemma_assoc(e, t, h);
    lemma_assoc(f, g, h);
    let u = f + (g + h);
    lemma_assoc(r, e + u, i);
    lemma_assoc(e, u, i);
    lemma_assoc(f, g + h, i);
    lemma_assoc(g, h, i);
    lemma_push(a, b, c, d, e + (f + (g + (h + i))));
}

proof fn lemma_push(a: Seq<char>, b: Seq<char>, c: Seq<char>, d: Seq<char>, e: Seq<char>)
    ensures
        a + b + c + d + e == a + (b + (c + (d + e))),
{
    lemma_assoc(a + b + c, d, e);
    lemma_assoc(a + b, c, d + e);
    lemma_assoc(a, b, c + (d + e));
}

#[verifier::rlimit(40)]
proof fn lemma_hex(d: int, e: int)
    requires
        0 <= d < 16,
        0 <= e < 16,
        hex_digit(d) == hex_digit(e),
    ensures
        d == e,
{
}

proof fn lemma_escape_char(c: char, d: char, r: Seq<char>, q: Seq<char>)
    requires
        escape_char(c) + r == escape_char(d) + q,
    ensures
        c == d,
        r == q,
{
    let a = escape_char(c);
    let b = escape_char(d);
    let w = a + r;
    let v = b + q;
    assert(w[0] == a[0] && v[0] == b[0]);
    if a.len() == 1 {
        if b.len() > 1 {
            assert(b[0] == '\\');
            assert(a[0] == '\\');
            assert(false);
        }
        lemma_same_rest(a, b, r, q);
    } else {
        assert(a[0] == '\\');
        assert(b.len() > 1) by {
            if b.len() == 1 {
                assert(b[0] == d);
            }
        }
        assert(w[1] == a[1] && v[1] == b[1]);
        assert(a[1] == b[1]);
        assert(a.len() == b.len());
        lemma_same_rest(a, b, r, q);
        if a.len() == 6 {
            assert(a[4] == b[4] && a[5] == b[5]);
            let x = (c as u32) as int;
            let y = (d as u32) as int;
            lemma_hex(x / 16, y / 16);
            lemma_hex(x % 16, y % 16);
            assert(x == y);
        }
    }
}

proof fn lemma_escaped_front(s: Seq<char>)
    requires
        s.len() > 0,
    ensures
        escaped(s) == escape_char(s[0]) + escaped(s.skip(1)),
    decreases s.len(),
{
    if s.len() == 1 {
        assert(s.drop_last() =~= Seq::empty());
        assert(s.skip(1) =~= Seq::empty());
        assert(escaped(s) =~= escape_char(s[0]) + escaped(s.skip(1)));
    } else {
        lemma_escaped_front(s.drop_last());
        assert(s.skip(1).drop_last() =~= s.drop_last().skip(1));
        assert(escaped(s) =~= escape_char(s[0]) + escaped(s.skip(1)));
    }
}

#[verifier::rlimit(40)]
proof fn lemma_escaped_ends(a: Seq<char>, b: Seq<char>, r: Seq<char>, q: Seq<char>)
    requires
        escaped(a) + ("\""@ + r) == escaped(b) + ("\""@ + q),
    ensures
        a == b,
        r == q,
    decreases a.len() + b.len(),
{
    reveal_strlit("\"");
    let x = "\""@ + r;
    let y = "\""@ + q;
    if a.len() == 0 && b.len() == 0 {
        assert(escaped(a) + x =~= x);
        assert(escaped(b) + y =~= y);
        assert(a =~= b);
        lemma_same_rest("\""@, "\""@, r, q);
    } else if a.len() == 0 {
        lemma_escaped_front(b);
        assert((escaped(a) + x)[0] == '"');
        assert((escaped(b) + y)[0] == escape_char(b[0])[0]);
        assert(false);
    } else if b.len() == 0 {
        lemma_escaped_front(a);
        assert((escaped(b) + y)[0] == '"');
        assert((escaped(a) + x)[0] == escape_char(a[0])[0]);
        assert(false);
    } else {
        lemma_escaped_front(a);
        lemma_escaped_front(b);
        assert(escaped(a) + x =~= escape_char(a[0]) + (escaped(a.skip(1)) + x));
        assert(escaped(b) + y =~= escape_char(b[0]) + (escaped(b.skip(1)) + y));
        lemma_escape_char(a[0], b[0], escaped(a.skip(1)) + x, escaped(b.skip(1)) + y);
        lemma_escaped_ends(a.skip(1), b.skip(1), r, q);
        assert(a =~= seq![a[0]] + a.skip(1));
        assert(b =~= seq![b[0]] + b.skip(1));
    }
}

/// A JSON string tells its text, and where it ends, whatever follows.
pub proof fn strings_tell_their_text(a: Seq<char>, b: Seq<char>, r: Seq<char>, q: Seq<char>)
    requires
        json_string(a) + r == json_string(b) + q,
    ensures
        a == b,
        r == q,
{
    lemma_assoc("\""@ + escaped(a), "\""@, r);
    lemma_assoc("\""@, escaped(a), "\""@ + r);
    lemma_assoc("\""@ + escaped(b), "\""@, q);
    lemma_assoc("\""@, escaped(b), "\""@ + q);
    lemma_same_rest("\""@, "\""@, escaped(a) + ("\""@ + r), escaped(b) + ("\""@ + q));
    lemma_escaped_ends(a, b, r, q);
}

/// The JSON object of a key, signature or hash tells its algorithm and its bytes.
#[verifier::rlimit(40)]
pub proof fn tagged_bytes_are_told(a: Tagged, b: Tagged, r: Seq<char>, q: Seq<char>)
    requires
        json_tagged(a) + r == json_tagged(b) + q,
    ensures
        a == b,
        r == q,
{
    let t1 = "{\"algorithm\":"@;
    let t2 = ",\"value\":"@;
    let t3 = "}"@;
    let x2 = json_string(encoded(a.value)) + (t3 + r);
    let y2 = json_string(encoded(b.value)) + (t3 + q);
    let x1 = json_string(a.algorithm) + (t2 + x2);
    let y1 = json_string(b.algorithm) + (t2 + y2);
    lemma_nest(t1, json_string(a.algorithm), t2, json_string(encoded(a.value)), t3, r, r, r, r);
    lemma_nest(t1, json_string(b.algorithm), t2, json_string(encoded(b.value)), t3, q, q, q, q);
    lemma_assoc(t1 + json_string(a.algorithm) + t2 + json_string(encoded(a.value)), t3, r);
    lemma_assoc(t1 + json_string(b.algorithm) + t2 + json_string(encoded(b.value)), t3, q);
    lemma_nest(t1, json_string(a.algorithm), t2, json_string(encoded(a.value)), t3 + r, r, r, r, r);
    lemma_nest(t1, json_string(b.algorithm), t2, json_string(encoded(b.value)), t3 + q, q, q, q, q);
    lemma_same_rest(t1, t1, x1, y1);
    strings_tell_their_text(a.algorithm, b.algorithm, t2 + x2, t2 + y2);
    lemma_same_rest(t2, t2, x2, y2);
    strings_tell_their_text(encoded(a.value), encoded(b.value), t3 + r, t3 + q);
    lemma_same_rest(t3, t3, r, q);
    decode_after_encode(a.value);
    decode_after_encode(b.value);
}

/// The JSON object of a member tells who it is, what they may do and which key they
/// hold, if any.
#[verifier::rlimit(40)]
pub proof fn members_are_told(a: MemberV, b: MemberV, r: Seq<char>, q: Seq<char>)
    requires
        member_json(a) + r == member_json(b) + q,
    ensures
        a == b,
        r == q,
{
    let t1 = "{\"address\":"@;
    let t2 = ",\"permission\":"@;
    let t3 = ",\"key\":"@;
    let t4 = "}"@;
    let key_a = match a.key {
        Some(k) => t3 + json_tagged(k),
        None => Seq::empty(),
    };
    let key_b = match b.key {
        Some(k) => t3 + json_tagged(k),
        None => Seq::empty(),
    };
    let x3 = key_a + (t4 + r);
    let y3 = key_b + (t4 + q);
    let x2 = json_string(permission_name(a.permission)) + x3;
    let y2 = json_string(permission_name(b.permission)) + y3;
    let x1 = json_string(a.address) + (t2 + x2);
    let y1 = json_string(b.address) + (t2 + y2);
    lemma_nest(t1, json_string(a.address), t2, json_string(permission_name(a.permission)), key_a, t4, r, r, r);
    lemma_nest(t1, json_string(b.address), t2, json_string(permission_name(b.permission)), key_b, t4, q, q, q);
    assert(member_json(a) + r == t1 + x1);
    assert(member_json(b) + q == t1 + y1);
    lemma_same_rest(t1, t1, x1, y1);
    strings_tell_their_text(a.address, b.address, t2 + x2, t2 + y2);
    lemma_same_rest(t2, t2, x2, y2);
    strings_tell_their_text(permission_name(a.permission), permission_name(b.permission), x3, y3);
    permission_round_trip(a.permission);
    permission_round_trip(b.permission);
    reveal_strlit(",\"key\":");
    reveal_strlit("}");
    match (a.key, b.key) {
        (Some(k), Some(l)) => {
            lemma_assoc(t3, json_tagged(k), t4 + r);
            lemma_assoc(t3, json_tagged(l), t4 + q);
            lemma_same_rest(t3, t3, json_tagged(k) + (t4 + r), json_tagged(l) + (t4 + q));
            tagged_bytes_are_told(k, l, t4 + r, t4 + q);
            lemma_same_rest(t4, t4, r, q);
        },
        (None, None) => {
            lemma_nothing(t4 + r);
            lemma_nothing(t4 + q);
            lemma_same_rest(t4, t4, r, q);
        },
        (Some(k), None) => {
            assert(x3[0] == ',' && y3[0] == '}');
        },
        (None, Some(k)) => {
            assert(x3[0] == '}' && y3[0] == ',');
        },
    }
}

#[verifier::rlimit(40)]
proof fn lemma_members_front(list: Seq<MemberV>)
    requires
        list.len() > 0,
    ensures
        members_json(list) == member_json(list[0]) + (if list.len() == 1 {
            Seq::empty()
        } else {
            ","@ + members_json(list.skip(1))
        }),
    decreases list.len(),
{
    let head = member_json(list[0]);
    if list.len() == 1 {
        lemma_nothing(head);
    } else {
        let front = list.drop_last();
        lemma_members_front(front);
        let rest = list.skip(1);
        let tail = member_json(list.last());
        if list.len() == 2 {
            assert(rest.len() == 1 && rest[0] == list.last());
            lemma_nothing(head);
            lemma_assoc(head, ","@, tail);
        } else {
            assert(rest.drop_last() =~= front.skip(1));
            let mid = members_json(front.skip(1));
            lemma_assoc(head, ","@ + mid, ","@);
            lemma_assoc(head, ","@ + mid + ","@, tail);
            lemma_assoc(","@, mid, ","@);
            lemma_assoc(","@, mid + ","@, tail);
        }
    }
}

proof fn lemma_member_starts(m: MemberV)
    ensures
        member_json(m).len() > 0,
        member_json(m)[0] == '{',
{
    reveal_strlit("{\"address\":");
}

#[verifier::rlimit(40)]
proof fn lemma_members_end(a: Seq<MemberV>, b: Seq<MemberV>, r: Seq<char>, q: Seq<char>)
    requires
        members_json(a) + ("]"@ + r) == members_json(b) + ("]"@ + q),
    ensures
        a == b,
        r == q,
    decreases a.len(),
{
    reveal_strlit("]");
    reveal_strlit(",");
    let x = "]"@ + r;
    let y = "]"@ + q;
    if a.len() == 0 && b.len() == 0 {
        lemma_nothing(x);
        lemma_nothing(y);
        lemma_same_rest("]"@, "]"@, r, q);
        assert(a =~= b);
    } else if a.len() == 0 {
        lemma_members_front(b);
        lemma_member_starts(b[0]);
        assert((members_json(a) + x)[0] == ']');
        assert((members_json(b) + y)[0] == '{');
    } else if b.len() == 0 {
        lemma_members_front(a);
        lemma_member_starts(a[0]);
        assert((members_json(b) + y)[0] == ']');
        assert((members_json(a) + x)[0] == '{');
    } else {
        lemma_members_front(a);
        lemma_members_front(b);
        let more_a = if a.len() == 1 {
            Seq::empty()
        } else {
            ","@ + members_json(a.skip(1))
        };
        let more_b = if b.len() == 1 {
            Seq::empty()
        } else {
            ","@ + members_json(b.skip(1))
        };
        lemma_assoc(member_json(a[0]), more_a, x);
        lemma_assoc(member_json(b[0]), more_b, y);
        members_are_told(a[0], b[0], more_a + x, more_b + y);
        if a.len() == 1 && b.len() == 1 {
            lemma_nothing(x);
            lemma_nothing(y);
            lemma_same_rest("]"@, "]"@, r, q);
            assert(a =~= b);
        } else if a.len() == 1 {
            assert((more_a + x)[0] == ']');
            assert((more_b + y)[0] == ',');
        } else if b.len() == 1 {
            assert((more_b + y)[0] == ']');
            assert((more_a + x)[0] == ',');
        } else {
            lemma_assoc(","@, members_json(a.skip(1)), x);
            lemma_assoc(","@, members_json(b.skip(1)), y);
            lemma_same_rest(","@, ","@, members_json(a.skip(1)) + x, members_json(b.skip(1)) + y);
            lemma_members_end(a.skip(1), b.skip(1), r, q);
            assert(a =~= seq![a[0]] + a.skip(1));
            assert(b =~= seq![b[0]] + b.skip(1));
        }
    }
}

/// A signature of metadata is one of all of it: no other metadata has the same text.
#[verifier::spinoff_prover]
#[verifier::rlimit(60)]
pub proof fn metadata_is_signed_whole(a: MetadataV, b: MetadataV)
    requires
        metadata_json(a) == metadata_json(b),
    ensures
        a == b,
{
    let t1 = "{\"id\":"@;
    let t2 = ",\"created\":"@;
    let t3 = ",\"modified\":"@;
    let t4 = ",\"modified_by\":"@;
    let t5 = ",\"encryption_algorithm\":"@;
    let t6 = ",\"members\":["@;
    let t7 = ",\"body_hash\":"@;
    let t8 = ",\"signature\":"@;
    let t9 = "}"@;
    let encryption_a = match a.encryption_algorithm {
        Some(x) => t5 + json_string(x),
        None => Seq::empty(),
    };
    let encryption_b = match b.encryption_algorithm {
        Some(x) => t5 + json_string(x),
        None => Seq::empty(),
    };
    let hash_a = match a.body_hash {
        Some(h) => t7 + json_tagged(h),
        None => Seq::empty(),
    };
    let hash_b = match b.body_hash {
        Some(h) => t7 + json_tagged(h),
        None => Seq::empty(),
    };
    let x8 = json_tagged(a.signature) + t9;
    let y8 = json_tagged(b.signature) + t9;
    let x7 = hash_a + (t8 + x8);
    let y7 = hash_b + (t8 + y8);
    let x6 = members_json(a.members) + ("]"@ + x7);
    let y6 = members_json(b.members) + ("]"@ + y7);
    let x5 = encryption_a + (t6 + x6);
    let y5 = encryption_b + (t6 + y6);
    let x4 = json_string(a.modified_by) + x5;
    let y4 = json_string(b.modified_by) + y5;
    let x3 = json_string(a.modified) + (t4 + x4);
    let y3 = json_string(b.modified) + (t4 + y4);
    let x2 = json_string(a.created) + (t3 + x3);
    let y2 = json_string(b.created) + (t3 + y3);
    let x1 = json_string(a.id) + (t2 + x2);
    let y1 = json_string(b.id) + (t2 + y2);
    lemma_metadata_nest(a, encryption_a, hash_a, x1);
    lemma_metadata_nest(b, encryption_b, hash_b, y1);
    lemma_same_rest(t1, t1, x1, y1);
    strings_tell_their_text(a.id, b.id, t2 + x2, t2 + y2);
    lemma_same_rest(t2, t2, x2, y2);
    strings_tell_their_text(a.created, b.created, t3 + x3, t3 + y3);
    lemma_same_rest(t3, t3, x3, y3);
    strings_tell_their_text(a.modified, b.modified, t4 + x4, t4 + y4);
    lemma_same_rest(t4, t4, x4, y4);
    strings_tell_their_text(a.modified_by, b.modified_by, x5, y5);
    assert(a.encryption_algorithm == b.encryption_algorithm && x6 == y6) by {
        lemma_optional_text(t5, a.encryption_algorithm, b.encryption_algorithm, t6, x6, y6);
    }
    lemma_members_end(a.members, b.members, x7, y7);
    assert(a.body_hash == b.body_hash && x8 == y8) by {
        lemma_optional_tagged(t7, a.body_hash, b.body_hash, t8, x8, y8);
    }
    tagged_bytes_are_told(a.signature, b.signature, t9, t9);
}

#[verifier::spinoff_prover]
#[verifier::rlimit(40)]
proof fn lemma_metadata_nest(m: MetadataV, encryption: Seq<char>, hash: Seq<char>, x1: Seq<char>)
    requires
        encryption == (match m.encryption_algorithm {
            Some(x) => ",\"encryption_algorithm\":"@ + json_string(x),
            None => Seq::empty(),
        }),
        hash == (match m.body_hash {
            Some(h) => ",\"body_hash\":"@ + json_tagged(h),
            None => Seq::empty(),
        }),
        ({
            let x8 = json_tagged(m.signature) + "}"@;
            let x7 = hash + (",\"signature\":"@ + x8);
            let x6 = members_json(m.members) + ("]"@ + x7);
            let x5 = encryption + (",\"members\":["@ + x6);
            let x4 = json_string(m.modified_by) + x5;
            let x3 = json_string(m.modified) + (",\"modified_by\":"@ + x4);
            let x2 = json_string(m.created) + (",\"modified\":"@ + x3);
            x1 == json_string(m.id) + (",\"created\":"@ + x2)
        }),
    ensures
        metadata_json(m) == "{\"id\":"@ + x1,
{
    let s1 = json_string(m.id);
    let s2 = json_string(m.created);
    let s3 = json_string(m.modified);
    let s4 = json_string(m.modified_by);
    let t6 = ",\"members\":["@;
    let list = members_json(m.members);
    let t8 = ",\"signature\":"@;
    let sign = json_tagged(m.signature);
    let front = "{\"id\":"@ + s1 + ",\"created\":"@ + s2 + ",\"modified\":"@ + s3 + ",\"modified_by\":"@ + s4;
    lemma_nest(front, encryption, t6, list, "]"@, hash, t8, sign, "}"@);
    let rest = encryption + (t6 + (list + ("]"@ + (hash + (t8 + (sign + "}"@))))));
    lemma_nest(
        "{\"id\":"@,
        s1,
        ",\"created\":"@,
        s2,
        ",\"modified\":"@,
        s3,
        ",\"modified_by\":"@,
        s4,
        rest,
    );
}

#[verifier::rlimit(40)]
proof fn lemma_optional_text(
    t: Seq<char>,
    a: Option<Seq<char>>,
    b: Option<Seq<char>>,
    u: Seq<char>,
    r: Seq<char>,
    q: Seq<char>,
)
    requires
        t == ",\"encryption_algorithm\":"@,
        u == ",\"members\":["@,
        ({
            let x = match a {
                Some(s) => t + json_string(s),
                None => Seq::empty(),
            };
            let y = match b {
                Some(s) => t + json_string(s),
                None => Seq::empty(),
            };
            x + (u + r) == y + (u + q)
        }),
    ensures
        a == b,
        r == q,
{
    reveal_strlit(",\"encryption_algorithm\":");
    reveal_strlit(",\"members\":[");
    match (a, b) {
        (Some(s), Some(w)) => {
            assert(t + json_string(s) + (u + r) =~= t + (json_string(s) + (u + r)));
            assert(t + json_string(w) + (u + q) =~= t + (json_string(w) + (u + q)));
            lemma_same_rest(t, t, json_string(s) + (u + r), json_string(w) + (u + q));
            strings_tell_their_text(s, w, u + r, u + q);
            lemma_same_rest(u, u, r, q);
        },
        (None, None) => {
            assert(Seq::<char>::empty() + (u + r) =~= u + r);
            assert(Seq::<char>::empty() + (u + q) =~= u + q);
            lemma_same_rest(u, u, r, q);
        },
        (Some(s), None) => {
            assert((t + json_string(s) + (u + r))[2] == 'e');
            assert((Seq::<char>::empty() + (u + q))[2] == 'm');
        },
        (None, Some(s)) => {
            assert((t + json_string(s) + (u + q))[2] == 'e');
            assert((Seq::<char>::empty() + (u + r))[2] == 'm');
        },
    }
}

#[verifier::rlimit(40)]
proof fn lemma_optional_tagged(
    t: Seq<char>,
    a: Option<Tagged>,
    b: Option<Tagged>,
    u: Seq<char>,
    r: Seq<char>,
    q: Seq<char>,
)
    requires
        t == ",\"body_hash\":"@,
        u == ",\"signature\":"@,
        ({
            let x = match a {
                Some(s) => t + json_tagged(s),
                None => Seq::empty(),
            };
            let y = match b {
                Some(s) => t + json_tagged(s),
                None => Seq::empty(),
            };
            x + (u + r) == y + (u + q)
        }),
    ensures
        a == b,
        r == q,
{
    reveal_strlit(",\"body_hash\":");
    reveal_strlit(",\"signature\":");
    match (a, b) {
        (Some(s), Some(w)) => {
            assert(t + json_tagged(s) + (u + r) =~= t + (json_tagged(s) + (u + r)));
            assert(t + json_tagged(w) + (u + q) =~= t + (json_tagged(w) + (u + q)));
            lemma_same_rest(t, t, json_tagged(s) + (u + r), json_tagged(w) + (u + q));
            tagged_bytes_are_told(s, w, u + r, u + q);
            lemma_same_rest(u, u, r, q);
        },
        (None, None) => {
            assert(Seq::<char>::empty() + (u + r) =~= u + r);
            assert(Seq::<char>::empty() + (u + q) =~= u + q);
            lemma_same_rest(u, u, r, q);
        },
        (Some(s), None) => {
            assert((t + json_tagged(s) + (u + r))[2] == 'b');
            assert((Seq::<char>::empty() + (u + q))[2] == 's');
        },
        (None, Some(s)) => {
            assert((t + json_tagged(s) + (u + q))[2] == 'b');
            assert((Seq::<char>::empty() + (u + r))[2] == 's');
        },
    }
}

#[verifier::rlimit(40)]
proof fn lemma_strings_front(list: Seq<Seq<char>>)
    requires
        list.len() > 0,
    ensures
        json_strings(list) == json_string(list[0]) + (if list.len() == 1 {
            Seq::empty()
        } else {
            ","@ + json_strings(list.skip(1))
        }),
    decreases list.len(),
{
    let head = json_string(list[0]);
    if list.len() == 1 {
        lemma_nothing(head);
    } else {
        let front = list.drop_last();
        lemma_strings_front(front);
        let rest = list.skip(1);
        let tail = json_string(list.last());
        if list.len() == 2 {
            assert(rest.len() == 1 && rest[0] == list.last());
            lemma_nothing(head);
            lemma_assoc(head, ","@, tail);
        } else {
            assert(rest.drop_last() =~= front.skip(1));
            let mid = json_strings(front.skip(1));
            lemma_assoc(head, ","@ + mid, ","@);
            lemma_assoc(head, ","@ + mid + ","@, tail);
            lemma_assoc(","@, mid, ","@);
            lemma_assoc(","@, mid + ","@, tail);
        }
    }
}

#[verifier::rlimit(40)]
proof fn lemma_strings_end(a: Seq<Seq<char>>, b: Seq<Seq<char>>, r: Seq<char>, q: Seq<char>)
    requires
        json_strings(a) + ("]"@ + r) == json_strings(b) + ("]"@ + q),
    ensures
        a == b,
        r == q,
    decreases a.len(),
{
    reveal_strlit("]");
    reveal_strlit(",");
    reveal_strlit("\"");
    let x = "]"@ + r;
    let y = "]"@ + q;
    if a.len() == 0 && b.len() == 0 {
        lemma_nothing(x);
        lemma_nothing(y);
        lemma_same_rest("]"@, "]"@, r, q);
        assert(a =~= b);
    } else if a.len() == 0 {
        lemma_strings_front(b);
        assert((json_strings(a) + x)[0] == ']');
        assert((json_strings(b) + y)[0] == '"');
    } else if b.len() == 0 {
        lemma_strings_front(a);
        assert((json_strings(b) + y)[0] == ']');
        assert((json_strings(a) + x)[0] == '"');
    } else {
        lemma_strings_front(a);
        lemma_strings_front(b);
        let more_a = if a.len() == 1 {
            Seq::empty()
        } else {
            ","@ + json_strings(a.skip(1))
        };
        let more_b = if b.len() == 1 {
            Seq::empty()
        } else {
            ","@ + json_strings(b.skip(1))
        };
        lemma_assoc(json_string(a[0]), more_a, x);
        lemma_assoc(json_string(b[0]), more_b, y);
        strings_tell_their_text(a[0], b[0], more_a + x, more_b + y);
        if a.len() == 1 && b.len() == 1 {
            lemma_nothing(x);
            lemma_nothing(y);
            lemma_same_rest("]"@, "]"@, r, q);
            assert(a =~= b);
        } else if a.len() == 1 {
            assert((more_a + x)[0] == ']');
            assert((more_b + y)[0] == ',');
        } else if b.len() == 1 {
            assert((more_b + y)[0] == ']');
            assert((more_a + x)[0] == ',');
        } else {
            lemma_assoc(","@, json_strings(a.skip(1)), x);
            lemma_assoc(","@, json_strings(b.skip(1)), y);
            lemma_same_rest(","@, ","@, json_strings(a.skip(1)) + x, json_strings(b.skip(1)) + y);
            lemma_strings_end(a.skip(1), b.skip(1), r, q);
            assert(a =~= seq![a[0]] + a.skip(1));
            assert(b =~= seq![b[0]] + b.skip(1));
        }
    }
}

/// A signature of an identity is one of all of it: no other identity has the same text.
#[verifier::spinoff_prover]
#[verifier::rlimit(60)]
pub proof fn identities_are_signed_whole(a: IdentityV, b: IdentityV)
    requires
        identity_json(a) == identity_json(b),
    ensures
        a == b,
{
    let t1 = "{\"public_key\":"@;
    let t2 = ",\"address\":"@;
    let t3 = ",\"members\":["@;
    let t4 = ",\"signature\":"@;
    let t5 = "}"@;
    let members_a = match a.members {
        Some(list) => t3 + json_strings(list) + "]"@,
        None => Seq::empty(),
    };
    let members_b = match b.members {
        Some(list) => t3 + json_strings(list) + "]"@,
        None => Seq::empty(),
    };
    let x4 = json_tagged(a.signature) + t5;
    let y4 = json_tagged(b.signature) + t5;
    let x3 = members_a + (t4 + x4);
    let y3 = members_b + (t4 + y4);
    let x2 = json_string(a.address) + x3;
    let y2 = json_string(b.address) + y3;
    let x1 = json_tagged(a.public_key) + (t2 + x2);
    let y1 = json_tagged(b.public_key) + (t2 + y2);
    lemma_nest(t1, json_tagged(a.public_key), t2, json_string(a.address), members_a, t4, x4, t5, t5);
    lemma_nest(t1, json_tagged(b.public_key), t2, json_string(b.address), members_b, t4, y4, t5, t5);
    lemma_assoc(
        t1 + json_tagged(a.public_key) + t2 + json_string(a.address) + members_a + t4,
        json_tagged(a.signature),
        t5,
    );
    lemma_assoc(
        t1 + json_tagged(b.public_key) + t2 + json_string(b.address) + members_b + t4,
        json_tagged(b.signature),
        t5,
    );
    lemma_same_rest(t1, t1, x1, y1);
    tagged_bytes_are_told(a.public_key, b.public_key, t2 + x2, t2 + y2);
    lemma_same_rest(t2, t2, x2, y2);
    strings_tell_their_text(a.address, b.address, x3, y3);
    reveal_strlit(",\"members\":[");
    reveal_strlit(",\"signature\":");
    match (a.members, b.members) {
        (Some(s), Some(w)) => {
            lemma_assoc(t3 + json_strings(s), "]"@, t4 + x4);
            lemma_assoc(t3, json_strings(s), "]"@ + (t4 + x4));
            lemma_assoc(t3 + json_strings(w), "]"@, t4 + y4);
            lemma_assoc(t3, json_strings(w), "]"@ + (t4 + y4));
            lemma_same_rest(t3, t3, json_strings(s) + ("]"@ + (t4 + x4)), json_strings(w) + ("]"@ + (t4 + y4)));
            lemma_strings_end(s, w, t4 + x4, t4 + y4);
            lemma_same_rest(t4, t4, x4, y4);
        },
        (None, None) => {
            lemma_nothing(t4 + x4);
            lemma_nothing(t4 + y4);
            lemma_same_rest(t4, t4, x4, y4);
        },
        (Some(s), None) => {
            assert(x3[2] == 'm');
            assert(y3[2] == 's');
        },
        (None, Some(s)) => {
            assert(x3[2] == 's');
            assert(y3[2] == 'm');
        },
    }
    tagged_bytes_are_told(a.signature, b.signature, t5, t5);
}

proof fn lemma_kinds(a: DirectoryEntryKind, b: DirectoryEntryKind, r: Seq<char>, q: Seq<char>)
    requires
        kind_name(a) + ("\""@ + r) == kind_name(b) + ("\""@ + q),
    ensures
        a == b,
        r == q,
{
    reveal_strlit("dir");
    reveal_strlit("file");
    reveal_strlit("symlink");
    let w = kind_name(a) + ("\""@ + r);
    let v = kind_name(b) + ("\""@ + q);
    assert(w[0] == kind_name(a)[0]);
    assert(v[0] == kind_name(b)[0]);
    assert(a == b);
    lemma_same_rest(kind_name(a), kind_name(b), "\""@ + r, "\""@ + q);
    lemma_same_rest("\""@, "\""@, r, q);
}

proof fn lemma_last_part(a: Seq<char>, b: Seq<char>, t: Seq<char>)
    requires
        a + t == b + t,
    ensures
        a == b,
{
    assert((a + t).len() == a.len() + t.len());
    assert((b + t).len() == b.len() + t.len());
    lemma_same_rest(a, b, t, t);
}

/// An entry of a listing tells its kind, its name and its size.
#[verifier::rlimit(40)]
pub proof fn entries_are_told(a: EntryV, b: EntryV, layout: Layout)
    requires
        entry_json(a, layout) == entry_json(b, layout),
    ensures
        a.kind == b.kind,
        a.name == b.name,
        a.size == b.size,
{
    let da = decimal(a.size as nat);
    let db = decimal(b.size as nat);
    let e = "}"@;
    lemma_decimal(a.size as nat);
    lemma_decimal(b.size as nat);
    match layout {
        Layout::Account => {
            let t1 = "{\"kind\":\""@;
            let t2 = "\",\"name\":\""@;
            let t3 = "\",\"size\":"@;
            let u2 = ",\"name\":\""@;
            let u3 = ",\"size\":"@;
            lemma_quoted();
            lemma_nest(t1, kind_name(a.kind), t2, escaped(a.name), t3, da, e, e, e);
            lemma_nest(t1, kind_name(b.kind), t2, escaped(b.name), t3, db, e, e, e);
            let xa = escaped(a.name) + (t3 + (da + e));
            let xb = escaped(b.name) + (t3 + (db + e));
            lemma_same_rest(t1, t1, kind_name(a.kind) + (t2 + xa), kind_name(b.kind) + (t2 + xb));
            lemma_assoc("\""@, u2, xa);
            lemma_assoc("\""@, u2, xb);
            lemma_kinds(a.kind, b.kind, u2 + xa, u2 + xb);
            lemma_same_rest(u2, u2, xa, xb);
            lemma_assoc("\""@, u3, da + e);
            lemma_assoc("\""@, u3, db + e);
            lemma_escaped_ends(a.name, b.name, u3 + (da + e), u3 + (db + e));
            lemma_same_rest(u3, u3, da + e, db + e);
        },
        Layout::Plain => {
            let t1 = "{\"name\":\""@;
            let t2 = "\",\"type\":\""@;
            let t3 = "\",\"size\":"@;
            let u2 = ",\"type\":\""@;
            let u3 = ",\"size\":"@;
            lemma_quoted();
            lemma_nest(t1, escaped(a.name), t2, kind_name(a.kind), t3, da, e, e, e);
            lemma_nest(t1, escaped(b.name), t2, kind_name(b.kind), t3, db, e, e, e);
            let xa = kind_name(a.kind) + (t3 + (da + e));
            let xb = kind_name(b.kind) + (t3 + (db + e));
            lemma_same_rest(t1, t1, escaped(a.name) + (t2 + xa), escaped(b.name) + (t2 + xb));
            lemma_assoc("\""@, u2, xa);
            lemma_assoc("\""@, u2, xb);
            lemma_escaped_ends(a.name, b.name, u2 + xa, u2 + xb);
            lemma_same_rest(u2, u2, xa, xb);
            lemma_assoc("\""@, u3, da + e);
            lemma_assoc("\""@, u3, db + e);
            lemma_kinds(a.kind, b.kind, u3 + (da + e), u3 + (db + e));
            lemma_same_rest(u3, u3, da + e, db + e);
        },
    }
    lemma_last_part(da, db, e);
}

proof fn lemma_quoted()
    ensures
        "\",\"name\":\""@ == "\""@ + ",\"name\":\""@,
        "\",\"type\":\""@ == "\""@ + ",\"type\":\""@,
        "\",\"size\":"@ == "\""@ + ",\"size\":"@,
{
    reveal_strlit("\"");
    reveal_strlit("\",\"name\":\"");
    reveal_strlit(",\"name\":\"");
    reveal_strlit("\",\"type\":\"");
    reveal_strlit(",\"type\":\"");
    reveal_strlit("\",\"size\":");
    reveal_strlit(",\"size\":");
    assert("\",\"name\":\""@ =~= "\""@ + ",\"name\":\""@);
    assert("\",\"type\":\""@ =~= "\""@ + ",\"type\":\""@);
    assert("\",\"size\":"@ =~= "\""@ + ",\"size\":"@);
}

/// A control character in a string without a short form is written with its number, in
/// lower-case hexadecimal digits.
pub proof fn controls_are_written_as_numbers(c: char, d: int)
    ensures
        0 <= d < 10 ==> hex_digit(d) as u32 == '0' as u32 + d,
        10 <= d < 16 ==> hex_digit(d) as u32 == 'a' as u32 + d - 10,
        (c as u32) < 0x20 && escape_char(c).len() != 2 ==> escape_char(c) == seq![
            '\\',
            'u',
            '0',
            '0',
            hex_digit((c as u32) as int / 16),
            hex_digit((c as u32) as int % 16),
        ],
        (c as u32) >= 0x20 && c != '"' && c != '\\' ==> escape_char(c) == seq![c],
        escape_char('"') == seq!['\\', '"'],
        escape_char('\\') == seq!['\\', '\\'],
        escape_char('\n') == seq!['\\', 'n'],
        escape_char('\r') == seq!['\\', 'r'],
        escape_char('\t') == seq!['\\', 't'],
{
}

} // verus!
