//! URL-safe base64 without padding.

use vstd::prelude::*;

use crate::text::{from_chars, to_chars};

verus! {

/// The character that stands for six bits.
pub open spec fn symbol(v: int) -> char {
    if v < 26 {
        (('A' as u32) + v) as char
    } else if v < 52 {
        (('a' as u32) + (v - 26)) as char
    } else if v < 62 {
        (('0' as u32) + (v - 52)) as char
    } else if v == 62 {
        '-'
    } else {
        '_'
    }
}

/// The six bits that a character stands for.
pub open spec fn value(c: char) -> Option<int> {
    if 'A' <= c <= 'Z' {
        Some(c as u32 - 'A' as u32)
    } else if 'a' <= c <= 'z' {
        Some(c as u32 - 'a' as u32 + 26)
    } else if '0' <= c <= '9' {
        Some(c as u32 - '0' as u32 + 52)
    } else if c == '-' {
        Some(62)
    } else if c == '_' {
        Some(63)
    } else {
        None
    }
}

/// The text of a byte string: four characters for each three bytes, two or
/// three for what is left.
pub open spec fn encoded(b: Seq<u8>) -> Seq<char>
    decreases b.len(),
{
    if b.len() == 0 {
        Seq::empty()
    } else if b.len() == 1 {
        seq![symbol((b[0] / 4) as int), symbol((b[0] % 4) * 16)]
    } else if b.len() == 2 {
        seq![symbol((b[0] / 4) as int), symbol((b[0] % 4) * 16 + b[1] / 16), symbol((b[1] % 16) * 4)]
    } else {
        seq![
            symbol((b[0] / 4) as int),
            symbol((b[0] % 4) * 16 + b[1] / 16),
            symbol((b[1] % 16) * 4 + b[2] / 64),
            symbol((b[2] % 64) as int),
        ] + encoded(b.skip(3))
    }
}

/// The bytes of a text, when it is one that `encoded` produces.
pub open spec fn decoded(s: Seq<char>) -> Option<Seq<u8>>
    decreases s.len(),
{
    if s.len() == 0 {
        Some(Seq::empty())
    } else if s.len() == 1 {
        None
    } else if s.len() == 2 {
        match (value(s[0]), value(s[1])) {
            (Some(x), Some(y)) if y % 16 == 0 => Some(seq![(x * 4 + y / 16) as u8]),
            _ => None,
        }
    } else if s.len() == 3 {
        match (value(s[0]), value(s[1]), value(s[2])) {
            (Some(x), Some(y), Some(z)) if z % 4 == 0 => Some(
                seq![(x * 4 + y / 16) as u8, ((y % 16) * 16 + z / 4) as u8],
            ),
            _ => None,
        }
    } else {
        match (value(s[0]), value(s[1]), value(s[2]), value(s[3]), decoded(s.skip(4))) {
            (Some(x), Some(y), Some(z), Some(w), Some(rest)) => Some(
                seq![
                    (x * 4 + y / 16) as u8,
                    ((y % 16) * 16 + z / 4) as u8,
                    ((z % 4) * 64 + w) as u8,
                ] + rest,
            ),
            _ => None,
        }
    }
}

proof fn lemma_symbol(v: int)
    requires
        0 <= v < 64,
    ensures
        value(symbol(v)) == Some(v),
{
}

proof fn lemma_value(c: char)
    ensures
        value(c) matches Some(v) ==> 0 <= v < 64 && symbol(v) == c,
{
}

/// Decoding undoes encoding.
pub proof fn decode_after_encode(b: Seq<u8>)
    ensures
        decoded(encoded(b)) == Some(b),
    decreases b.len(),
{
    let s = encoded(b);
    if b.len() == 0 {
        assert(b =~= Seq::empty());
    } else if b.len() == 1 {
        lemma_symbol((b[0] / 4) as int);
        lemma_symbol((b[0] % 4) * 16);
        assert(decoded(s)->0 =~= b);
    } else if b.len() == 2 {
        lemma_symbol((b[0] / 4) as int);
        lemma_symbol((b[0] % 4) * 16 + b[1] / 16);
        lemma_symbol((b[1] % 16) * 4);
        assert(decoded(s)->0 =~= b);
    } else {
        decode_after_encode(b.skip(3));
        lemma_symbol((b[0] / 4) as int);
        lemma_symbol((b[0] % 4) * 16 + b[1] / 16);
        lemma_symbol((b[1] % 16) * 4 + b[2] / 64);
        lemma_symbol((b[2] % 64) as int);
        assert(s.skip(4) =~= encoded(b.skip(3)));
        assert(decoded(s)->0 =~= b);
    }
}

/// Only one text stands for each byte string.
pub proof fn encode_after_decode(s: Seq<char>)
    ensures
        decoded(s) matches Some(b) ==> encoded(b) == s,
    decreases s.len(),
{
    if let Some(b) = decoded(s) {
        if s.len() == 0 {
            assert(s =~= Seq::empty());
        } else if s.len() == 2 {
            lemma_value(s[0]);
            lemma_value(s[1]);
            assert(encoded(b) =~= s);
        } else if s.len() == 3 {
            lemma_value(s[0]);
            lemma_value(s[1]);
            lemma_value(s[2]);
            assert(encoded(b) =~= s);
        } else {
            encode_after_decode(s.skip(4));
            lemma_value(s[0]);
            lemma_value(s[1]);
            lemma_value(s[2]);
            lemma_value(s[3]);
            assert(b.skip(3) =~= decoded(s.skip(4))->0);
            assert(encoded(b) =~= s);
        }
    }
}

fn symbol_of(v: u8) -> (r: char)
    requires
        v < 64,
    ensures
        r == symbol(v as int),
{
    if v < 26 {
        (65 + v) as char
    } else if v < 52 {
        (97 + (v - 26)) as char
    } else if v < 62 {
        (48 + (v - 52)) as char
    } else if v == 62 {
        '-'
    } else {
        '_'
    }
}

fn value_of(c: char) -> (r: Option<u8>)
    ensures
        r is Some <==> value(c) is Some,
        r matches Some(v) ==> value(c) == Some(v as int) && v < 64,
{
    if 'A' <= c && c <= 'Z' {
        Some((c as u8) - 65)
    } else if 'a' <= c && c <= 'z' {
        Some((c as u8) - 97 + 26)
    } else if '0' <= c && c <= '9' {
        Some((c as u8) - 48 + 52)
    } else if c == '-' {
        Some(62)
    } else if c == '_' {
        Some(63)
    } else {
        None
    }
}

/// The text of a byte string.
pub fn encode_base64url(bytes: &[u8]) -> (r: String)
    ensures
        r@ == encoded(bytes@),
{
    let n: usize = bytes.len();
    let mut out: Vec<char> = Vec::new();
    let mut i: usize = 0;
    assert(bytes@.skip(0) =~= bytes@);
    assert(out@ + encoded(bytes@) =~= encoded(bytes@));
    while n - i >= 3
        invariant
            i <= n == bytes@.len(),
            out@ + encoded(bytes@.skip(i as int)) == encoded(bytes@),
        decreases n - i,
    {
        let a: u8 = bytes[i];
        let b: u8 = bytes[i + 1];
        let c: u8 = bytes[i + 2];
        let ghost earlier = out@;
        out.push(symbol_of(a / 4));
        out.push(symbol_of((a % 4) * 16 + b / 16));
        out.push(symbol_of((b % 16) * 4 + c / 64));
        out.push(symbol_of(c % 64));
        proof {
            let s = bytes@.skip(i as int);
            assert(s.skip(3) =~= bytes@.skip(i + 3));
            let four = seq![
                symbol((a / 4) as int),
                symbol((a % 4) * 16 + b / 16),
                symbol((b % 16) * 4 + c / 64),
                symbol((c % 64) as int),
            ];
            assert(out@ =~= earlier + four);
            assert(encoded(s) == four + encoded(s.skip(3)));
            assert(earlier + (four + encoded(s.skip(3))) =~= (earlier + four) + encoded(s.skip(3)));
        }
        i = i + 3;
    }
    let ghost earlier = out@;
    let ghost s = bytes@.skip(i as int);
    if n - i == 1 {
        let a: u8 = bytes[i];
        out.push(symbol_of(a / 4));
        out.push(symbol_of((a % 4) * 16));
        assert(out@ =~= earlier + encoded(s));
    } else if n - i == 2 {
        let a: u8 = bytes[i];
        let b: u8 = bytes[i + 1];
        out.push(symbol_of(a / 4));
        out.push(symbol_of((a % 4) * 16 + b / 16));
        out.push(symbol_of((b % 16) * 4));
        assert(out@ =~= earlier + encoded(s));
    } else {
        assert(out@ =~= earlier + encoded(s));
    }
    from_chars(&out)
}

/// The bytes of a text, when it is canonical.
pub fn decode_base64url(text: &str) -> (r: Option<Vec<u8>>)
    ensures
        r is Some <==> decoded(text@) is Some,
        r matches Some(b) ==> decoded(text@) == Some(b@),
{
    let chars = to_chars(text);
    let n: usize = chars.len();
    let mut out: Vec<u8> = Vec::new();
    let mut i: usize = 0;
    proof {
        assert(chars@.skip(0) =~= chars@);
        if let Some(rest) = decoded(chars@) {
            assert(out@ + rest =~= rest);
        }
    }
    while n - i >= 4
        invariant
            i <= n == chars@.len(),
            chars@ == text@,
            decoded(text@) == (match decoded(chars@.skip(i as int)) {
                Some(rest) => Some(out@ + rest),
                None => None,
            }),
        decreases n - i,
    {
        let ghost s = chars@.skip(i as int);
        assert(s.skip(4) =~= chars@.skip(i + 4));
        match (value_of(chars[i]), value_of(chars[i + 1]), value_of(chars[i + 2]), value_of(chars[i + 3])) {
            (Some(x), Some(y), Some(z), Some(w)) => {
                let ghost earlier = out@;
                out.push(x * 4 + y / 16);
                out.push((y % 16) * 16 + z / 4);
                out.push((z % 4) * 64 + w);
                proof {
                    let three = seq![
                        (x * 4 + y / 16) as u8,
                        ((y % 16) * 16 + z / 4) as u8,
                        ((z % 4) * 64 + w) as u8,
                    ];
                    assert(out@ =~= earlier + three);
                    if let Some(rest) = decoded(s.skip(4)) {
                        assert(earlier + (three + rest) =~= (earlier + three) + rest);
                    }
                }
                i = i + 4;
            },
            _ => {
                return None;
            },
        }
    }
    let ghost s = chars@.skip(i as int);
    let ghost earlier = out@;
    if n - i == 0 {
        assert(earlier + Seq::<u8>::empty() =~= earlier);
        Some(out)
    } else if n - i == 1 {
        None
    } else if n - i == 2 {
        match (value_of(chars[i]), value_of(chars[i + 1])) {
            (Some(x), Some(y)) => {
                if y % 16 != 0 {
                    return None;
                }
                out.push(x * 4 + y / 16);
                assert(out@ =~= earlier + seq![(x * 4 + y / 16) as u8]);
                Some(out)
            },
            _ => None,
        }
    } else {
        match (value_of(chars[i]), value_of(chars[i + 1]), value_of(chars[i + 2])) {
            (Some(x), Some(y), Some(z)) => {
                if z % 4 != 0 {
                    return None;
                }
                out.push(x * 4 + y / 16);
                out.push((y % 16) * 16 + z / 4);
                assert(out@ =~= earlier + seq![(x * 4 + y / 16) as u8, ((y % 16) * 16 + z / 4) as u8]);
                Some(out)
            },
            _ => None,
        }
    }
}

} // verus!
