//! Decimal numbers as text.

use vstd::prelude::*;

use crate::text::{from_chars, part};

verus! {

/// The character of a decimal digit.
pub open spec fn digit(d: nat) -> char {
    (('0' as u32) + d) as char
}

/// The decimal text of a number, without leading zeros.
pub open spec fn decimal(n: nat) -> Seq<char>
    decreases n,
{
    if n < 10 {
        seq![digit(n)]
    } else {
        decimal(n / 10).push(digit(n % 10))
    }
}

/// Whether a character is an ASCII digit.
pub open spec fn is_digit(c: char) -> bool {
    '0' <= c <= '9'
}

/// The number that a run of digits stands for.
pub open spec fn digits_value(s: Seq<char>) -> nat
    decreases s.len(),
{
    if s.len() == 0 {
        0
    } else {
        10 * digits_value(s.drop_last()) + (s.last() as nat - '0' as nat) as nat
    }
}

/// Whether every character is an ASCII digit.
pub open spec fn all_digits(s: Seq<char>) -> bool {
    forall|i: int| 0 <= i < s.len() ==> is_digit(#[trigger] s[i])
}

/// The number that `s` stands for: an optional plus sign and then one or more
/// digits, at most `max`.
pub open spec fn parsed(s: Seq<char>, max: nat) -> Option<nat> {
    let t = if s.len() > 0 && s[0] == '+' {
        s.skip(1)
    } else {
        s
    };
    if t.len() > 0 && all_digits(t) && digits_value(t) <= max {
        Some(digits_value(t))
    } else {
        None
    }
}

proof fn lemma_value_grows(s: Seq<char>, i: int)
    requires
        0 <= i <= s.len(),
        all_digits(s),
    ensures
        digits_value(s.take(i)) <= digits_value(s),
    decreases s.len() - i,
{
    if i == s.len() {
        assert(s.take(i) =~= s);
    } else {
        lemma_value_grows(s, i + 1);
        assert(s.take(i + 1).drop_last() =~= s.take(i));
    }
}

fn digit_of(c: char) -> (r: Option<u64>)
    ensures
        r is Some <==> is_digit(c),
        r matches Some(d) ==> d == c as nat - '0' as nat && d < 10,
{
    if '0' <= c && c <= '9' {
        Some(((c as u8) - 48) as u64)
    } else {
        None
    }
}

/// Reads a number of at most `max`.
pub fn parse_up_to(s: &[char], max: u64) -> (r: Option<u64>)
    ensures
        r is Some <==> parsed(s@, max as nat) is Some,
        r matches Some(n) ==> parsed(s@, max as nat) == Some(n as nat),
{
    let n: usize = s.len();
    let start: usize = if n > 0 && s[0] == '+' { 1 } else { 0 };
    if start == n {
        return None;
    }
    let t = part(s, start, n);
    proof {
        if start == 1 {
            assert(t@ =~= s@.skip(1));
        } else {
            assert(t@ =~= s@);
        }
    }
    let m: usize = t.len();
    let mut acc: u64 = 0;
    let mut i: usize = 0;
    assert(t@.take(0).len() == 0);
    while i < m
        invariant
            i <= m == t@.len(),
            acc <= max,
            forall|k: int| 0 <= k < i ==> is_digit(#[trigger] t@[k]),
            acc == digits_value(t@.take(i as int)),
            m > 0,
            parsed(s@, max as nat) == (if all_digits(t@) && digits_value(t@) <= max as nat {
                Some(digits_value(t@))
            } else {
                None::<nat>
            }),
        decreases m - i,
    {
        match digit_of(t[i]) {
            Some(d) => {
                assert(t@.take(i + 1).drop_last() =~= t@.take(i as int));
                assert(t@.take(i + 1).last() == t@[i as int]);
                if d > max || acc > (max - d) / 10 {
                    proof {
                        assert(10 * acc + d > max);
                        if all_digits(t@) {
                            lemma_value_grows(t@, i + 1);
                        }
                    }
                    return None;
                }
                acc = 10 * acc + d;
                i = i + 1;
            },
            None => {
                return None;
            },
        }
    }
    assert(t@.take(m as int) =~= t@);
    Some(acc)
}

/// Reads a `usize`.
pub fn parse_usize(s: &[char]) -> (r: Option<usize>)
    ensures
        r is Some <==> parsed(s@, usize::MAX as nat) is Some,
        r matches Some(n) ==> parsed(s@, usize::MAX as nat) == Some(n as nat),
{
    match parse_up_to(s, usize::MAX as u64) {
        Some(n) => Some(n as usize),
        None => None,
    }
}

/// Reads a `u16`.
pub fn parse_u16(s: &[char]) -> (r: Option<u16>)
    ensures
        r is Some <==> parsed(s@, u16::MAX as nat) is Some,
        r matches Some(n) ==> parsed(s@, u16::MAX as nat) == Some(n as nat),
{
    match parse_up_to(s, 0xffff) {
        Some(n) => Some(n as u16),
        None => None,
    }
}

/// The decimal text of a number.
pub fn format_u64(n: u64) -> (r: String)
    ensures
        r@ == decimal(n as nat),
{
    let mut back: Vec<char> = Vec::new();
    let mut rest: u64 = n;
    assert(decimal(rest as nat) + back@.reverse() =~= decimal(n as nat));
    while rest >= 10
        invariant
            decimal(rest as nat) + back@.reverse() == decimal(n as nat),
        decreases rest,
    {
        let d: u8 = (rest % 10) as u8;
        let ghost earlier = back@;
        back.push((48u8 + d) as char);
        proof {
            assert(back@.last() == digit((rest % 10) as nat));
            assert(decimal(rest as nat) == decimal((rest / 10) as nat).push(digit((rest % 10) as nat)));
            assert(back@.reverse() =~= seq![back@.last()] + earlier.reverse());
            assert(decimal((rest / 10) as nat) + back@.reverse() =~= decimal(rest as nat) + earlier.reverse());
        }
        rest = rest / 10;
    }
    back.push((48u8 + rest as u8) as char);
    let mut out: Vec<char> = Vec::new();
    let m: usize = back.len();
    let mut i: usize = 0;
    while i < m
        invariant
            i <= m == back@.len(),
            out@ == back@.reverse().take(i as int),
        decreases m - i,
    {
        out.push(back[m - 1 - i]);
        i = i + 1;
    }
    proof {
        assert(back@.reverse().take(m as int) =~= back@.reverse());
        assert(back@.reverse() =~= decimal(rest as nat) + back@.drop_last().reverse());
    }
    from_chars(&out)
}

/// The decimal text of a number.
pub fn format_usize(n: usize) -> (r: String)
    ensures
        r@ == decimal(n as nat),
{
    format_u64(n as u64)
}

/// The decimal text of a number is a run of digits that stands for it.
pub proof fn lemma_decimal(n: nat)
    ensures
        decimal(n).len() > 0,
        all_digits(decimal(n)),
        digits_value(decimal(n)) == n,
    decreases n,
{
    if n < 10 {
        assert(digits_value(decimal(n).drop_last()) == 0);
    } else {
        lemma_decimal(n / 10);
        let s = decimal(n);
        assert(s.drop_last() =~= decimal(n / 10));
        assert forall|i: int| 0 <= i < s.len() implies is_digit(#[trigger] s[i]) by {
            if i < s.len() - 1 {
                assert(s[i] == decimal(n / 10)[i]);
            }
        }
    }
}

/// Reading the decimal text of a number gives the number back.
pub proof fn decimal_round_trip(n: nat, max: nat)
    requires
        n <= max,
    ensures
        parsed(decimal(n), max) == Some(n),
{
    lemma_decimal(n);
    assert(is_digit(decimal(n)[0]));
}

} // verus!
