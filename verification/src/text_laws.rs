//! What holds of texts, whatever they say.

use vstd::prelude::*;

use crate::number::{decimal, digits_value, lemma_decimal, parsed};
use crate::text::{
    after_prefix, ascii_lower, before, cut, first, first_space, is_space, last, lemma_first, lemma_first_is, lower,
    precedes, split, trim, trim_back, trim_front, words, Trim,
};

verus! {

// Order and case.

/// A text comes before another just where, behind what both begin with, it ends and the
/// other goes on, or its next character is the smaller one.
#[verifier::rlimit(40)]
pub proof fn texts_are_in_the_order_of_code_points(a: Seq<char>, b: Seq<char>)
    ensures
        precedes(a, b) <==> exists|k: int| #[trigger] parts_at(a, b, k) && k < b.len() && (k < a.len() ==> a[k] < b[k]),
    decreases a.len(),
{
    if a.len() > 0 && b.len() > 0 && a[0] == b[0] {
        let x = a.skip(1);
        let y = b.skip(1);
        texts_are_in_the_order_of_code_points(x, y);
        if precedes(a, b) {
            let k = choose|k: int| #[trigger] parts_at(x, y, k) && k < y.len() && (k < x.len() ==> x[k] < y[k]);
            assert forall|i: int| 0 <= i < k + 1 implies a[i] == b[i] by {
                if i > 0 {
                    assert(x[i - 1] == y[i - 1]);
                }
            }
            assert(parts_at(a, b, k + 1));
        }
        if exists|k: int| #[trigger] parts_at(a, b, k) && k < b.len() && (k < a.len() ==> a[k] < b[k]) {
            let k = choose|k: int| #[trigger] parts_at(a, b, k) && k < b.len() && (k < a.len() ==> a[k] < b[k]);
            assert(k > 0);
            assert forall|i: int| 0 <= i < k - 1 implies x[i] == y[i] by {
                assert(a[i + 1] == b[i + 1]);
            }
            assert(parts_at(x, y, k - 1));
        }
    } else {
        if precedes(a, b) {
            assert(parts_at(a, b, 0));
        }
        if exists|k: int| #[trigger] parts_at(a, b, k) && k < b.len() && (k < a.len() ==> a[k] < b[k]) {
            let k = choose|k: int| #[trigger] parts_at(a, b, k) && k < b.len() && (k < a.len() ==> a[k] < b[k]);
            if k > 0 {
                assert(a[0] == b[0]);
            }
        }
    }
}

/// Whether two texts begin with the same characters up to a position, where both are.
pub open spec fn parts_at(a: Seq<char>, b: Seq<char>, k: int) -> bool {
    0 <= k <= a.len() && k <= b.len() && forall|i: int| 0 <= i < k ==> a[i] == b[i]
}

/// Lower case makes the ASCII capitals small, one by one, and leaves the rest.
pub proof fn capitals_are_made_small(s: Seq<char>, i: int)
    requires
        0 <= i < s.len(),
    ensures
        lower(s).len() == s.len(),
        'A' <= s[i] <= 'Z' ==> lower(s)[i] as u32 == s[i] as u32 + 32,
        !('A' <= s[i] <= 'Z') ==> lower(s)[i] == s[i],
        lower(lower(s)) == lower(s),
{
    assert forall|j: int| 0 <= j < s.len() implies #[trigger] lower(lower(s))[j] == lower(s)[j] by {
        assert(lower(lower(s))[j] == ascii_lower(ascii_lower(s[j])));
    }
    assert(lower(lower(s)) =~= lower(s));
}

// Parts.

/// What stands before and after the first of a character, and the rest of a text behind
/// its beginning.
#[verifier::rlimit(40)]
pub proof fn texts_are_cut_at_the_first(a: Seq<char>, c: char, b: Seq<char>)
    requires
        !a.contains(c),
    ensures
        cut(a + seq![c] + b, c) == Some((a, b)),
        cut(a, c) is None,
        before(a + seq![c] + b, c) == a,
        before(a, c) == a,
        after_prefix(a + b, a) == Some(b),
{
    let whole = a + seq![c] + b;
    let n = a.len() as int;
    assert forall|k: int| 0 <= k < n implies whole[k] != c by {
        assert(a.contains(a[k]));
    }
    lemma_first_is(whole, c, n);
    assert(whole.take(n) =~= a);
    assert(whole.skip(n + 1) =~= b);
    assert forall|k: int| 0 <= k < n implies a[k] != c by {
        assert(a.contains(a[k]));
    }
    lemma_first_is(a, c, n);
    assert(a.take(n) =~= a);
    assert(a =~= (a + b).subrange(0, n));
    assert((a + b).skip(n) =~= b);
}

/// A text does not begin with another just where nothing follows the other in it.
pub proof fn prefixes_are_found(s: Seq<char>, prefix: Seq<char>)
    ensures
        after_prefix(s, prefix) is Some <==> prefix.is_prefix_of(s),
        after_prefix(s, prefix) matches Some(rest) ==> s == prefix + rest,
{
    if prefix.is_prefix_of(s) {
        assert(prefix + s.skip(prefix.len() as int) =~= s);
    }
}

/// Texts with a character between each two of them.
pub open spec fn strung(parts: Seq<Seq<char>>, c: char) -> Seq<char>
    decreases parts.len(),
{
    if parts.len() == 0 {
        Seq::empty()
    } else if parts.len() == 1 {
        parts[0]
    } else {
        parts[0] + seq![c] + strung(parts.skip(1), c)
    }
}

/// To split a text at a character gives parts without it, which with it between them
/// are the text again.
#[verifier::rlimit(40)]
pub proof fn splitting_is_undone(s: Seq<char>, c: char)
    ensures
        split(s, c).len() > 0,
        strung(split(s, c), c) == s,
        forall|i: int| 0 <= i < split(s, c).len() ==> !(#[trigger] split(s, c)[i]).contains(c),
    decreases s.len(),
{
    lemma_first(s, c);
    let n = first(s, c) as int;
    let parts = split(s, c);
    if n < s.len() {
        let head = s.take(n);
        let rest = s.skip(n + 1);
        splitting_is_undone(rest, c);
        let tail = split(rest, c);
        assert(parts == seq![head] + tail);
        assert(parts.skip(1) =~= tail);
        assert(head + seq![c] + rest =~= s);
        assert forall|i: int| 0 <= i < parts.len() implies !(#[trigger] parts[i]).contains(c) by {
            if i > 0 {
                assert(parts[i] == tail[i - 1]);
            }
        }
    } else {
        assert(parts == seq![s]);
    }
}

/// What is trimmed are the characters of the set at either end, all of them and no
/// others.
pub proof fn trimming_removes_the_ends(s: Seq<char>, set: Trim) -> (ends: (Seq<char>, Seq<char>))
    ensures
        s == ends.0 + trim(s, set) + ends.1,
        forall|i: int| 0 <= i < ends.0.len() ==> set.has(#[trigger] ends.0[i]),
        forall|i: int| 0 <= i < ends.1.len() ==> set.has(#[trigger] ends.1[i]),
        trim(s, set).len() > 0 ==> !set.has(trim(s, set)[0]) && !set.has(trim(s, set).last()),
{
    let front = front_trimmed(s, set);
    let mid = trim_front(s, set);
    let back = back_trimmed(mid, set);
    let t = trim_back(mid, set);
    assert(front + t + back =~= s);
    if t.len() > 0 {
        assert(t[0] == mid[0]);
    }
    (front, back)
}

/// What stands at the start of a text and is trimmed there.
pub proof fn front_trimmed(s: Seq<char>, set: Trim) -> (front: Seq<char>)
    ensures
        s == front + trim_front(s, set),
        forall|i: int| 0 <= i < front.len() ==> set.has(#[trigger] front[i]),
        trim_front(s, set).len() > 0 ==> !set.has(trim_front(s, set)[0]),
    decreases s.len(),
{
    if s.len() > 0 && set.has(s[0]) {
        let rest = front_trimmed(s.skip(1), set);
        let front = seq![s[0]] + rest;
        assert(front + trim_front(s, set) =~= s) by {
            assert(s =~= seq![s[0]] + s.skip(1));
        }
        front
    } else {
        assert(Seq::<char>::empty() + s =~= s);
        Seq::empty()
    }
}

/// What stands at the end of a text and is trimmed there.
pub proof fn back_trimmed(s: Seq<char>, set: Trim) -> (back: Seq<char>)
    ensures
        s == trim_back(s, set) + back,
        forall|i: int| 0 <= i < back.len() ==> set.has(#[trigger] back[i]),
        trim_back(s, set).len() > 0 ==> !set.has(trim_back(s, set).last()),
    decreases s.len(),
{
    if s.len() > 0 && set.has(s.last()) {
        let rest = back_trimmed(s.drop_last(), set);
        let back = rest.push(s.last());
        assert(trim_back(s, set) + back =~= s) by {
            assert(s =~= s.drop_last().push(s.last()));
        }
        back
    } else {
        assert(s + Seq::<char>::empty() =~= s);
        Seq::empty()
    }
}

proof fn lemma_front_of(a: Seq<char>, b: Seq<char>)
    ensures
        trim_front(a, Trim::Space).len() > 0 ==> trim_front(a + b, Trim::Space) == trim_front(a, Trim::Space) + b,
        trim_front(a, Trim::Space).len() == 0 ==> trim_front(a + b, Trim::Space) == trim_front(b, Trim::Space),
    decreases a.len(),
{
    let whole = a + b;
    if a.len() == 0 {
        assert(whole =~= b);
    } else if Trim::Space.has(a[0]) {
        lemma_front_of(a.skip(1), b);
        assert(whole.skip(1) =~= a.skip(1) + b);
    }
}

proof fn lemma_space_at(s: Seq<char>)
    ensures
        first_space(s) <= s.len(),
        first_space(s) < s.len() ==> is_space(s[first_space(s) as int]),
        forall|k: int| 0 <= k < first_space(s) ==> !is_space(#[trigger] s[k]),
        s.len() > 0 && !is_space(s[0]) ==> first_space(s) > 0,
    decreases s.len(),
{
    if s.len() > 0 && !is_space(s[0]) {
        lemma_space_at(s.skip(1));
        assert forall|k: int| 0 <= k < first_space(s) implies !is_space(#[trigger] s[k]) by {
            if k > 0 {
                assert(s.skip(1)[k - 1] == s[k]);
            }
        }
    }
}

proof fn lemma_space_before(a: Seq<char>, sp: char, b: Seq<char>)
    requires
        is_space(sp),
    ensures
        first_space(a + seq![sp] + b) == first_space(a),
    decreases a.len(),
{
    let whole = a + seq![sp] + b;
    if a.len() > 0 && !is_space(a[0]) {
        lemma_space_before(a.skip(1), sp, b);
        assert(whole.skip(1) =~= a.skip(1) + seq![sp] + b);
    }
}

/// The words of a text are those before a space and those after it; a text without
/// spaces is one word, and an empty one none.
#[verifier::rlimit(40)]
pub proof fn spaces_part_words(a: Seq<char>, sp: char, b: Seq<char>)
    requires
        is_space(sp),
    ensures
        words(a + seq![sp] + b) == words(a) + words(b),
        (forall|i: int| 0 <= i < a.len() ==> !is_space(#[trigger] a[i])) && a.len() > 0 ==> words(a) == seq![a],
        words(Seq::empty()) == Seq::<Seq<char>>::empty(),
    decreases a.len(),
{
    let tail = seq![sp] + b;
    let whole = a + seq![sp] + b;
    let t = trim_front(a, Trim::Space);
    assert(whole =~= a + tail);
    lemma_front_of(a, tail);
    crate::text::lemma_trim_front(a, Trim::Space);
    if t.len() == 0 {
        lemma_front_of(seq![sp], b);
        assert(trim_front(seq![sp], Trim::Space) =~= Seq::empty()) by {
            reveal_with_fuel(trim_front, 2);
            assert(seq![sp].skip(1) =~= Seq::empty());
        }
        assert(trim_front(whole, Trim::Space) == trim_front(b, Trim::Space));
        assert(words(whole) == words(b));
        assert(words(a) + words(b) =~= words(b));
    } else {
        lemma_space_at(t);
        let n = first_space(t) as int;
        assert(t + tail =~= t + seq![sp] + b);
        lemma_space_before(t, sp, b);
        let w = t + seq![sp] + b;
        assert(w.take(n) =~= t.take(n));
        assert(w.skip(n) =~= t.skip(n) + seq![sp] + b);
        spaces_part_words(t.skip(n), sp, b);
        assert(words(whole) =~= words(a) + words(b));
    }
    if (forall|i: int| 0 <= i < a.len() ==> !is_space(#[trigger] a[i])) && a.len() > 0 {
        assert(!is_space(a[0]));
        assert(t == a);
        lemma_space_at(a);
        assert(first_space(a) == a.len()) by {
            if first_space(a) < a.len() {
                assert(is_space(a[first_space(a) as int]));
            }
        }
        assert(a.take(a.len() as int) =~= a);
        assert(a.skip(a.len() as int) =~= Seq::empty());
        assert(words(a.skip(a.len() as int)) =~= Seq::empty());
        assert(words(a) =~= seq![a]);
    }
    assert(words(Seq::empty()) =~= Seq::<Seq<char>>::empty());
}

/// The characters that count as white space, and those that each trimming takes away.
#[verifier::rlimit(40)]
pub proof fn spaces_are_those_of_unicode(c: char)
    ensures
        is_space(c) <==> c == ' ' || '\t' <= c <= '\r' || c == '\u{85}' || c == '\u{a0}' || c == '\u{1680}' || '\u{2000}' <= c
            <= '\u{200a}' || c == '\u{2028}' || c == '\u{2029}' || c == '\u{202f}' || c == '\u{205f}' || c == '\u{3000}',
        Trim::Space.has(c) <==> is_space(c),
        Trim::LineEnd.has(c) <==> c == '\r' || c == '\n',
        Trim::Quote.has(c) <==> c == '"',
        Trim::Slash.has(c) <==> c == '/',
{
}

// Numbers.

/// A number is read from its decimal text, with or without a plus sign, where it is not
/// too large, and from nothing in which another character stands.
pub proof fn numbers_are_read(n: nat, max: nat, text: Seq<char>)
    ensures
        parsed(decimal(n), max) == (if n <= max {
            Some(n)
        } else {
            None
        }),
        parsed(seq!['+'] + decimal(n), max) == (if n <= max {
            Some(n)
        } else {
            None
        }),
        (exists|i: int| 0 <= i < text.len() && !('0' <= #[trigger] text[i] <= '9') && (i > 0 || text[i] != '+'))
            ==> parsed(text, max) is None,
        text.len() == 0 ==> parsed(text, max) is None,
{
    lemma_decimal(n);
    assert('0' <= decimal(n)[0] <= '9');
    let plus = seq!['+'] + decimal(n);
    assert(plus.skip(1) =~= decimal(n));
    if exists|i: int| 0 <= i < text.len() && !('0' <= #[trigger] text[i] <= '9') && (i > 0 || text[i] != '+') {
        let i = choose|i: int| 0 <= i < text.len() && !('0' <= #[trigger] text[i] <= '9') && (i > 0 || text[i] != '+');
        if i > 0 {
            assert(text.skip(1)[i - 1] == text[i]);
        }
    }
}

/// A run of digits is read as the number that it stands for, whatever zeros are in front.
#[verifier::rlimit(40)]
pub proof fn zeros_in_front_count_for_nothing(s: Seq<char>, max: nat, c: char)
    ensures
        digits_value(seq!['0'] + s) == digits_value(s),
        '0' <= c <= '9' ==> digits_value(s.push(c)) == 10 * digits_value(s) + (c as nat - '0' as nat),
        s.len() > 0 && (forall|i: int| 0 <= i < s.len() ==> '0' <= #[trigger] s[i] <= '9') && digits_value(s) <= max
            ==> parsed(s, max) == Some(digits_value(s)),
    decreases s.len(),
{
    let z = seq!['0'] + s;
    if s.len() > 0 {
        assert(z.drop_last() =~= seq!['0'] + s.drop_last());
        zeros_in_front_count_for_nothing(s.drop_last(), max, c);
        assert(z.last() == s.last());
    } else {
        assert(z.drop_last() =~= Seq::empty());
        assert(digits_value(z.drop_last()) == 0);
        assert(z.last() == '0');
        assert(digits_value(z) == 0);
    }
    assert(s.push(c).drop_last() =~= s);
    if s.len() > 0 && (forall|i: int| 0 <= i < s.len() ==> '0' <= #[trigger] s[i] <= '9') {
        assert('0' <= s[0] <= '9');
        assert(crate::number::all_digits(s));
    }
}

} // verus!
