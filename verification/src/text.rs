//! Text as sequences of characters: conversions, ASCII case, prefixes,
//! trimming, splitting and the code point order.

use vstd::prelude::*;

verus! {

broadcast use vstd::string::group_string_axioms;

/// `String::push` appends one character at the end.
pub assume_specification[ String::push ](s: &mut String, c: char)
    ensures
        final(s)@ == old(s)@.push(c),
;

/// The characters of a string.
pub fn to_chars(s: &str) -> (r: Vec<char>)
    ensures
        r@ == s@,
{
    let mut out: Vec<char> = Vec::new();
    for c in it: s.chars()
        invariant
            it.seq() == s@,
            out@ == s@.take(it.index()),
    {
        out.push(c);
    }
    assert(s@.take(s@.len() as int) =~= s@);
    out
}

/// The string with the given characters.
pub fn from_chars(chars: &[char]) -> (r: String)
    ensures
        r@ == chars@,
{
    let mut out = String::new();
    let n: usize = chars.len();
    let mut i: usize = 0;
    while i < n
        invariant
            i <= n == chars@.len(),
            out@ == chars@.take(i as int),
        decreases n - i,
    {
        out.push(chars[i]);
        i = i + 1;
    }
    assert(chars@.take(n as int) =~= chars@);
    out
}

/// Whether two runs of characters are equal.
pub fn same_chars(a: &[char], b: &[char]) -> (r: bool)
    ensures
        r == (a@ == b@),
{
    if a.len() != b.len() {
        return false;
    }
    let n: usize = a.len();
    let mut i: usize = 0;
    while i < n
        invariant
            i <= n == a@.len() == b@.len(),
            forall|k: int| 0 <= k < i ==> a@[k] == b@[k],
        decreases n - i,
    {
        if a[i] != b[i] {
            return false;
        }
        i = i + 1;
    }
    assert(a@ =~= b@);
    true
}

/// Whether two strings hold the same characters.
pub fn same(a: &str, b: &str) -> (r: bool)
    ensures
        r == (a@ == b@),
{
    let x = to_chars(a);
    let y = to_chars(b);
    same_chars(&x, &y)
}

/// Whether two byte strings are equal.
pub fn same_bytes(a: &[u8], b: &[u8]) -> (r: bool)
    ensures
        r == (a@ == b@),
{
    if a.len() != b.len() {
        return false;
    }
    let n: usize = a.len();
    let mut i: usize = 0;
    while i < n
        invariant
            i <= n == a@.len() == b@.len(),
            forall|k: int| 0 <= k < i ==> a@[k] == b@[k],
        decreases n - i,
    {
        if a[i] != b[i] {
            return false;
        }
        i = i + 1;
    }
    assert(a@ =~= b@);
    true
}

/// The two strings one after the other.
pub fn concat(a: &str, b: &str) -> (r: String)
    ensures
        r@ == a@ + b@,
{
    let mut out = a.to_owned();
    out.append(b);
    out
}

/// The three strings one after the other.
pub fn concat3(a: &str, b: &str, c: &str) -> (r: String)
    ensures
        r@ == a@ + b@ + c@,
{
    let mut out = a.to_owned();
    out.append(b);
    out.append(c);
    out
}

/// A copy of the bytes.
pub fn copy_bytes(bytes: &[u8]) -> (r: Vec<u8>)
    ensures
        r@ == bytes@,
{
    let mut out: Vec<u8> = Vec::new();
    append_bytes(&mut out, bytes);
    out
}

/// Appends `bytes` to `out`.
pub fn append_bytes(out: &mut Vec<u8>, bytes: &[u8])
    ensures
        final(out)@ == old(out)@ + bytes@,
{
    out.extend_from_slice(bytes);
    proof {
        assert forall|i: int| 0 <= i < bytes@.len() implies out@[old(out)@.len() + i] == bytes@[i] by {
            assert(vstd::pervasive::cloned::<u8>(bytes@[i], out@[old(out)@.len() + i]));
        }
        assert(out@ =~= old(out)@ + bytes@);
    }
}

/// The views of a list of strings.
pub open spec fn texts(list: Seq<String>) -> Seq<Seq<char>> {
    list.map_values(|s: String| s@)
}

/// A copy of a list of strings.
pub fn copy_texts(list: &[String]) -> (r: Vec<String>)
    ensures
        r@ == list@,
{
    let mut out: Vec<String> = Vec::new();
    let n: usize = list.len();
    let mut i: usize = 0;
    while i < n
        invariant
            i <= n == list@.len(),
            out@ == list@.take(i as int),
        decreases n - i,
    {
        out.push(list[i].clone());
        i = i + 1;
    }
    assert(list@.take(n as int) =~= list@);
    out
}

/// Whether a list of strings holds `text`.
pub fn holds(list: &[String], text: &str) -> (r: bool)
    ensures
        r == texts(list@).contains(text@),
{
    let n: usize = list.len();
    let mut i: usize = 0;
    while i < n
        invariant
            i <= n == list@.len(),
            forall|k: int| 0 <= k < i ==> #[trigger] texts(list@)[k] != text@,
        decreases n - i,
    {
        if same(&list[i], text) {
            assert(texts(list@)[i as int] == text@);
            return true;
        }
        i = i + 1;
    }
    false
}

// ASCII case.

/// A character with an ASCII capital made small.
pub open spec fn ascii_lower(c: char) -> char {
    if 'A' <= c <= 'Z' {
        (c as u32 + 32) as char
    } else {
        c
    }
}

/// A text with every ASCII capital made small.
pub open spec fn lower(s: Seq<char>) -> Seq<char> {
    s.map_values(|c: char| ascii_lower(c))
}

/// The character with an ASCII capital made small.
pub fn lower_char(c: char) -> (r: char)
    ensures
        r == ascii_lower(c),
{
    if 'A' <= c && c <= 'Z' {
        ((c as u8) + 32) as char
    } else {
        c
    }
}

/// The text with every ASCII capital made small.
pub fn to_lower(s: &[char]) -> (r: Vec<char>)
    ensures
        r@ == lower(s@),
{
    let mut out: Vec<char> = Vec::new();
    let n: usize = s.len();
    let mut i: usize = 0;
    while i < n
        invariant
            i <= n == s@.len(),
            out@ == lower(s@.take(i as int)),
        decreases n - i,
    {
        out.push(lower_char(s[i]));
        assert(s@.take(i + 1) =~= s@.take(i as int).push(s@[i as int]));
        assert(out@ =~= lower(s@.take(i + 1)));
        i = i + 1;
    }
    assert(s@.take(n as int) =~= s@);
    out
}

/// Whether two strings agree up to ASCII case.
pub fn same_ignoring_case(a: &str, b: &str) -> (r: bool)
    ensures
        r == (lower(a@) == lower(b@)),
{
    let x = to_lower(&to_chars(a));
    let y = to_lower(&to_chars(b));
    same_chars(&x, &y)
}

// Prefixes and suffixes.

/// Whether `s` starts with `prefix`.
pub fn starts_with(s: &[char], prefix: &[char]) -> (r: bool)
    ensures
        r == prefix@.is_prefix_of(s@),
{
    if s.len() < prefix.len() {
        return false;
    }
    let n: usize = prefix.len();
    let mut i: usize = 0;
    while i < n
        invariant
            i <= n == prefix@.len() <= s@.len(),
            forall|k: int| 0 <= k < i ==> s@[k] == prefix@[k],
        decreases n - i,
    {
        if s[i] != prefix[i] {
            assert(s@.subrange(0, n as int)[i as int] != prefix@[i as int]);
            return false;
        }
        i = i + 1;
    }
    assert(prefix@ =~= s@.subrange(0, n as int));
    true
}

/// What follows `prefix` in `s`, when `s` starts with it.
pub open spec fn after_prefix(s: Seq<char>, prefix: Seq<char>) -> Option<Seq<char>> {
    if prefix.is_prefix_of(s) {
        Some(s.skip(prefix.len() as int))
    } else {
        None
    }
}

/// What follows `prefix` in `s`, when `s` starts with it.
pub fn strip_prefix(s: &str, prefix: &str) -> (r: Option<String>)
    ensures
        opt_text(r) == after_prefix(s@, prefix@),
{
    let x = to_chars(s);
    let p = to_chars(prefix);
    if starts_with(&x, &p) {
        let n: usize = x.len();
        let k: usize = p.len();
        Some(from_chars(part(&x, k, n)))
    } else {
        None
    }
}

/// Whether `s` ends with `suffix`.
pub fn ends_with(s: &str, suffix: &str) -> (r: bool)
    ensures
        r == suffix@.is_suffix_of(s@),
{
    let x = to_chars(s);
    let p = to_chars(suffix);
    if x.len() < p.len() {
        return false;
    }
    let n: usize = x.len();
    let k: usize = n - p.len();
    same_chars(part(&x, k, n), &p)
}

/// The characters from `from` up to `to`.
pub fn part(s: &[char], from: usize, to: usize) -> (r: &[char])
    requires
        from <= to <= s@.len(),
    ensures
        r@ == s@.subrange(from as int, to as int),
{
    vstd::slice::slice_subrange(s, from, to)
}

/// The view of an optional string.
pub open spec fn opt_text(s: Option<String>) -> Option<Seq<char>> {
    match s {
        Some(t) => Some(t@),
        None => None,
    }
}

/// The view of optional bytes.
pub open spec fn opt_bytes(b: Option<Vec<u8>>) -> Option<Seq<u8>> {
    match b {
        Some(v) => Some(v@),
        None => None,
    }
}

/// A copy of optional bytes.
pub fn copy_opt_bytes(b: &Option<Vec<u8>>) -> (r: Option<Vec<u8>>)
    ensures
        opt_bytes(r) == opt_bytes(*b),
{
    match b {
        Some(v) => Some(copy_bytes(v)),
        None => None,
    }
}

/// A copy of an optional string.
pub fn copy_opt(s: &Option<String>) -> (r: Option<String>)
    ensures
        opt_text(r) == opt_text(*s),
{
    match s {
        Some(t) => Some(t.clone()),
        None => None,
    }
}

/// An owned copy of an optional borrowed string.
pub fn own_opt(s: Option<&str>) -> (r: Option<String>)
    ensures
        opt_text(r) == opt_str(s),
{
    match s {
        Some(t) => Some(t.to_owned()),
        None => None,
    }
}

/// The view of an optional borrowed string.
pub open spec fn opt_str(s: Option<&str>) -> Option<Seq<char>> {
    match s {
        Some(t) => Some(t@),
        None => None,
    }
}

// Searching and splitting.

/// The position of the first `c` in `s`, or the length of `s` when there is
/// none.
pub open spec fn first(s: Seq<char>, c: char) -> nat
    decreases s.len(),
{
    if s.len() == 0 || s[0] == c {
        0
    } else {
        1 + first(s.skip(1), c)
    }
}

/// The first `c` stands where `first` says, with no other before it.
pub proof fn lemma_first(s: Seq<char>, c: char)
    ensures
        first(s, c) <= s.len(),
        first(s, c) < s.len() ==> s[first(s, c) as int] == c,
        forall|k: int| 0 <= k < first(s, c) ==> s[k] != c,
    decreases s.len(),
{
    if s.len() != 0 && s[0] != c {
        lemma_first(s.skip(1), c);
        assert forall|k: int| 0 <= k < first(s, c) implies s[k] != c by {
            if k > 0 {
                assert(s[k] == s.skip(1)[k - 1]);
            }
        }
    }
}

/// A position with a `c` and none before it is the first.
pub proof fn lemma_first_is(s: Seq<char>, c: char, at: int)
    requires
        0 <= at <= s.len(),
        at < s.len() ==> s[at] == c,
        forall|k: int| 0 <= k < at ==> s[k] != c,
    ensures
        first(s, c) == at,
{
    lemma_first(s, c);
    let f = first(s, c) as int;
    if f < at {
        assert(s[f] == c);
    }
    if at < f {
        assert(s[at] == c);
    }
}

/// The position of the first `c` in `s`, or the length of `s`.
pub fn find(s: &[char], c: char) -> (r: usize)
    ensures
        r == first(s@, c),
        r <= s@.len(),
{
    let n: usize = s.len();
    let mut i: usize = 0;
    while i < n
        invariant
            i <= n == s@.len(),
            forall|k: int| 0 <= k < i ==> s@[k] != c,
        decreases n - i,
    {
        if s[i] == c {
            proof {
                lemma_first_is(s@, c, i as int);
            }
            return i;
        }
        i = i + 1;
    }
    proof {
        lemma_first_is(s@, c, n as int);
    }
    n
}

/// The position of the last `c` in `s`, or the length of `s` when there is
/// none.
pub open spec fn last(s: Seq<char>, c: char) -> nat {
    if exists|i: int| 0 <= i < s.len() && s[i] == c {
        (choose|i: int|
            0 <= i < s.len() && #[trigger] s[i] == c && (forall|k: int| i < k < s.len() ==> s[k] != c)) as nat
    } else {
        s.len()
    }
}

/// A position with a `c` and none behind it is the last.
pub proof fn lemma_last_is(s: Seq<char>, c: char, at: int)
    requires
        0 <= at < s.len(),
        s[at] == c,
        forall|k: int| at < k < s.len() ==> s[k] != c,
    ensures
        last(s, c) == at,
{
    let l = choose|i: int| 0 <= i < s.len() && #[trigger] s[i] == c && (forall|k: int| i < k < s.len() ==> s[k] != c);
    assert(s[l] == c && 0 <= l < s.len());
    if l < at {
        assert(s[at] != c);
    }
    if at < l {
        assert(s[l] != c);
    }
}

/// The position of the last `c` in `s`, or the length of `s`.
pub fn find_last(s: &[char], c: char) -> (r: usize)
    ensures
        r == last(s@, c),
        r <= s@.len(),
{
    let n: usize = s.len();
    let mut i: usize = n;
    while i > 0
        invariant
            i <= n == s@.len(),
            forall|k: int| i <= k < n ==> s@[k] != c,
        decreases i,
    {
        if s[i - 1] == c {
            proof {
                lemma_last_is(s@, c, i - 1);
            }
            return i - 1;
        }
        i = i - 1;
    }
    n
}

/// What stands before and after the first `c`.
pub open spec fn cut(s: Seq<char>, c: char) -> Option<(Seq<char>, Seq<char>)> {
    if first(s, c) < s.len() {
        Some((s.take(first(s, c) as int), s.skip(first(s, c) as int + 1)))
    } else {
        None
    }
}

/// The part before the first `c`, or all of it.
pub open spec fn before(s: Seq<char>, c: char) -> Seq<char> {
    s.take(first(s, c) as int)
}

/// The text before the first `c`, or all of it.
pub fn up_to(s: &str, c: char) -> (r: String)
    ensures
        r@ == before(s@, c),
{
    let x = to_chars(s);
    let at: usize = find(&x, c);
    assert(x@.subrange(0, at as int) =~= x@.take(at as int));
    from_chars(part(&x, 0, at))
}

/// The parts of `s` between the occurrences of `c`; always at least one.
pub open spec fn split(s: Seq<char>, c: char) -> Seq<Seq<char>>
    decreases s.len(),
    via split_decreases
{
    match cut(s, c) {
        Some((head, rest)) => seq![head] + split(rest, c),
        None => seq![s],
    }
}

#[via_fn]
proof fn split_decreases(s: Seq<char>, c: char) {
    lemma_first(s, c);
}

/// The views of a list of character runs.
pub open spec fn runs(list: Seq<Vec<char>>) -> Seq<Seq<char>> {
    list.map_values(|v: Vec<char>| v@)
}

/// The parts of `s` between the occurrences of `c`.
pub fn split_on(s: &[char], c: char) -> (r: Vec<Vec<char>>)
    ensures
        runs(r@) == split(s@, c),
{
    let mut out: Vec<Vec<char>> = Vec::new();
    let n: usize = s.len();
    let mut start: usize = 0;
    assert(s@.subrange(0, n as int) =~= s@);
    assert(runs(out@) + split(s@, c) =~= split(s@, c));
    loop
        invariant
            start <= n == s@.len(),
            runs(out@) + split(s@.subrange(start as int, n as int), c) == split(s@, c),
        decreases n - start,
    {
        let rest = part(s, start, n);
        let at: usize = find(rest, c);
        if at == rest.len() {
            out.push(copy_chars(rest));
            proof {
                assert(runs(out@) =~= split(s@, c));
            }
            return out;
        }
        let head = copy_chars(part(rest, 0, at));
        let ghost before_push = runs(out@);
        out.push(head);
        proof {
            assert(head@ =~= rest@.take(at as int));
            assert(rest@.skip(at + 1) =~= s@.subrange(start + at + 1, n as int));
            assert(runs(out@) =~= before_push.push(head@));
            let tail = split(s@.subrange(start + at + 1, n as int), c);
            assert(split(rest@, c) == seq![head@] + tail);
            assert(before_push + (seq![head@] + tail) =~= before_push.push(head@) + tail);
        }
        start = start + at + 1;
    }
}

/// A copy of a run of characters.
pub fn copy_chars(s: &[char]) -> (r: Vec<char>)
    ensures
        r@ == s@,
{
    let mut out: Vec<char> = Vec::new();
    let n: usize = s.len();
    let mut i: usize = 0;
    while i < n
        invariant
            i <= n == s@.len(),
            out@ == s@.take(i as int),
        decreases n - i,
    {
        out.push(s[i]);
        i = i + 1;
    }
    assert(s@.take(n as int) =~= s@);
    out
}

// White space and trimming.

/// The characters with the Unicode property `White_Space`.
pub open spec fn is_space(c: char) -> bool {
    ||| 0x09 <= c as u32 <= 0x0d
    ||| c as u32 == 0x20
    ||| c as u32 == 0x85
    ||| c as u32 == 0xa0
    ||| c as u32 == 0x1680
    ||| 0x2000 <= c as u32 <= 0x200a
    ||| c as u32 == 0x2028
    ||| c as u32 == 0x2029
    ||| c as u32 == 0x202f
    ||| c as u32 == 0x205f
    ||| c as u32 == 0x3000
}

/// Whether a character has the Unicode property `White_Space`.
pub fn space(c: char) -> (r: bool)
    ensures
        r == is_space(c),
{
    let u: u32 = c as u32;
    (0x09 <= u && u <= 0x0d) || u == 0x20 || u == 0x85 || u == 0xa0 || u == 0x1680 || (0x2000 <= u && u
        <= 0x200a) || u == 0x2028 || u == 0x2029 || u == 0x202f || u == 0x205f || u == 0x3000
}

/// The sets of characters that can be trimmed.
#[derive(Clone, Copy, PartialEq, Eq, Structural)]
pub enum Trim {
    /// White space.
    Space,
    /// Carriage return and line feed.
    LineEnd,
    /// The double quote.
    Quote,
    /// The slash.
    Slash,
}

impl Trim {
    /// Whether the set holds `c`.
    pub open spec fn has(self, c: char) -> bool {
        match self {
            Trim::Space => is_space(c),
            Trim::LineEnd => c == '\r' || c == '\n',
            Trim::Quote => c == '"',
            Trim::Slash => c == '/',
        }
    }

    /// Whether the set holds `c`.
    pub fn covers(self, c: char) -> (r: bool)
        ensures
            r == self.has(c),
    {
        match self {
            Trim::Space => space(c),
            Trim::LineEnd => c == '\r' || c == '\n',
            Trim::Quote => c == '"',
            Trim::Slash => c == '/',
        }
    }
}

/// `s` without the characters of the set at its start.
pub open spec fn trim_front(s: Seq<char>, set: Trim) -> Seq<char>
    decreases s.len(),
{
    if s.len() > 0 && set.has(s[0]) {
        trim_front(s.skip(1), set)
    } else {
        s
    }
}

/// `s` without the characters of the set at its end.
pub open spec fn trim_back(s: Seq<char>, set: Trim) -> Seq<char>
    decreases s.len(),
{
    if s.len() > 0 && set.has(s.last()) {
        trim_back(s.drop_last(), set)
    } else {
        s
    }
}

/// `s` without the characters of the set at either end.
pub open spec fn trim(s: Seq<char>, set: Trim) -> Seq<char> {
    trim_back(trim_front(s, set), set)
}

/// `s` without the characters of the set at its start.
pub fn trim_start(s: &[char], set: Trim) -> (r: &[char])
    ensures
        r@ == trim_front(s@, set),
{
    let n: usize = s.len();
    let mut i: usize = 0;
    assert(s@.skip(0) =~= s@);
    while i < n && set.covers(s[i])
        invariant
            i <= n == s@.len(),
            trim_front(s@.skip(i as int), set) == trim_front(s@, set),
        decreases n - i,
    {
        assert(s@.skip(i as int).skip(1) =~= s@.skip(i + 1));
        i = i + 1;
    }
    assert(s@.subrange(i as int, n as int) =~= s@.skip(i as int));
    part(s, i, n)
}

/// `s` without the characters of the set at its end.
pub fn trim_end(s: &[char], set: Trim) -> (r: &[char])
    ensures
        r@ == trim_back(s@, set),
{
    let n: usize = s.len();
    let mut i: usize = n;
    assert(s@.take(n as int) =~= s@);
    while i > 0 && set.covers(s[i - 1])
        invariant
            i <= n == s@.len(),
            trim_back(s@.take(i as int), set) == trim_back(s@, set),
        decreases i,
    {
        assert(s@.take(i as int).drop_last() =~= s@.take(i - 1));
        i = i - 1;
    }
    assert(s@.subrange(0, i as int) =~= s@.take(i as int));
    part(s, 0, i)
}

/// `s` without the characters of the set at either end.
pub fn trim_both(s: &[char], set: Trim) -> (r: &[char])
    ensures
        r@ == trim(s@, set),
{
    trim_end(trim_start(s, set), set)
}

/// The string without white space at either end.
pub fn trimmed(s: &str) -> (r: String)
    ensures
        r@ == trim(s@, Trim::Space),
{
    let x = to_chars(s);
    from_chars(trim_both(&x, Trim::Space))
}

/// Where the first white space of `s` stands, or the length of `s`.
pub open spec fn first_space(s: Seq<char>) -> nat
    decreases s.len(),
{
    if s.len() == 0 || is_space(s[0]) {
        0
    } else {
        1 + first_space(s.skip(1))
    }
}

/// The longest runs without white space, in order.
pub open spec fn words(s: Seq<char>) -> Seq<Seq<char>>
    decreases s.len(),
    via words_decreases
{
    let t = trim_front(s, Trim::Space);
    if t.len() == 0 {
        Seq::empty()
    } else {
        seq![t.take(first_space(t) as int)] + words(t.skip(first_space(t) as int))
    }
}

/// A trimmed text is no longer, and does not start with what was trimmed.
pub proof fn lemma_trim_front(s: Seq<char>, set: Trim)
    ensures
        trim_front(s, set).len() <= s.len(),
        trim_front(s, set).len() > 0 ==> !set.has(trim_front(s, set)[0]),
    decreases s.len(),
{
    if s.len() > 0 && set.has(s[0]) {
        lemma_trim_front(s.skip(1), set);
    }
}

proof fn lemma_first_space(s: Seq<char>)
    ensures
        first_space(s) <= s.len(),
    decreases s.len(),
{
    if s.len() != 0 && !is_space(s[0]) {
        lemma_first_space(s.skip(1));
    }
}

#[via_fn]
proof fn words_decreases(s: Seq<char>) {
    lemma_trim_front(s, Trim::Space);
    lemma_first_space(trim_front(s, Trim::Space));
}

/// The longest runs without white space, in order.
pub fn split_words(s: &[char]) -> (r: Vec<Vec<char>>)
    ensures
        runs(r@) == words(s@),
{
    let mut out: Vec<Vec<char>> = Vec::new();
    let mut rest: Vec<char> = copy_chars(s);
    assert(runs(out@) + words(s@) =~= words(s@));
    loop
        invariant
            runs(out@) + words(rest@) == words(s@),
        decreases rest@.len(),
    {
        let t = trim_start(&rest, Trim::Space);
        proof {
            lemma_trim_front(rest@, Trim::Space);
        }
        if t.len() == 0 {
            assert(runs(out@) =~= words(s@));
            return out;
        }
        let n: usize = t.len();
        let mut i: usize = 0;
        assert(t@.skip(0) =~= t@);
        while i < n && !space(t[i])
            invariant
                i <= n == t@.len(),
                i + first_space(t@.skip(i as int)) == first_space(t@),
            decreases n - i,
        {
            assert(t@.skip(i as int).skip(1) =~= t@.skip(i + 1));
            i = i + 1;
        }
        let word = copy_chars(part(t, 0, i));
        let ghost earlier = runs(out@);
        out.push(word);
        let next = copy_chars(part(t, i, n));
        proof {
            assert(i == first_space(t@));
            assert(word@ =~= t@.take(i as int));
            assert(next@ =~= t@.skip(i as int));
            assert(runs(out@) =~= earlier.push(word@));
            assert(earlier + (seq![word@] + words(next@)) =~= earlier.push(word@) + words(next@));
            assert(first_space(t@) > 0);
        }
        rest = next;
    }
}

// The code point order.

/// Whether `a` comes before `b` in the order of code points.
pub open spec fn precedes(a: Seq<char>, b: Seq<char>) -> bool
    decreases a.len(),
{
    if b.len() == 0 {
        false
    } else if a.len() == 0 {
        true
    } else if a[0] == b[0] {
        precedes(a.skip(1), b.skip(1))
    } else {
        a[0] < b[0]
    }
}

/// Whether one character comes before another.
fn char_before(p: char, q: char) -> (r: bool)
    ensures
        r == (p < q),
{
    (p as u32) < (q as u32)
}

/// Whether `a` comes before `b` in the order of code points.
pub fn comes_before(a: &str, b: &str) -> (r: bool)
    ensures
        r == precedes(a@, b@),
{
    let x = to_chars(a);
    let y = to_chars(b);
    let mut i: usize = 0;
    assert(x@.skip(0) =~= x@ && y@.skip(0) =~= y@);
    while i < x.len() && i < y.len()
        invariant
            i <= x@.len(),
            i <= y@.len(),
            precedes(x@.skip(i as int), y@.skip(i as int)) == precedes(a@, b@),
        decreases x@.len() - i,
    {
        if x[i] != y[i] {
            assert(x@.skip(i as int)[0] == x@[i as int]);
            assert(y@.skip(i as int)[0] == y@[i as int]);
            return char_before(x[i], y[i]);
        }
        assert(x@.skip(i as int).skip(1) =~= x@.skip(i + 1));
        assert(y@.skip(i as int).skip(1) =~= y@.skip(i + 1));
        i = i + 1;
    }
    i < y.len()
}

/// No text comes before itself.
pub proof fn lemma_precedes_irreflexive(a: Seq<char>)
    ensures
        !precedes(a, a),
    decreases a.len(),
{
    if a.len() > 0 {
        lemma_precedes_irreflexive(a.skip(1));
    }
}

/// The order is transitive.
pub proof fn lemma_precedes_transitive(a: Seq<char>, b: Seq<char>, c: Seq<char>)
    requires
        precedes(a, b),
        precedes(b, c),
    ensures
        precedes(a, c),
    decreases a.len(),
{
    if a.len() > 0 && a[0] == b[0] && b[0] == c[0] {
        lemma_precedes_transitive(a.skip(1), b.skip(1), c.skip(1));
    }
}

/// Two different texts are ordered one way or the other.
pub proof fn lemma_precedes_total(a: Seq<char>, b: Seq<char>)
    ensures
        a == b || precedes(a, b) || precedes(b, a),
    decreases a.len(),
{
    if a.len() == 0 {
        if b.len() == 0 {
            assert(a =~= b);
        }
    } else if b.len() > 0 && a[0] == b[0] {
        lemma_precedes_total(a.skip(1), b.skip(1));
        if a.skip(1) == b.skip(1) {
            assert(a =~= seq![a[0]] + a.skip(1));
            assert(b =~= seq![b[0]] + b.skip(1));
        }
    }
}

} // verus!
