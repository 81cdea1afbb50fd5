//! Points in time as text, such as `2026-01-02T03:04:05.678Z`.

use vstd::prelude::*;

use crate::number::{decimal, digit, format_u64};
use crate::text::{concat, from_chars, precedes, to_chars};

verus! {

/// Whether a year has 366 days.
pub open spec fn is_leap(year: int) -> bool {
    year % 4 == 0 && (year % 100 != 0 || year % 400 == 0)
}

/// The number of days of a month, counted from 1.
pub open spec fn month_days(year: int, month: int) -> int {
    if month == 2 {
        if is_leap(year) {
            29
        } else {
            28
        }
    } else if month == 4 || month == 6 || month == 9 || month == 11 {
        30
    } else {
        31
    }
}

/// The number of days of a year.
pub open spec fn year_days(year: int) -> int {
    if is_leap(year) {
        366
    } else {
        365
    }
}

/// The number of days of a year before a month.
pub open spec fn days_before_month(year: int, month: int) -> int
    decreases month,
{
    if month <= 1 {
        0
    } else {
        days_before_month(year, month - 1) + month_days(year, month - 1)
    }
}

/// The number of days from the start of 1970 to the start of a year.
pub open spec fn days_before_year(year: int) -> int {
    365 * (year - 1970) + (year - 1) / 4 - (year - 1) / 100 + (year - 1) / 400 - 477
}

/// A day in the Gregorian calendar.
pub struct DateV {
    pub year: int,
    pub month: int,
    pub day: int,
}

/// Whether there is such a day, from 1970 on.
pub open spec fn date_exists(d: DateV) -> bool {
    1970 <= d.year && 1 <= d.month <= 12 && 1 <= d.day <= month_days(d.year, d.month)
}

/// The number of days from the start of 1970 to a day.
pub open spec fn day_number(d: DateV) -> int {
    days_before_year(d.year) + days_before_month(d.year, d.month) + d.day - 1
}

/// A number with zeros before it up to a width.
pub open spec fn padded(n: int, width: int) -> Seq<char> {
    let text = decimal(n as nat);
    if text.len() < width {
        Seq::new((width - text.len()) as nat, |i: int| '0') + text
    } else {
        text
    }
}

/// A day and the milliseconds since it started, as text.
pub open spec fn stamp_text(d: DateV, ms: int) -> Seq<char> {
    padded(d.year, 4) + "-"@ + padded(d.month, 2) + "-"@ + padded(d.day, 2) + "T"@ + padded(ms / 3600000, 2) + ":"@
        + padded(ms / 60000 % 60, 2) + ":"@ + padded(ms / 1000 % 60, 2) + "."@ + padded(ms % 1000, 3) + "Z"@
}

proof fn lemma_year(year: int)
    ensures
        days_before_year(year + 1) == days_before_year(year) + year_days(year),
{
    assert(year / 4 == (year - 1) / 4 + (if year % 4 == 0 { 1int } else { 0 }));
    assert(year / 100 == (year - 1) / 100 + (if year % 100 == 0 { 1int } else { 0 }));
    assert(year / 400 == (year - 1) / 400 + (if year % 400 == 0 { 1int } else { 0 }));
}

proof fn lemma_cycles(cycles: int)
    requires
        0 <= cycles,
    ensures
        days_before_year(1970 + 400 * cycles) == 146097 * cycles,
{
    assert((1969 + 400 * cycles) / 4 == 492 + 100 * cycles);
    assert((1969 + 400 * cycles) / 100 == 19 + 4 * cycles);
    assert((1969 + 400 * cycles) / 400 == 4 + cycles);
}

proof fn lemma_whole_year(year: int)
    ensures
        days_before_month(year, 13) == year_days(year),
{
    reveal_with_fuel(days_before_month, 14);
}

proof fn lemma_months(year: int, a: int, b: int)
    requires
        1 <= a <= b,
    ensures
        days_before_month(year, a) + (if a < b { month_days(year, a) } else { 0 }) <= days_before_month(year, b),
    decreases b - a,
{
    if a + 1 < b {
        lemma_months(year, a, b - 1);
    }
}

proof fn lemma_years(a: int, b: int)
    requires
        a <= b,
    ensures
        days_before_year(a) + (if a < b { year_days(a) } else { 0 }) <= days_before_year(b),
    decreases b - a,
{
    if a < b {
        lemma_year(b - 1);
        if a + 1 < b {
            lemma_years(a, b - 1);
        }
    }
}

proof fn lemma_within_year(d: DateV)
    requires
        date_exists(d),
    ensures
        days_before_year(d.year) <= day_number(d) < days_before_year(d.year + 1),
{
    lemma_year(d.year);
    lemma_whole_year(d.year);
    lemma_months(d.year, 1, d.month);
    lemma_months(d.year, d.month, 13);
}

/// Every day has its own number, and the numbers grow with time.
pub proof fn days_are_numbered_in_order(a: DateV, b: DateV)
    requires
        date_exists(a),
        date_exists(b),
    ensures
        day_number(a) == day_number(b) ==> a == b,
        day_number(a) < day_number(b) <==> (a.year < b.year || (a.year == b.year && (a.month < b.month || (a.month
            == b.month && a.day < b.day)))),
{
    lemma_within_year(a);
    lemma_within_year(b);
    if a.year < b.year {
        lemma_years(a.year + 1, b.year);
    } else if b.year < a.year {
        lemma_years(b.year + 1, a.year);
    } else if a.month < b.month {
        lemma_months(a.year, a.month, b.month);
    } else if b.month < a.month {
        lemma_months(a.year, b.month, a.month);
    }
}

fn pad(n: u64, width: usize) -> (r: String)
    ensures
        r@ == padded(n as int, width as int),
{
    let text = format_u64(n);
    let len: usize = text.as_str().unicode_len();
    let mut out = "".to_owned();
    let mut i: usize = len;
    proof {
        reveal_strlit("");
    }
    assert(out@ =~= Seq::new(0, |k: int| '0'));
    while i < width
        invariant
            len <= i,
            len < width ==> i <= width,
            len >= width ==> i == len,
            i == len + out@.len(),
            out@ == Seq::new(out@.len(), |k: int| '0'),
        decreases width - i,
    {
        out.append("0");
        proof {
            reveal_strlit("0");
            assert(out@ =~= Seq::new(out@.len(), |k: int| '0'));
        }
        i = i + 1;
    }
    assert(out@ + text@ =~= padded(n as int, width as int));
    concat(out.as_str(), text.as_str())
}

fn leap(year: u64) -> (r: bool)
    ensures
        r == is_leap(year as int),
{
    year % 4 == 0 && (year % 100 != 0 || year % 400 == 0)
}

fn days_of_month(year: u64, month: u64) -> (r: u64)
    ensures
        r == month_days(year as int, month as int),
{
    if month == 2 {
        if leap(year) {
            29
        } else {
            28
        }
    } else if month == 4 || month == 6 || month == 9 || month == 11 {
        30
    } else {
        31
    }
}

/// Writes a point in time, in milliseconds since the start of 1970.
pub fn format_stamp(ms: u64) -> (r: String)
    ensures
        exists|d: DateV|
            #![trigger date_exists(d)]
            date_exists(d) && day_number(d) == ms / 86400000 && r@ == stamp_text(d, (ms % 86400000) as int),
{
    let days: u64 = ms / 86400000;
    let rest: u64 = ms % 86400000;
    let cycles: u64 = days / 146097;
    let mut year: u64 = 1970 + 400 * cycles;
    let mut left: u64 = days % 146097;
    let ghost first = year as int;
    proof {
        lemma_cycles(cycles as int);
    }
    loop
        invariant
            days_before_year(year as int) + left == days,
            first == 1970 + 400 * (days / 146097),
            first <= year,
            year + left <= first + 146097,
            first <= 400000000000000000,
        ensures
            days_before_year(year as int) + left == days,
            left < year_days(year as int),
            first <= year,
        decreases left,
    {
        let length: u64 = if leap(year) { 366 } else { 365 };
        if left < length {
            break;
        }
        proof {
            lemma_year(year as int);
        }
        left = left - length;
        year = year + 1;
    }
    let mut month: u64 = 1;
    proof {
        lemma_whole_year(year as int);
    }
    loop
        invariant
            1 <= month <= 12,
            left + days_before_month(year as int, month as int) < days_before_month(year as int, 13),
            days_before_year(year as int) + days_before_month(year as int, month as int) + left == days,
        ensures
            1 <= month <= 12,
            left < month_days(year as int, month as int),
            days_before_year(year as int) + days_before_month(year as int, month as int) + left == days,
        decreases left,
    {
        let length: u64 = days_of_month(year, month);
        if left < length {
            break;
        }
        left = left - length;
        month = month + 1;
    }
    let ghost d = DateV { year: year as int, month: month as int, day: left + 1 };
    assert(date_exists(d));
    let mut out = pad(year, 4);
    out.append("-");
    out.append(pad(month, 2).as_str());
    out.append("-");
    out.append(pad(left + 1, 2).as_str());
    out.append("T");
    out.append(pad(rest / 3600000, 2).as_str());
    out.append(":");
    out.append(pad(rest / 60000 % 60, 2).as_str());
    out.append(":");
    out.append(pad(rest / 1000 % 60, 2).as_str());
    out.append(".");
    out.append(pad(rest % 1000, 3).as_str());
    out.append("Z");
    out
}

/// A stamp that can be part of a file name: with a hyphen for every colon.
pub open spec fn fs_safe(stamp: Seq<char>) -> Seq<char> {
    stamp.map_values(
        |c: char|
            if c == ':' {
                '-'
            } else {
                c
            },
    )
}

/// Writes a stamp as it can be part of a file name.
pub fn format_fs_safe(stamp: &str) -> (r: String)
    ensures
        r@ == fs_safe(stamp@),
{
    let chars = to_chars(stamp);
    let mut out: Vec<char> = Vec::new();
    let n: usize = chars.len();
    let mut i: usize = 0;
    while i < n
        invariant
            i <= n == chars@.len(),
            chars@ == stamp@,
            out@ == fs_safe(stamp@).take(i as int),
        decreases n - i,
    {
        let c = chars[i];
        out.push(
            if c == ':' {
                '-'
            } else {
                c
            },
        );
        assert(out@ =~= fs_safe(stamp@).take(i + 1));
        i = i + 1;
    }
    assert(out@ =~= fs_safe(stamp@));
    from_chars(&out)
}

// Order.

proof fn lemma_front(a: Seq<char>, b: Seq<char>, x: Seq<char>, y: Seq<char>)
    requires
        a.len() == b.len(),
        precedes(a, b) || (a == b && precedes(x, y)),
    ensures
        precedes(a + x, b + y),
    decreases a.len(),
{
    if a.len() == 0 {
        assert(a + x =~= x && b + y =~= y);
    } else {
        assert((a + x)[0] == a[0] && (b + y)[0] == b[0]);
        if a[0] == b[0] {
            assert((a + x).skip(1) =~= a.skip(1) + x);
            assert((b + y).skip(1) =~= b.skip(1) + y);
            lemma_front(a.skip(1), b.skip(1), x, y);
        }
    }
}

/// The texts one after another.
spec fn chained(list: Seq<Seq<char>>) -> Seq<char>
    decreases list.len(),
{
    if list.len() == 0 {
        Seq::empty()
    } else {
        chained(list.drop_last()) + list.last()
    }
}

proof fn lemma_chained(a: Seq<Seq<char>>, b: Seq<Seq<char>>, at: int)
    requires
        a.len() == b.len(),
        0 <= at < a.len(),
        forall|i: int| 0 <= i < a.len() ==> (#[trigger] a[i]).len() == b[i].len(),
        forall|i: int| 0 <= i < at ==> #[trigger] a[i] == b[i],
        precedes(a[at], b[at]),
    ensures
        precedes(chained(a), chained(b)),
    decreases a.len(),
{
    let front_a = a.drop_last();
    let front_b = b.drop_last();
    lemma_chained_len(front_a, front_b);
    if at < a.len() - 1 {
        lemma_chained(front_a, front_b, at);
    } else {
        assert(front_a =~= front_b);
    }
    lemma_front(chained(front_a), chained(front_b), a.last(), b.last());
}

proof fn lemma_chained_len(a: Seq<Seq<char>>, b: Seq<Seq<char>>)
    requires
        a.len() == b.len(),
        forall|i: int| 0 <= i < a.len() ==> (#[trigger] a[i]).len() == b[i].len(),
    ensures
        chained(a).len() == chained(b).len(),
    decreases a.len(),
{
    if a.len() > 0 {
        assert(a[a.len() - 1].len() == b[a.len() - 1].len());
        lemma_chained_len(a.drop_last(), b.drop_last());
    }
}

/// The smallest number that needs more digits than a width.
spec fn limit(width: int) -> int
    decreases width,
{
    if width <= 0 {
        1
    } else {
        10 * limit(width - 1)
    }
}

proof fn lemma_padded(n: int, width: int)
    requires
        1 <= width,
        0 <= n < limit(width),
    ensures
        padded(n, width).len() == width,
        1 < width ==> n / 10 < limit(width - 1) && padded(n, width) == padded(n / 10, width - 1).push(
            digit((n % 10) as nat),
        ),
    decreases width,
{
    if width == 1 {
        assert(limit(1) == 10) by {
            reveal_with_fuel(limit, 2);
        }
        assert(decimal(n as nat).len() == 1);
    } else {
        assert(limit(width) == 10 * limit(width - 1));
        lemma_padded(n / 10, width - 1);
        if n < 10 {
            lemma_limit(width - 1);
            assert(decimal(n as nat) =~= seq![digit(n as nat)]);
            assert(decimal(0) =~= seq!['0']);
        } else {
            assert(decimal(n as nat) == decimal((n / 10) as nat).push(digit((n % 10) as nat)));
        }
        assert(padded(n, width) =~= padded(n / 10, width - 1).push(digit((n % 10) as nat)));
    }
}

proof fn lemma_limit(width: int)
    ensures
        limit(width) >= 1,
    decreases width,
{
    if width > 0 {
        lemma_limit(width - 1);
    }
}

proof fn lemma_padded_order(a: int, b: int, width: int)
    requires
        1 <= width,
        0 <= a < b < limit(width),
    ensures
        precedes(padded(a, width), padded(b, width)),
    decreases width,
{
    lemma_padded(a, width);
    lemma_padded(b, width);
    if width == 1 {
        assert(limit(1) == 10) by {
            reveal_with_fuel(limit, 2);
        }
        assert(padded(a, 1) =~= seq![digit(a as nat)]);
        assert(padded(b, 1) =~= seq![digit(b as nat)]);
    } else {
        let x = seq![digit((a % 10) as nat)];
        let y = seq![digit((b % 10) as nat)];
        if a / 10 < b / 10 {
            lemma_padded_order(a / 10, b / 10, width - 1);
        } else {
            assert(a / 10 == b / 10 && a % 10 < b % 10);
            assert(x[0] < y[0]);
        }
        lemma_padded(a / 10, width - 1);
        lemma_padded(b / 10, width - 1);
        lemma_front(padded(a / 10, width - 1), padded(b / 10, width - 1), x, y);
        assert(padded(a, width) =~= padded(a / 10, width - 1) + x);
        assert(padded(b, width) =~= padded(b / 10, width - 1) + y);
    }
}

/// The numbers that a stamp shows.
spec fn shown_numbers(d: DateV, ms: int) -> Seq<int> {
    seq![d.year, d.month, d.day, ms / 3600000, ms / 60000 % 60, ms / 1000 % 60, ms % 1000]
}

spec fn widths() -> Seq<int> {
    seq![4int, 2, 2, 2, 2, 2, 3]
}

/// The texts that a stamp is made of.
spec fn stamp_pieces(d: DateV, ms: int) -> Seq<Seq<char>> {
    seq![
        padded(d.year, 4),
        "-"@,
        padded(d.month, 2),
        "-"@,
        padded(d.day, 2),
        "T"@,
        padded(ms / 3600000, 2),
        ":"@,
        padded(ms / 60000 % 60, 2),
        ":"@,
        padded(ms / 1000 % 60, 2),
        "."@,
        padded(ms % 1000, 3),
        "Z"@,
    ]
}

proof fn lemma_pieces(d: DateV, ms: int)
    ensures
        chained(stamp_pieces(d, ms)) == stamp_text(d, ms),
{
    let p = stamp_pieces(d, ms);
    reveal_with_fuel(chained, 15);
    assert(p.drop_last() =~= p.take(13));
    assert(chained(p.take(0)) =~= Seq::empty());
    assert(p.take(1).drop_last() =~= p.take(0));
    assert(chained(p.take(1)) =~= p[0]);
    assert forall|i: int| 1 <= i <= 14 implies (#[trigger] p.take(i)).drop_last() =~= p.take(i - 1) by {}
    assert(p.take(14) =~= p);
}

/// The stamp of a later time comes after that of an earlier one, up to the year
/// 9999.
#[verifier::spinoff_prover]
#[verifier::rlimit(60)]
pub proof fn stamps_are_ordered(a: DateV, x: int, b: DateV, y: int)
    requires
        date_exists(a),
        date_exists(b),
        b.year <= 9999,
        0 <= x < 86400000,
        0 <= y < 86400000,
        day_number(a) < day_number(b) || (day_number(a) == day_number(b) && x < y),
    ensures
        precedes(stamp_text(a, x), stamp_text(b, y)),
{
    days_are_numbered_in_order(a, b);
    reveal_with_fuel(limit, 5);
    assert(limit(2) == 100 && limit(3) == 1000 && limit(4) == 10000);
    let m = shown_numbers(a, x);
    let n = shown_numbers(b, y);
    let p = stamp_pieces(a, x);
    let q = stamp_pieces(b, y);
    let k = first_difference(m, n);
    lemma_difference(a, x, b, y);
    assert forall|i: int| 0 <= i < 7 implies (#[trigger] p[2 * i]).len() == q[2 * i].len() by {
        lemma_padded(m[i], widths()[i]);
        lemma_padded(n[i], widths()[i]);
    }
    lemma_padded_order(m[k], n[k], widths()[k]);
    assert forall|i: int| 0 <= i < 14 implies (#[trigger] p[i]).len() == q[i].len() by {
        if i % 2 == 0 {
            assert(p[2 * (i / 2)].len() == q[2 * (i / 2)].len());
        }
    }
    assert forall|i: int| 0 <= i < 2 * k implies #[trigger] p[i] == q[i] by {
        if i % 2 == 0 {
            assert(m[i / 2] == n[i / 2]);
        }
    }
    lemma_chained(p, q, 2 * k);
    lemma_pieces(a, x);
    lemma_pieces(b, y);
}

spec fn first_difference(m: Seq<int>, n: Seq<int>) -> int {
    if m[0] != n[0] {
        0
    } else if m[1] != n[1] {
        1
    } else if m[2] != n[2] {
        2
    } else if m[3] != n[3] {
        3
    } else if m[4] != n[4] {
        4
    } else if m[5] != n[5] {
        5
    } else {
        6
    }
}

proof fn lemma_difference(a: DateV, x: int, b: DateV, y: int)
    requires
        date_exists(a),
        date_exists(b),
        b.year <= 9999,
        0 <= x < 86400000,
        0 <= y < 86400000,
        (a.year < b.year || (a.year == b.year && (a.month < b.month || (a.month == b.month && a.day < b.day)))) || (a
            == b && x < y),
    ensures
        ({
            let m = shown_numbers(a, x);
            let n = shown_numbers(b, y);
            let k = first_difference(m, n);
            &&& m[k] < n[k]
            &&& forall|i: int| 0 <= i < k ==> #[trigger] m[i] == n[i]
            &&& forall|i: int| 0 <= i < 7 ==> 0 <= #[trigger] m[i] < limit(widths()[i]) && 0 <= n[i] < limit(
                widths()[i],
            )
        }),
{
    reveal_with_fuel(limit, 5);
    assert(limit(2) == 100 && limit(3) == 1000 && limit(4) == 10000);
    assert(x == 3600000 * (x / 3600000) + 60000 * (x / 60000 % 60) + 1000 * (x / 1000 % 60) + x % 1000);
    assert(y == 3600000 * (y / 3600000) + 60000 * (y / 60000 % 60) + 1000 * (y / 1000 % 60) + y % 1000);
    assert(x / 3600000 < 24 && y / 3600000 < 24);
}

/// The length of a month: February has a day more in every fourth year, but not in every
/// hundredth, unless it is a four hundredth.
pub open spec fn length_of_month(year: int, month: int) -> int {
    if month == 2 {
        if year % 400 == 0 || year % 4 == 0 && year % 100 != 0 {
            29
        } else {
            28
        }
    } else if month == 4 || month == 6 || month == 9 || month == 11 {
        30
    } else {
        31
    }
}

/// The day after a day.
pub open spec fn day_after(d: DateV) -> DateV {
    if d.day < length_of_month(d.year, d.month) {
        DateV { day: d.day + 1, ..d }
    } else if d.month < 12 {
        DateV { year: d.year, month: d.month + 1, day: 1 }
    } else {
        DateV { year: d.year + 1, month: 1, day: 1 }
    }
}

/// Days are counted one by one from the first of January 1970, and no day is left out.
pub proof fn days_follow_each_other(d: DateV)
    ensures
        day_number(DateV { year: 1970, month: 1, day: 1 }) == 0,
        date_exists(d) <==> 1970 <= d.year && 1 <= d.month <= 12 && 1 <= d.day <= length_of_month(d.year, d.month),
        date_exists(d) ==> date_exists(day_after(d)) && day_number(day_after(d)) == day_number(d) + 1,
{
    if date_exists(d) {
        lemma_year(d.year);
        lemma_whole_year(d.year);
        if d.day == length_of_month(d.year, d.month) && d.month == 12 {
            assert(days_before_month(d.year, 13) == days_before_month(d.year, 12) + month_days(d.year, 12));
        }
    }
}

proof fn lemma_padded_value(n: int, width: int)
    requires
        1 <= width,
        0 <= n < limit(width),
    ensures
        padded(n, width).len() == width,
        crate::number::all_digits(padded(n, width)),
        crate::number::digits_value(padded(n, width)) == n,
    decreases width,
{
    lemma_padded(n, width);
    if width == 1 {
        assert(limit(0) == 1);
        assert(limit(1) == 10);
        crate::number::lemma_decimal(n as nat);
        assert(padded(n, 1) == decimal(n as nat));
    } else {
        lemma_padded_value(n / 10, width - 1);
        let p = padded(n, width);
        let q = padded(n / 10, width - 1);
        let c = digit((n % 10) as nat);
        assert(p == q.push(c));
        assert(p.drop_last() =~= q);
        assert(p.last() == c);
        assert(c as nat - '0' as nat == n % 10);
        assert forall|i: int| 0 <= i < p.len() implies crate::number::is_digit(#[trigger] p[i]) by {
            if i < q.len() {
                assert(p[i] == q[i]);
            }
        }
    }
}

/// What a stamp shows: the year, the month, the day, the hour, the minute, the second and
/// the thousandths, each in digits of its own.
#[verifier::spinoff_prover]
#[verifier::rlimit(60)]
pub proof fn stamps_show_the_time(d: DateV, ms: int)
    requires
        date_exists(d),
        d.year <= 9999,
        0 <= ms < 86400000,
    ensures
        ({
            let s = stamp_text(d, ms);
            let hour = crate::number::digits_value(s.subrange(11, 13));
            let minute = crate::number::digits_value(s.subrange(14, 16));
            let second = crate::number::digits_value(s.subrange(17, 19));
            let part = crate::number::digits_value(s.subrange(20, 23));
            &&& s.len() == 24
            &&& s[4] == '-' && s[7] == '-' && s[10] == 'T' && s[13] == ':' && s[16] == ':' && s[19] == '.' && s[23] == 'Z'
            &&& crate::number::digits_value(s.subrange(0, 4)) == d.year
            &&& crate::number::digits_value(s.subrange(5, 7)) == d.month
            &&& crate::number::digits_value(s.subrange(8, 10)) == d.day
            &&& hour < 24 && minute < 60 && second < 60 && part < 1000
            &&& hour * 3600000 + minute * 60000 + second * 1000 + part == ms
        }),
{
    reveal_strlit("-");
    reveal_strlit("T");
    reveal_strlit(":");
    reveal_strlit(".");
    reveal_strlit("Z");
    reveal_with_fuel(limit, 5);
    let a = padded(d.year, 4);
    let b = padded(d.month, 2);
    let c = padded(d.day, 2);
    let e = padded(ms / 3600000, 2);
    let f = padded(ms / 60000 % 60, 2);
    let g = padded(ms / 1000 % 60, 2);
    let h = padded(ms % 1000, 3);
    lemma_padded_value(d.year, 4);
    lemma_padded_value(d.month, 2);
    lemma_padded_value(d.day, 2);
    lemma_padded_value(ms / 3600000, 2);
    lemma_padded_value(ms / 60000 % 60, 2);
    lemma_padded_value(ms / 1000 % 60, 2);
    lemma_padded_value(ms % 1000, 3);
    let s = stamp_text(d, ms);
    assert(s.subrange(0, 4) =~= a);
    assert(s.subrange(5, 7) =~= b);
    assert(s.subrange(8, 10) =~= c);
    assert(s.subrange(11, 13) =~= e);
    assert(s.subrange(14, 16) =~= f);
    assert(s.subrange(17, 19) =~= g);
    assert(s.subrange(20, 23) =~= h);
}

/// A stamp in a file name differs from the stamp in its colons alone.
pub proof fn file_stamps_have_hyphens(stamp: Seq<char>, i: int)
    requires
        0 <= i < stamp.len(),
    ensures
        fs_safe(stamp).len() == stamp.len(),
        stamp[i] == ':' ==> fs_safe(stamp)[i] == '-',
        stamp[i] != ':' ==> fs_safe(stamp)[i] == stamp[i],
{
}

} // verus!
