//! Lengths of time and moments, and how the player writes them.
use crate::text::{
    decimal, is_digit, is_number, law_decimal_reads_back, law_two_digits_read_back,
    lemma_decimal_len, push_decimal, push_two_digits, read_number, two_digits,
};
use chrono::{DateTime, Local};
use vstd::arithmetic::div_mod::{
    lemma_fundamental_div_mod, lemma_fundamental_div_mod_converse, lemma_mod_bound,
};
use vstd::prelude::*;

verus! {

/// How many nanoseconds make a second.
pub const NANOS_PER_SEC: u32 = 1_000_000_000;

/// The longest span, in nanoseconds.
pub open spec fn longest_span() -> nat {
    (u64::MAX * NANOS_PER_SEC + (NANOS_PER_SEC - 1)) as nat
}

/// A length of time, in whole seconds and the nanoseconds beyond them.
#[derive(Clone, Copy, Debug)]
pub struct TimeSpan {
    secs: u64,
    nanos: u32,
}

impl View for TimeSpan {
    type V = nat;

    /// The length in nanoseconds.
    closed spec fn view(&self) -> nat {
        (self.secs * NANOS_PER_SEC + self.nanos) as nat
    }
}

impl TimeSpan {
    #[verifier::type_invariant]
    closed spec fn below_a_second(self) -> bool {
        self.nanos < NANOS_PER_SEC
    }

    /// So many seconds and nanoseconds.
    pub fn new(secs: u64, nanos: u32) -> (r: TimeSpan)
        requires
            nanos < NANOS_PER_SEC,
        ensures
            r@ == secs * NANOS_PER_SEC + nanos,
    {
        TimeSpan { secs, nanos }
    }

    /// The whole seconds of the span.
    pub fn secs(&self) -> (r: u64)
        ensures
            r == self@ / (NANOS_PER_SEC as nat),
    {
        proof {
            use_type_invariant(self);
        }
        self.secs
    }

    /// The nanoseconds beyond the whole seconds.
    pub fn subsec_nanos(&self) -> (r: u32)
        ensures
            r == self@ % (NANOS_PER_SEC as nat),
    {
        proof {
            use_type_invariant(self);
        }
        self.nanos
    }

    /// Tells whether the span is empty.
    pub fn is_zero(&self) -> (r: bool)
        ensures
            r == (self@ == 0),
    {
        self.secs == 0 && self.nanos == 0
    }

    /// Tells whether the span is longer than another.
    pub fn longer_than(&self, other: &TimeSpan) -> (r: bool)
        ensures
            r == (self@ > other@),
    {
        proof {
            use_type_invariant(self);
            use_type_invariant(other);
        }
        self.secs > other.secs || (self.secs == other.secs && self.nanos > other.nanos)
    }

    /// The sum, or the longest span where the sum is longer still.
    pub fn saturating_add(&self, other: &TimeSpan) -> (r: TimeSpan)
        ensures
            r@ == if self@ + other@ <= longest_span() {
                self@ + other@
            } else {
                longest_span()
            },
    {
        proof {
            use_type_invariant(self);
            use_type_invariant(other);
        }
        let nanos: u32 = self.nanos + other.nanos;
        let carry: u64 = if nanos >= NANOS_PER_SEC { 1 } else { 0 };
        match self.secs.checked_add(other.secs) {
            Some(secs) => match secs.checked_add(carry) {
                Some(whole) => {
                    if carry == 1 {
                        TimeSpan { secs: whole, nanos: nanos - NANOS_PER_SEC }
                    } else {
                        TimeSpan { secs: whole, nanos }
                    }
                },
                None => TimeSpan { secs: u64::MAX, nanos: NANOS_PER_SEC - 1 },
            },
            None => TimeSpan { secs: u64::MAX, nanos: NANOS_PER_SEC - 1 },
        }
    }

    /// The difference, or the empty span where the other is longer.
    pub fn saturating_sub(&self, other: &TimeSpan) -> (r: TimeSpan)
        ensures
            r@ == if self@ >= other@ {
                self@ - other@
            } else {
                0
            },
    {
        proof {
            use_type_invariant(self);
            use_type_invariant(other);
        }
        if self.longer_than(other) {
            if self.nanos >= other.nanos {
                TimeSpan { secs: self.secs - other.secs, nanos: self.nanos - other.nanos }
            } else {
                TimeSpan {
                    secs: self.secs - other.secs - 1,
                    nanos: self.nanos + (NANOS_PER_SEC - other.nanos),
                }
            }
        } else {
            TimeSpan { secs: 0, nanos: 0 }
        }
    }
}

/// A span of so many nanoseconds as `h:mm:ss`, or as `m:ss` where it is shorter
/// than an hour.
pub open spec fn duration_text(nanos: nat) -> Seq<char> {
    let secs = nanos / (NANOS_PER_SEC as nat);
    let h = secs / 3600;
    let m = (secs % 3600) / 60;
    let s = secs % 60;
    if h > 0 {
        decimal(h) + ":"@ + two_digits(m) + ":"@ + two_digits(s)
    } else {
        decimal(m) + ":"@ + two_digits(s)
    }
}

/// A text of digits that is read as the number, without a zero before other
/// digits.
pub open spec fn writes_number(s: Seq<char>, n: int) -> bool {
    is_number(s) && read_number(s) == n && (s.len() > 1 ==> s[0] != '0')
}

/// Two places that are read as the number.
pub open spec fn writes_two_places(s: Seq<char>, n: int) -> bool {
    s.len() == 2 && is_number(s) && read_number(s) == n
}

/// A text that is read as so many seconds: the seconds stand in the last two
/// places behind a colon. Below an hour all that precedes is the count of
/// minutes; else the minutes stand in two places too, and the hours precede them
/// before another colon.
pub open spec fn reads_as_seconds(t: Seq<char>, secs: int) -> bool {
    let n = t.len() as int;
    &&& n >= 4 && t[n - 3] == ':'
    &&& writes_two_places(t.skip(n - 2), secs % 60)
    &&& secs < 3600 ==> writes_number(t.take(n - 3), secs / 60)
    &&& secs >= 3600 ==> {
        &&& n >= 7 && t[n - 6] == ':'
        &&& writes_two_places(t.subrange(n - 5, n - 3), secs / 60 % 60)
        &&& writes_number(t.take(n - 6), secs / 3600)
    }
}

/// From the text of a span its whole seconds are read back.
pub proof fn law_duration_reads_back(nanos: nat)
    ensures
        reads_as_seconds(duration_text(nanos), nanos as int / 1_000_000_000),
{
    let secs = nanos / (NANOS_PER_SEC as nat);
    let (h, m, s) = (secs / 3600, (secs % 3600) / 60, secs % 60);
    law_two_digits_read_back(m);
    law_two_digits_read_back(s);
    law_decimal_reads_back(h);
    law_decimal_reads_back(m);
    assert(writes_two_places(two_digits(m), m as int));
    assert(writes_two_places(two_digits(s), s as int));
    assert(writes_number(decimal(h), h as int));
    assert(writes_number(decimal(m), m as int));
    lemma_minutes_and_seconds(decimal(m), two_digits(s));
    lemma_hours_minutes_and_seconds(decimal(h), two_digits(m), two_digits(s));
    lemma_clock(secs as int);
}

/// The text of a span tells its whole seconds: two spans with the same text
/// differ by less than a second.
pub proof fn law_duration_text_is_faithful(a: nat, b: nat)
    requires
        duration_text(a) == duration_text(b),
    ensures
        a / (NANOS_PER_SEC as nat) == b / (NANOS_PER_SEC as nat),
{
    law_duration_reads_back(a);
    law_duration_reads_back(b);
    lemma_seconds_are_read_one_way(
        duration_text(a),
        a as int / 1_000_000_000,
        b as int / 1_000_000_000,
    );
}

proof fn lemma_seconds_are_read_one_way(t: Seq<char>, a: int, b: int)
    requires
        reads_as_seconds(t, a),
        reads_as_seconds(t, b),
    ensures
        a == b,
{
    let n = t.len() as int;
    if (a < 3600) != (b < 3600) {
        assert(t.take(n - 3)[n - 6] == ':');
        assert(is_digit(t.take(n - 3)[n - 6]));
    }
}

proof fn lemma_minutes_and_seconds(m: Seq<char>, s: Seq<char>)
    requires
        m.len() > 0,
        s.len() == 2,
    ensures
        ({
            let t = m + ":"@ + s;
            let n = t.len() as int;
            &&& n == m.len() + 3 && t[n - 3] == ':'
            &&& t.skip(n - 2) == s
            &&& t.take(n - 3) == m
        }),
{
    reveal_strlit(":");
    let t = m + ":"@ + s;
    let n = t.len() as int;
    assert(t.skip(n - 2) =~= s);
    assert(t.take(n - 3) =~= m);
}

proof fn lemma_hours_minutes_and_seconds(h: Seq<char>, m: Seq<char>, s: Seq<char>)
    requires
        h.len() > 0,
        m.len() == 2,
        s.len() == 2,
    ensures
        ({
            let t = h + ":"@ + m + ":"@ + s;
            let n = t.len() as int;
            &&& n == h.len() + 6 && t[n - 3] == ':' && t[n - 6] == ':'
            &&& t.skip(n - 2) == s
            &&& t.subrange(n - 5, n - 3) == m
            &&& t.take(n - 6) == h
        }),
{
    reveal_strlit(":");
    let t = h + ":"@ + m + ":"@ + s;
    let n = t.len() as int;
    assert(t.skip(n - 2) =~= s);
    assert(t.subrange(n - 5, n - 3) =~= m);
    assert(t.take(n - 6) =~= h);
}

/// Writes a span as `h:mm:ss` or `m:ss`.
pub fn fmt_duration(d: TimeSpan) -> (r: String)
    ensures
        r@ == duration_text(d@),
{
    let secs: u64 = d.secs();
    let h: u64 = secs / 3600;
    let m: u64 = (secs % 3600) / 60;
    let s: u64 = secs % 60;
    let mut out = String::new();
    if h > 0 {
        push_decimal(&mut out, h);
        out.append(":");
        push_two_digits(&mut out, m);
        out.append(":");
        push_two_digits(&mut out, s);
    } else {
        push_decimal(&mut out, m);
        out.append(":");
        push_two_digits(&mut out, s);
    }
    assert(out@ =~= duration_text(d@));
    out
}

/// The first second of the year -262143, counted from the start of 1970.
pub const EARLIEST_SECOND: i64 = -8_334_601_228_800;

/// The last second of the year 262142, counted from the start of 1970.
pub const LATEST_SECOND: i64 = 8_210_266_876_799;

/// A moment, counted from the start of 1970 in UTC.
#[derive(Clone, Copy, Debug)]
pub struct Timestamp {
    secs: i64,
    nanos: u32,
}

impl View for Timestamp {
    type V = int;

    /// The nanoseconds since the start of 1970.
    closed spec fn view(&self) -> int {
        self.secs * NANOS_PER_SEC + self.nanos
    }
}

impl Timestamp {
    #[verifier::type_invariant]
    closed spec fn within_calendar(self) -> bool {
        EARLIEST_SECOND <= self.secs <= LATEST_SECOND && self.nanos < NANOS_PER_SEC
    }

    /// The moment so many nanoseconds after so many seconds, if the calendar
    /// reaches that far.
    pub fn new(secs: i64, nanos: u32) -> (r: Option<Timestamp>)
        ensures
            r is Some <==> EARLIEST_SECOND <= secs <= LATEST_SECOND && nanos < NANOS_PER_SEC,
            r matches Some(t) ==> t@ == secs * NANOS_PER_SEC + nanos,
    {
        if EARLIEST_SECOND <= secs && secs <= LATEST_SECOND && nanos < NANOS_PER_SEC {
            Some(Timestamp { secs, nanos })
        } else {
            None
        }
    }
}

/// Leap years of the Gregorian calendar.
pub open spec fn is_leap_year(y: int) -> bool {
    y % 4 == 0 && (y % 100 != 0 || y % 400 == 0)
}

/// How many days a month has.
pub open spec fn days_in_month(y: int, m: int) -> int {
    if m == 2 {
        if is_leap_year(y) {
            29
        } else {
            28
        }
    } else if m == 4 || m == 6 || m == 9 || m == 11 {
        30
    } else {
        31
    }
}

/// How many days of the year precede a month.
pub open spec fn days_before_month(y: int, m: int) -> int
    decreases m,
{
    if m <= 1 {
        0
    } else {
        days_before_month(y, m - 1) + days_in_month(y, m - 1)
    }
}

/// How many leap years precede a year, counted from the year 1.
pub open spec fn leap_years_before(y: int) -> int {
    (y - 1) / 4 - (y - 1) / 100 + (y - 1) / 400
}

/// The number of a day; the first day of 1970 has the number 0.
pub open spec fn day_number(y: int, m: int, d: int) -> int {
    365 * (y - 1970) + leap_years_before(y) - leap_years_before(1970) + days_before_month(y, m) + d
        - 1
}

/// The days that there are.
pub open spec fn is_date(y: int, m: int, d: int) -> bool {
    1 <= m <= 12 && 1 <= d <= days_in_month(y, m)
}

/// The decimal notation of a number, filled up with zeros to four digits.
pub open spec fn four_digits(n: nat) -> Seq<char> {
    if n < 10 {
        "000"@ + decimal(n)
    } else if n < 100 {
        "00"@ + decimal(n)
    } else if n < 1000 {
        "0"@ + decimal(n)
    } else {
        decimal(n)
    }
}

/// A year in four digits, with a sign where it is negative or needs more.
pub open spec fn year_text(y: int) -> Seq<char> {
    if y < 0 {
        "-"@ + four_digits((-y) as nat)
    } else if y <= 9999 {
        four_digits(y as nat)
    } else {
        "+"@ + decimal(y as nat)
    }
}

/// Tells whether a text writes the minute of a second, counted from the start
/// of 1970 in UTC, as `YYYY-MM-DD hh:mm` on a clock that is `offset` seconds
/// ahead, on which the day is that of `y`, `m` and `d`.
pub open spec fn shows_minute(
    text: Seq<char>,
    second: int,
    offset: int,
    y: int,
    m: int,
    d: int,
) -> bool {
    let shown = second + offset;
    &&& is_date(y, m, d)
    &&& day_number(y, m, d) == shown / 86400
    &&& text == year_text(y) + "-"@ + two_digits(m as nat) + "-"@ + two_digits(d as nat) + " "@
        + two_digits(((shown % 86400) / 3600) as nat) + ":"@ + two_digits(
        ((shown % 3600) / 60) as nat,
    )
}

/// Tells whether a text writes the minute of a second on the clock of some time
/// zone, less than a day ahead of UTC or behind it.
pub open spec fn is_zoned_minute(text: Seq<char>, second: int) -> bool {
    exists|offset: int, y: int, m: int, d: int|
        -86400 < offset < 86400 && #[trigger] shows_minute(text, second, offset, y, m, d)
}

/// The numbers of the days follow one another: within a month, from month to
/// month and from year to year, and they start with the first day of 1970. April,
/// June, September and November have thirty days, February has twenty-eight or in
/// a leap year twenty-nine, and the others thirty-one; each fourth year is a leap
/// year, but of the full centuries only each fourth.
pub proof fn law_days_are_counted(y: int, m: int, d: int)
    ensures
        day_number(1970, 1, 1) == 0,
        day_number(y, m, d + 1) == day_number(y, m, d) + 1,
        1 <= m < 12 ==> day_number(y, m + 1, 1) == day_number(y, m, days_in_month(y, m)) + 1,
        day_number(y + 1, 1, 1) == day_number(y, 12, 31) + 1,
        is_date(y, m, d) <==> 1 <= m <= 12 && 1 <= d <= 31 && (m == 4 || m == 6 || m == 9 || m == 11
            ==> d <= 30) && (m == 2 ==> d <= 29 && (d == 29 ==> y % 4 == 0 && (y % 100 == 0 ==> y
            % 400 == 0))),
{
    lemma_days_of_year(y);
    lemma_leap_years(y);
    if 1 <= m < 12 {
        assert(days_before_month(y, m + 1) == days_before_month(y, m) + days_in_month(y, m));
    }
    assert(days_before_month(1970, 1) == 0 && days_before_month(y + 1, 1) == 0);
}

proof fn lemma_days_of_year(y: int)
    ensures
        days_before_month(y, 12) == if is_leap_year(y) {
            335int
        } else {
            334
        },
{
    reveal_with_fuel(days_before_month, 12);
}

proof fn lemma_leap_years(y: int)
    ensures
        leap_years_before(y + 1) == leap_years_before(y) + if is_leap_year(y) {
            1int
        } else {
            0
        },
{
    lemma_multiples(y, 4);
    lemma_multiples(y, 100);
    lemma_multiples(y, 400);
    lemma_centuries(y);
}

/// One multiple more lies below or at a number than below it exactly where it is
/// one itself.
proof fn lemma_multiples(y: int, d: int)
    requires
        d > 0,
    ensures
        y / d == (y - 1) / d + if y % d == 0 {
            1int
        } else {
            0
        },
{
    lemma_fundamental_div_mod(y, d);
    let (q, r) = (y / d, y % d);
    assert(0 <= r < d) by {
        lemma_mod_bound(y, d);
    }
    if r == 0 {
        assert(y - 1 == (q - 1) * d + (d - 1)) by (nonlinear_arith)
            requires
                y == d * q,
        ;
        lemma_fundamental_div_mod_converse(y - 1, d, q - 1, d - 1);
    } else {
        assert(y - 1 == q * d + (r - 1)) by (nonlinear_arith)
            requires
                y == d * q + r,
        ;
        lemma_fundamental_div_mod_converse(y - 1, d, q, r - 1);
    }
}

proof fn lemma_centuries(y: int)
    ensures
        y % 400 == 0 ==> y % 100 == 0,
        y % 100 == 0 ==> y % 4 == 0,
{
    if y % 400 == 0 {
        assert(y == 100 * (4 * (y / 400)));
    }
    if y % 100 == 0 {
        assert(y == 4 * (25 * (y / 100)));
    }
}

/// A text that is read as a date and a minute of a clock that shows the second,
/// counted from the start of 1970: the year in four places, or behind a sign in
/// as many as it needs, and then month, day, hour and minute in two places each.
pub open spec fn reads_as_minute(text: Seq<char>, shown: int, y: int, m: int, d: int) -> bool {
    let n = text.len() as int;
    let minute = shown / 60;
    &&& n >= 16
    &&& text[n - 12] == '-' && text[n - 9] == '-' && text[n - 6] == ' ' && text[n - 3] == ':'
    &&& writes_two_places(text.skip(n - 2), minute % 60)
    &&& writes_two_places(text.subrange(n - 5, n - 3), minute / 60 % 24)
    &&& writes_two_places(text.subrange(n - 8, n - 6), d)
    &&& writes_two_places(text.subrange(n - 11, n - 9), m)
    &&& day_number(y, m, d) == minute / 60 / 24
    &&& if 0 <= y <= 9999 {
        n == 16 && is_number(text.take(4)) && read_number(text.take(4)) == y
    } else {
        let digits = text.subrange(1, n - 12);
        &&& n >= 17 && text[0] == (if y < 0 {
            '-'
        } else {
            '+'
        })
        &&& is_number(digits) && read_number(digits) == (if y < 0 {
            -y
        } else {
            y
        })
    }
}

proof fn lemma_four_digits(n: nat)
    ensures
        is_number(four_digits(n)),
        read_number(four_digits(n)) == n,
        four_digits(n).len() >= 4,
        n <= 9999 ==> four_digits(n).len() == 4,
{
    reveal_strlit("0");
    reveal_strlit("00");
    reveal_strlit("000");
    law_decimal_reads_back(n);
    let s = decimal(n);
    lemma_decimal_len(n);
    lemma_decimal_len(n / 10);
    lemma_decimal_len(n / 100);
    lemma_decimal_len(n / 1000);
    assert(n / 10 / 10 == n / 100 && n / 100 / 10 == n / 1000);
    lemma_zero_in_front(s);
    lemma_zero_in_front(seq!['0'] + s);
    lemma_zero_in_front(seq!['0'] + (seq!['0'] + s));
    assert("0"@ + s =~= seq!['0'] + s);
    assert("00"@ + s =~= seq!['0'] + (seq!['0'] + s));
    assert("000"@ + s =~= seq!['0'] + (seq!['0'] + (seq!['0'] + s)));
}

proof fn lemma_zero_in_front(s: Seq<char>)
    ensures
        read_number(seq!['0'] + s) == read_number(s),
        is_number(s) ==> is_number(seq!['0'] + s),
    decreases s.len(),
{
    let t = seq!['0'] + s;
    if s.len() == 0 {
        assert(t.drop_last() =~= Seq::<char>::empty());
        assert(read_number(Seq::<char>::empty()) == 0);
    } else {
        lemma_zero_in_front(s.drop_last());
        assert(t.drop_last() =~= seq!['0'] + s.drop_last());
        if is_number(s) {
            assert forall|i: int| 0 <= i < t.len() implies is_digit(#[trigger] t[i]) by {
                if i > 0 {
                    assert(t[i] == s[i - 1]);
                }
            }
        }
    }
}

/// A written moment is read back as a date that there is and a minute of its
/// day, on a clock that is less than a day ahead or behind.
pub proof fn law_written_minute_reads_back(text: Seq<char>, second: int)
    requires
        is_zoned_minute(text, second),
    ensures
        exists|offset: int, y: int, m: int, d: int|
            -86400 < offset < 86400 && is_date(y, m, d) && #[trigger] reads_as_minute(
                text,
                second + offset,
                y,
                m,
                d,
            ),
{
    let (offset, y, m, d) = choose|offset: int, y: int, m: int, d: int|
        -86400 < offset < 86400 && #[trigger] shows_minute(text, second, offset, y, m, d);
    lemma_shown_minute(text, second, offset, y, m, d);
}

proof fn lemma_clock(shown: int)
    ensures
        (shown % 3600) / 60 == shown / 60 % 60,
        (shown % 86400) / 3600 == shown / 60 / 60 % 24,
        shown / 86400 == shown / 60 / 60 / 24,
        0 <= (shown % 3600) / 60 < 60,
        0 <= (shown % 86400) / 3600 < 24,
{
    let day = shown / 86400;
    let rest = shown % 86400;
    let (hour, left) = (rest / 3600, rest % 3600);
    let (minute, second) = (left / 60, left % 60);
    assert(shown == 86400 * day + 3600 * hour + 60 * minute + second);
    lemma_fundamental_div_mod_converse(shown, 3600, 24 * day + hour, left);
    lemma_fundamental_div_mod_converse(shown, 60, 1440 * day + 60 * hour + minute, second);
    lemma_fundamental_div_mod_converse(shown / 60, 60, 24 * day + hour, minute);
    lemma_fundamental_div_mod_converse(shown / 60 / 60, 24, day, hour);
}

proof fn lemma_shown_minute(text: Seq<char>, second: int, offset: int, y: int, m: int, d: int)
    requires
        shows_minute(text, second, offset, y, m, d),
    ensures
        is_date(y, m, d),
        reads_as_minute(text, second + offset, y, m, d),
{
    let shown = second + offset;
    let (hour, minute) = ((shown % 86400) / 3600, (shown % 3600) / 60);
    lemma_clock(shown);
    law_two_digits_read_back(m as nat);
    law_two_digits_read_back(d as nat);
    law_two_digits_read_back(hour as nat);
    law_two_digits_read_back(minute as nat);
    let year = year_text(y);
    lemma_year_reads_back(y);
    lemma_date_and_minute(
        year,
        two_digits(m as nat),
        two_digits(d as nat),
        two_digits(hour as nat),
        two_digits(minute as nat),
    );
    let n = text.len() as int;
    assert(text.take(n - 12) == year);
    if !(0 <= y <= 9999) {
        assert(text[0] == text.take(n - 12)[0]);
        assert(text.subrange(1, n - 12) =~= text.take(n - 12).skip(1));
    }
}

proof fn lemma_year_reads_back(y: int)
    ensures
        ({
            let year = year_text(y);
            if 0 <= y <= 9999 {
                year.len() == 4 && is_number(year) && read_number(year) == y
            } else {
                &&& year.len() >= 5 && year[0] == (if y < 0 {
                    '-'
                } else {
                    '+'
                })
                &&& is_number(year.skip(1)) && read_number(year.skip(1)) == (if y < 0 {
                    -y
                } else {
                    y
                })
            }
        }),
{
    reveal_strlit("-");
    reveal_strlit("+");
    let year = year_text(y);
    if y < 0 {
        lemma_four_digits((-y) as nat);
        assert(year.skip(1) =~= four_digits((-y) as nat));
    } else {
        lemma_four_digits(y as nat);
        if y > 9999 {
            assert(year.skip(1) =~= decimal(y as nat));
        }
    }
}

proof fn lemma_date_and_minute(
    year: Seq<char>,
    m: Seq<char>,
    d: Seq<char>,
    hour: Seq<char>,
    minute: Seq<char>,
)
    requires
        m.len() == 2,
        d.len() == 2,
        hour.len() == 2,
        minute.len() == 2,
    ensures
        ({
            let text = year + "-"@ + m + "-"@ + d + " "@ + hour + ":"@ + minute;
            let n = text.len() as int;
            &&& n == year.len() + 12
            &&& text[n - 12] == '-' && text[n - 9] == '-' && text[n - 6] == ' ' && text[n - 3]
                == ':'
            &&& text.skip(n - 2) == minute
            &&& text.subrange(n - 5, n - 3) == hour
            &&& text.subrange(n - 8, n - 6) == d
            &&& text.subrange(n - 11, n - 9) == m
            &&& text.take(n - 12) == year
        }),
{
    reveal_strlit("-");
    reveal_strlit(" ");
    reveal_strlit(":");
    let text = year + "-"@ + m + "-"@ + d + " "@ + hour + ":"@ + minute;
    let n = text.len() as int;
    assert(text.skip(n - 2) =~= minute);
    assert(text.subrange(n - 5, n - 3) =~= hour);
    assert(text.subrange(n - 8, n - 6) =~= d);
    assert(text.subrange(n - 11, n - 9) =~= m);
    assert(text.take(n - 12) =~= year);
}

/// The pattern by which a moment is written.
pub const MINUTE_PATTERN: &'static str = "%Y-%m-%d %H:%M";

/// Trusted: `DateTime::from_timestamp`, `DateTime::with_timezone` for the zone
/// of the machine, and `DateTime::format` with the pattern for a date and a
/// minute. The text shows the moment on the clock of that zone, whose offset
/// from UTC is less than a day. Which offset the machine's zone has at the
/// moment is left unsaid; there is no clock to show, and no return, where the
/// machine's zone data give an offset of a day or more.
#[verifier::external_body]
fn format_local(secs: i64, nanos: u32, pattern: &str) -> (r: String)
    requires
        EARLIEST_SECOND <= secs <= LATEST_SECOND,
        nanos < NANOS_PER_SEC,
        pattern@ == MINUTE_PATTERN@,
    ensures
        is_zoned_minute(r@, secs as int),
{
    DateTime::from_timestamp(secs, nanos).unwrap().with_timezone(&Local).format(pattern).to_string()
}

/// Writes a moment by the clock of the machine's time zone; a dash where it is
/// not known.
pub fn fmt_created(t: Option<Timestamp>) -> (r: String)
    ensures
        match t {
            Some(t) => is_zoned_minute(r@, t@ / (NANOS_PER_SEC as int)),
            None => r@ == "-"@,
        },
{
    match t {
        Some(t) => {
            proof {
                use_type_invariant(&t);
            }
            format_local(t.secs, t.nanos, MINUTE_PATTERN)
        },
        None => "-".to_owned(),
    }
}

} // verus!
