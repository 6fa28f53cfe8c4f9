//! Calendar timestamps as plain values: a record stores its deletion time
//! as the 19-character text `YYYY-MM-DD HH:MM:SS`, and the retention policy
//! compares times as seconds on a linear scale. Rendering, parsing and the
//! civil-calendar second count are all defined here; the clock itself (what
//! "now" is) comes from the caller.

use vstd::prelude::*;
use vstd::string::StringExecFns;
use crate::strutil::digit_char;

verus! {

/// A civil date and time, to one-second resolution, in the quarantine
/// area's local time.
#[derive(Clone, Copy, Debug, PartialEq, Eq, Structural)]
pub struct Timestamp {
    pub year: u64,
    pub month: u64,
    pub day: u64,
    pub hour: u64,
    pub minute: u64,
    pub second: u64,
}

/// The Gregorian leap-year rule.
pub open spec fn spec_is_leap_year(y: nat) -> bool {
    y % 4 == 0 && (y % 100 != 0 || y % 400 == 0)
}

/// Days in a month of the Gregorian calendar.
pub open spec fn spec_days_in_month(y: nat, m: nat) -> nat {
    if m == 2 {
        if spec_is_leap_year(y) {
            29
        } else {
            28
        }
    } else if m == 4 || m == 6 || m == 9 || m == 11 {
        30
    } else {
        31
    }
}

/// A timestamp this store can hold: a real calendar date with a four-digit
/// year and an in-range time of day.
pub open spec fn ts_valid(ts: Timestamp) -> bool {
    &&& 1 <= ts.year <= 9999
    &&& 1 <= ts.month <= 12
    &&& 1 <= ts.day <= spec_days_in_month(ts.year as nat, ts.month as nat)
    &&& ts.hour <= 23
    &&& ts.minute <= 59
    &&& ts.second <= 59
}

/// A value rendered as exactly two decimal digits, zero-padded.
pub open spec fn spec_two(n: nat) -> Seq<char> {
    seq![digit_char(n / 10 % 10), digit_char(n % 10)]
}

/// A value rendered as exactly four decimal digits, zero-padded.
pub open spec fn spec_four(n: nat) -> Seq<char> {
    seq![
        digit_char(n / 1000 % 10),
        digit_char(n / 100 % 10),
        digit_char(n / 10 % 10),
        digit_char(n % 10),
    ]
}

/// The `YYYY-MM-DD HH:MM:SS` rendering of a timestamp.
pub open spec fn spec_render_ts(ts: Timestamp) -> Seq<char> {
    spec_four(ts.year as nat) + seq!['-'] + spec_two(ts.month as nat) + seq!['-'] + spec_two(
        ts.day as nat,
    ) + seq![' '] + spec_two(ts.hour as nat) + seq![':'] + spec_two(ts.minute as nat) + seq![':']
        + spec_two(ts.second as nat)
}

/// The timestamp a text determines, when exactly one valid timestamp
/// renders to it; no timestamp otherwise.
pub open spec fn spec_parse_ts(s: Seq<char>) -> Option<Timestamp> {
    if exists|ts: Timestamp| ts_valid(ts) && spec_render_ts(ts) == s {
        Some(choose|ts: Timestamp| ts_valid(ts) && spec_render_ts(ts) == s)
    } else {
        None
    }
}

/// The numeric value of a digit character; ten for any other character.
pub open spec fn char_digit(c: char) -> nat {
    if c == '0' {
        0
    } else if c == '1' {
        1
    } else if c == '2' {
        2
    } else if c == '3' {
        3
    } else if c == '4' {
        4
    } else if c == '5' {
        5
    } else if c == '6' {
        6
    } else if c == '7' {
        7
    } else if c == '8' {
        8
    } else if c == '9' {
        9
    } else {
        10
    }
}

pub proof fn lemma_char_digit_of_digit_char(d: nat)
    requires
        d < 10,
    ensures
        char_digit(digit_char(d)) == d,
{
}

/// Reads a decimal digit character.
pub fn char_to_digit(c: char) -> (r: Option<u64>)
    ensures
        char_digit(c) < 10 ==> r == Some(char_digit(c) as u64),
        char_digit(c) == 10 ==> r is None,
{
    if c == '0' {
        Some(0)
    } else if c == '1' {
        Some(1)
    } else if c == '2' {
        Some(2)
    } else if c == '3' {
        Some(3)
    } else if c == '4' {
        Some(4)
    } else if c == '5' {
        Some(5)
    } else if c == '6' {
        Some(6)
    } else if c == '7' {
        Some(7)
    } else if c == '8' {
        Some(8)
    } else if c == '9' {
        Some(9)
    } else {
        None
    }
}

/// The length and character-by-character content of a valid timestamp's
/// rendering: 19 characters, digits and fixed separators at fixed places.
proof fn lemma_render_shape(ts: Timestamp)
    ensures
        spec_render_ts(ts).len() == 19,
        spec_render_ts(ts)[0] == digit_char(ts.year as nat / 1000 % 10),
        spec_render_ts(ts)[1] == digit_char(ts.year as nat / 100 % 10),
        spec_render_ts(ts)[2] == digit_char(ts.year as nat / 10 % 10),
        spec_render_ts(ts)[3] == digit_char(ts.year as nat % 10),
        spec_render_ts(ts)[4] == '-',
        spec_render_ts(ts)[5] == digit_char(ts.month as nat / 10 % 10),
        spec_render_ts(ts)[6] == digit_char(ts.month as nat % 10),
        spec_render_ts(ts)[7] == '-',
        spec_render_ts(ts)[8] == digit_char(ts.day as nat / 10 % 10),
        spec_render_ts(ts)[9] == digit_char(ts.day as nat % 10),
        spec_render_ts(ts)[10] == ' ',
        spec_render_ts(ts)[11] == digit_char(ts.hour as nat / 10 % 10),
        spec_render_ts(ts)[12] == digit_char(ts.hour as nat % 10),
        spec_render_ts(ts)[13] == ':',
        spec_render_ts(ts)[14] == digit_char(ts.minute as nat / 10 % 10),
        spec_render_ts(ts)[15] == digit_char(ts.minute as nat % 10),
        spec_render_ts(ts)[16] == ':',
        spec_render_ts(ts)[17] == digit_char(ts.second as nat / 10 % 10),
        spec_render_ts(ts)[18] == digit_char(ts.second as nat % 10),
{
}

proof fn lemma_four_digit_parts(y: nat)
    requires
        y <= 9999,
    ensures
        y == y / 1000 % 10 * 1000 + y / 100 % 10 * 100 + y / 10 % 10 * 10 + y % 10,
{
    assert(y / 1000 % 10 == y / 1000);
    assert(y / 100 % 10 == y / 100 - y / 1000 * 10);
    assert(y / 10 % 10 == y / 10 - y / 100 * 10);
}

proof fn lemma_four_digits_of(a: nat, b: nat, c: nat, d: nat)
    requires
        a < 10,
        b < 10,
        c < 10,
        d < 10,
    ensures
        (a * 1000 + b * 100 + c * 10 + d) / 1000 % 10 == a,
        (a * 1000 + b * 100 + c * 10 + d) / 100 % 10 == b,
        (a * 1000 + b * 100 + c * 10 + d) / 10 % 10 == c,
        (a * 1000 + b * 100 + c * 10 + d) % 10 == d,
{
    let y = a * 1000 + b * 100 + c * 10 + d;
    assert(y / 1000 == a);
    assert(y / 100 == a * 10 + b);
    assert(y / 10 == a * 100 + b * 10 + c);
}

proof fn lemma_two_digits_of(h: nat, l: nat)
    requires
        h < 10,
        l < 10,
    ensures
        (h * 10 + l) / 10 % 10 == h,
        (h * 10 + l) % 10 == l,
{
}

/// A valid timestamp is determined, field by field, by the digit characters
/// of its rendering.
#[verifier::rlimit(100)]
proof fn lemma_render_determines(ts: Timestamp, s: Seq<char>)
    requires
        ts_valid(ts),
        spec_render_ts(ts) == s,
    ensures
        s.len() == 19,
        ts.year == char_digit(s[0]) * 1000 + char_digit(s[1]) * 100 + char_digit(s[2]) * 10
            + char_digit(s[3]),
        ts.month == char_digit(s[5]) * 10 + char_digit(s[6]),
        ts.day == char_digit(s[8]) * 10 + char_digit(s[9]),
        ts.hour == char_digit(s[11]) * 10 + char_digit(s[12]),
        ts.minute == char_digit(s[14]) * 10 + char_digit(s[15]),
        ts.second == char_digit(s[17]) * 10 + char_digit(s[18]),
        s[4] == '-' && s[7] == '-' && s[10] == ' ' && s[13] == ':' && s[16] == ':',
        forall|i: int|
            0 <= i < 19 && i != 4 && i != 7 && i != 10 && i != 13 && i != 16 ==> char_digit(
                #[trigger] s[i],
            ) < 10,
{
    lemma_render_shape(ts);
    let y = ts.year as nat;
    lemma_char_digit_of_digit_char(y / 1000 % 10);
    lemma_char_digit_of_digit_char(y / 100 % 10);
    lemma_char_digit_of_digit_char(y / 10 % 10);
    lemma_char_digit_of_digit_char(y % 10);
    lemma_four_digit_parts(y);
    lemma_two_digit_field(ts.month as nat, s[5], s[6]);
    lemma_two_digit_field(ts.day as nat, s[8], s[9]);
    lemma_two_digit_field(ts.hour as nat, s[11], s[12]);
    lemma_two_digit_field(ts.minute as nat, s[14], s[15]);
    lemma_two_digit_field(ts.second as nat, s[17], s[18]);
    assert forall|i: int|
        0 <= i < 19 && i != 4 && i != 7 && i != 10 && i != 13 && i != 16 implies char_digit(
        #[trigger] s[i],
    ) < 10 by {
        if i == 0 {
            lemma_char_digit_of_digit_char(y / 1000 % 10);
        } else if i == 1 {
            lemma_char_digit_of_digit_char(y / 100 % 10);
        } else if i == 2 {
            lemma_char_digit_of_digit_char(y / 10 % 10);
        } else if i == 3 {
            lemma_char_digit_of_digit_char(y % 10);
        } else if i == 5 || i == 8 || i == 11 || i == 14 || i == 17 {
            let n: nat = if i == 5 {
                ts.month as nat
            } else if i == 8 {
                ts.day as nat
            } else if i == 11 {
                ts.hour as nat
            } else if i == 14 {
                ts.minute as nat
            } else {
                ts.second as nat
            };
            lemma_char_digit_of_digit_char(n / 10 % 10);
        } else {
            let n: nat = if i == 6 {
                ts.month as nat
            } else if i == 9 {
                ts.day as nat
            } else if i == 12 {
                ts.hour as nat
            } else if i == 15 {
                ts.minute as nat
            } else {
                ts.second as nat
            };
            lemma_char_digit_of_digit_char(n % 10);
        }
    };
}

proof fn lemma_two_digit_field(n: nat, hi: char, lo: char)
    requires
        n <= 99,
        hi == digit_char(n / 10 % 10),
        lo == digit_char(n % 10),
    ensures
        n == char_digit(hi) * 10 + char_digit(lo),
{
    lemma_char_digit_of_digit_char(n / 10 % 10);
    lemma_char_digit_of_digit_char(n % 10);
}

/// Renders a value below one hundred as two zero-padded digits.
fn two_digits(n: u64) -> (r: String)
    requires
        n <= 99,
    ensures
        r@ == spec_two(n as nat),
{
    String::from_str(crate::strutil::digit_str(n / 10)).concat(
        crate::strutil::digit_str(n % 10),
    )
}

/// Renders a value below ten thousand as four zero-padded digits.
fn four_digits(n: u64) -> (r: String)
    requires
        n <= 9999,
    ensures
        r@ == spec_four(n as nat),
{
    String::from_str(crate::strutil::digit_str(n / 1000)).concat(
        crate::strutil::digit_str(n / 100 % 10),
    ).concat(crate::strutil::digit_str(n / 10 % 10)).concat(
        crate::strutil::digit_str(n % 10),
    )
}

/// Renders a timestamp as `YYYY-MM-DD HH:MM:SS`.
pub fn render_timestamp(ts: &Timestamp) -> (r: String)
    requires
        ts_valid(*ts),
    ensures
        r@ == spec_render_ts(*ts),
{
    proof {
        reveal_strlit("-");
        reveal_strlit(" ");
        reveal_strlit(":");
        assert("-"@ =~= seq!['-']);
        assert(" "@ =~= seq![' ']);
        assert(":"@ =~= seq![':']);
    }
    let r = four_digits(ts.year).concat("-").concat(two_digits(ts.month).as_str()).concat(
        "-",
    ).concat(two_digits(ts.day).as_str()).concat(" ").concat(two_digits(ts.hour).as_str()).concat(
        ":",
    ).concat(two_digits(ts.minute).as_str()).concat(":").concat(two_digits(ts.second).as_str());
    proof {
        assert(r@ =~= spec_render_ts(*ts));
    }
    r
}

/// Whether a timestamp is one this store can hold.
pub fn timestamp_valid(ts: &Timestamp) -> (b: bool)
    ensures
        b == ts_valid(*ts),
{
    1 <= ts.year && ts.year <= 9999 && 1 <= ts.month && ts.month <= 12 && 1 <= ts.day && ts.day
        <= days_in_month(ts.year, ts.month) && ts.hour <= 23 && ts.minute <= 59 && ts.second <= 59
}

/// Whether the year is a leap year.
pub fn is_leap_year(y: u64) -> (b: bool)
    ensures
        b == spec_is_leap_year(y as nat),
{
    y % 4 == 0 && (y % 100 != 0 || y % 400 == 0)
}

/// Days in the given month of the given year.
pub fn days_in_month(y: u64, m: u64) -> (r: u64)
    ensures
        r == spec_days_in_month(y as nat, m as nat),
{
    if m == 2 {
        if is_leap_year(y) {
            29
        } else {
            28
        }
    } else if m == 4 || m == 6 || m == 9 || m == 11 {
        30
    } else {
        31
    }
}

/// The timestamp whose fields are read off the digit characters at the
/// fixed positions of a 19-character rendering.
pub open spec fn ts_of_chars(s: Seq<char>) -> Timestamp {
    Timestamp {
        year: (char_digit(s[0]) * 1000 + char_digit(s[1]) * 100 + char_digit(s[2]) * 10
            + char_digit(s[3])) as u64,
        month: (char_digit(s[5]) * 10 + char_digit(s[6])) as u64,
        day: (char_digit(s[8]) * 10 + char_digit(s[9])) as u64,
        hour: (char_digit(s[11]) * 10 + char_digit(s[12])) as u64,
        minute: (char_digit(s[14]) * 10 + char_digit(s[15])) as u64,
        second: (char_digit(s[17]) * 10 + char_digit(s[18])) as u64,
    }
}

/// Whether a text has the exact shape of a rendered valid timestamp:
/// 19 characters, the fixed separators, digits everywhere else, and fields
/// in calendar range.
pub open spec fn spec_scan_ok(s: Seq<char>) -> bool {
    &&& s.len() == 19
    &&& s[4] == '-' && s[7] == '-' && s[10] == ' ' && s[13] == ':' && s[16] == ':'
    &&& forall|i: int|
        0 <= i < 19 && i != 4 && i != 7 && i != 10 && i != 13 && i != 16 ==> char_digit(
            #[trigger] s[i],
        ) < 10
    &&& ts_valid(ts_of_chars(s))
}

proof fn lemma_digit_char_of_char_digit(c: char)
    requires
        char_digit(c) < 10,
    ensures
        digit_char(char_digit(c)) == c,
{
}

/// A text of the right shape is exactly the rendering of the timestamp
/// read off its characters.
#[verifier::rlimit(60)]
proof fn lemma_scan_renders(s: Seq<char>)
    requires
        spec_scan_ok(s),
    ensures
        ts_valid(ts_of_chars(s)),
        spec_render_ts(ts_of_chars(s)) == s,
{
    let tc = ts_of_chars(s);
    lemma_render_shape(tc);
    assert forall|i: int|
        0 <= i < 19 && i != 4 && i != 7 && i != 10 && i != 13 && i != 16 implies digit_char(
        char_digit(#[trigger] s[i]),
    ) == s[i] by {
        lemma_digit_char_of_char_digit(s[i]);
    };
    let a = char_digit(s[0]);
    let b = char_digit(s[1]);
    let c = char_digit(s[2]);
    let d = char_digit(s[3]);
    assert(tc.year == a * 1000 + b * 100 + c * 10 + d);
    lemma_four_digits_of(a, b, c, d);
    lemma_two_digits_of(char_digit(s[5]), char_digit(s[6]));
    lemma_two_digits_of(char_digit(s[8]), char_digit(s[9]));
    lemma_two_digits_of(char_digit(s[11]), char_digit(s[12]));
    lemma_two_digits_of(char_digit(s[14]), char_digit(s[15]));
    lemma_two_digits_of(char_digit(s[17]), char_digit(s[18]));
    assert(spec_render_ts(tc) =~= s);
}

/// Round trip: a valid timestamp, rendered and parsed back, is itself —
/// the rendering determines every field, so no other timestamp shares it.
pub proof fn lemma_parse_of_render(ts: Timestamp)
    requires
        ts_valid(ts),
    ensures
        spec_parse_ts(spec_render_ts(ts)) == Some(ts),
{
    let s = spec_render_ts(ts);
    assert(ts_valid(ts) && spec_render_ts(ts) == s);
    let w = choose|w: Timestamp| ts_valid(w) && spec_render_ts(w) == s;
    lemma_render_determines(w, s);
    lemma_render_determines(ts, s);
    assert(w == ts);
}

/// Parses `YYYY-MM-DD HH:MM:SS`; yields the timestamp exactly when the text
/// is the rendering of a valid timestamp, and nothing otherwise.
pub fn parse_timestamp(s: &str) -> (r: Option<Timestamp>)
    ensures
        r == spec_parse_ts(s@),
{
    let r = scan_timestamp(s);
    proof {
        if spec_scan_ok(s@) {
            lemma_scan_renders(s@);
            assert(ts_valid(ts_of_chars(s@)) && spec_render_ts(ts_of_chars(s@)) == s@);
            let w = choose|w: Timestamp| ts_valid(w) && spec_render_ts(w) == s@;
            lemma_render_determines(w, s@);
            assert(w == ts_of_chars(s@));
        } else {
            if exists|ts: Timestamp| ts_valid(ts) && spec_render_ts(ts) == s@ {
                let w = choose|w: Timestamp| ts_valid(w) && spec_render_ts(w) == s@;
                lemma_render_determines(w, s@);
                assert(ts_of_chars(s@) == w);
                assert(spec_scan_ok(s@));
            }
        }
    }
    r
}

/// Checks the fixed 19-character shape and reads the fields off it.
#[verifier::rlimit(60)]
fn scan_timestamp(s: &str) -> (r: Option<Timestamp>)
    ensures
        spec_scan_ok(s@) ==> r == Some(ts_of_chars(s@)),
        !spec_scan_ok(s@) ==> r is None,
{
    if s.unicode_len() != 19 {
        return None;
    }
    if !(s.get_char(4) == '-' && s.get_char(7) == '-' && s.get_char(10) == ' ' && s.get_char(13)
        == ':' && s.get_char(16) == ':') {
        return None;
    }
    let d0 = match char_to_digit(s.get_char(0)) {
        Some(d) => d,
        None => {
            return None;
        },
    };
    let d1 = match char_to_digit(s.get_char(1)) {
        Some(d) => d,
        None => {
            return None;
        },
    };
    let d2 = match char_to_digit(s.get_char(2)) {
        Some(d) => d,
        None => {
            return None;
        },
    };
    let d3 = match char_to_digit(s.get_char(3)) {
        Some(d) => d,
        None => {
            return None;
        },
    };
    let d5 = match char_to_digit(s.get_char(5)) {
        Some(d) => d,
        None => {
            return None;
        },
    };
    let d6 = match char_to_digit(s.get_char(6)) {
        Some(d) => d,
        None => {
            return None;
        },
    };
    let d8 = match char_to_digit(s.get_char(8)) {
        Some(d) => d,
        None => {
            return None;
        },
    };
    let d9 = match char_to_digit(s.get_char(9)) {
        Some(d) => d,
        None => {
            return None;
        },
    };
    let d11 = match char_to_digit(s.get_char(11)) {
        Some(d) => d,
        None => {
            return None;
        },
    };
    let d12 = match char_to_digit(s.get_char(12)) {
        Some(d) => d,
        None => {
            return None;
        },
    };
    let d14 = match char_to_digit(s.get_char(14)) {
        Some(d) => d,
        None => {
            return None;
        },
    };
    let d15 = match char_to_digit(s.get_char(15)) {
        Some(d) => d,
        None => {
            return None;
        },
    };
    let d17 = match char_to_digit(s.get_char(17)) {
        Some(d) => d,
        None => {
            return None;
        },
    };
    let d18 = match char_to_digit(s.get_char(18)) {
        Some(d) => d,
        None => {
            return None;
        },
    };
    let ts = Timestamp {
        year: d0 * 1000 + d1 * 100 + d2 * 10 + d3,
        month: d5 * 10 + d6,
        day: d8 * 10 + d9,
        hour: d11 * 10 + d12,
        minute: d14 * 10 + d15,
        second: d17 * 10 + d18,
    };
    proof {
        assert(ts == ts_of_chars(s@));
    }
    if !(1 <= ts.year && 1 <= ts.month && ts.month <= 12 && 1 <= ts.day && ts.day <= days_in_month(
        ts.year,
        ts.month,
    ) && ts.hour <= 23 && ts.minute <= 59 && ts.second <= 59) {
        return None;
    }
    proof {
        assert(ts_valid(ts_of_chars(s@)));
        assert forall|i: int|
            0 <= i < 19 && i != 4 && i != 7 && i != 10 && i != 13 && i != 16 implies char_digit(
            #[trigger] s@[i],
        ) < 10 by {}
        assert(spec_scan_ok(s@));
    }
    Some(ts)
}

/// Seconds between a valid timestamp and the civil epoch `0001-01-01
/// 00:00:00` of its own calendar: whole days via the Gregorian day count,
/// plus the time of day. Later timestamps map to larger values, so the
/// retention policy compares these.
pub open spec fn spec_ts_seconds(ts: Timestamp) -> int {
    spec_days_from_civil(ts.year as int, ts.month as int, ts.day as int) * 86400 + ts.hour * 3600
        + ts.minute * 60 + ts.second
}

/// Days from `0000-03-01` to the given civil date, era by era: each
/// 400-year era holds 146097 days; within it, a year holds 365 days plus
/// the leap days its position earns; within the March-first year, a month
/// starts `(153 m' + 2) / 5` days in, counting months from March.
pub open spec fn spec_days_from_civil(y: int, m: int, d: int) -> int {
    let yy = if m <= 2 {
        y - 1
    } else {
        y
    };
    let era = yy / 400;
    let yoe = yy % 400;
    let mp = if m > 2 {
        m - 3
    } else {
        m + 9
    };
    let doy = (153 * mp + 2) / 5 + d - 1;
    let doe = yoe * 365 + yoe / 4 - yoe / 100 + doy;
    era * 146097 + doe
}

/// The second count of a valid timestamp; bounded well under `2^40`.
pub fn ts_seconds(ts: &Timestamp) -> (r: u64)
    requires
        ts_valid(*ts),
    ensures
        r == spec_ts_seconds(*ts),
        r < 400_000_000_000,
{
    let yy: u64 = if ts.month <= 2 {
        ts.year - 1
    } else {
        ts.year
    };
    let era: u64 = yy / 400;
    let yoe: u64 = yy % 400;
    let mp: u64 = if ts.month > 2 {
        ts.month - 3
    } else {
        ts.month + 9
    };
    let doy: u64 = (153 * mp + 2) / 5 + ts.day - 1;
    let doe: u64 = yoe * 365 + yoe / 4 - yoe / 100 + doy;
    let days: u64 = era * 146097 + doe;
    days * 86400 + ts.hour * 3600 + ts.minute * 60 + ts.second
}

} // verus!
