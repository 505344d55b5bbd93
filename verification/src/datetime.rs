//! Calendar timestamps for front-matter dates: a verified parser for the
//! YAML-style datetime grammar (`YYYY-MM-DD`, optionally a time, fraction
//! and UTC offset), calendar validation, a comparable epoch value and
//! RFC 3339 formatting.
use vstd::prelude::*;

use crate::errors::Error;
use crate::strtools::{
    chars_of, dec_chars, digit_val, digits_val, is_digit, is_digit_char, parse_digits, pow10,
    string_from_chars, u64_dec_chars, vec_extend,
};

verus! {

/// A parsed calendar timestamp: wall-clock fields plus a UTC offset.
#[derive(Clone, Copy, Debug, PartialEq, Eq, Structural)]
pub struct DateTime {
    pub year: u32,
    pub month: u8,
    pub day: u8,
    pub hour: u8,
    pub minute: u8,
    pub second: u8,
    pub nanosecond: u32,
    /// Offset from UTC in minutes, negative west of Greenwich.
    pub offset_minutes: i32,
}

/// A year with a 29-day February.
pub open spec fn is_leap_year(y: int) -> bool {
    y % 4 == 0 && (y % 100 != 0 || y % 400 == 0)
}

/// Days in a month of the proleptic Gregorian calendar.
pub open spec fn days_in_month(y: int, m: int) -> int {
    if m == 2 {
        if is_leap_year(y) {
            29
        } else {
            28
        }
    } else if m == 4 || m == 6 || m == 9 || m == 11 {
        30
    } else {
        31
    }
}

impl DateTime {
    /// Every field within its calendar range.
    pub open spec fn wf(self) -> bool {
        self.year <= 9999 && 1 <= self.month <= 12 && 1 <= self.day && self.day as int
            <= days_in_month(self.year as int, self.month as int) && self.hour <= 23 && self.minute
            <= 59 && self.second <= 59 && self.nanosecond < 1000000000 && -1439
            <= self.offset_minutes <= 1439
    }
}

// ---------------------------------------------------------------------------
// The grammar, as a specification
// ---------------------------------------------------------------------------

/// Length of the digit run starting at `i`.
pub open spec fn digit_run(s: Seq<char>, i: int) -> int
    decreases s.len() - i,
{
    if i < 0 || i >= s.len() || !is_digit(s[i]) {
        0
    } else {
        1 + digit_run(s, i + 1)
    }
}

/// Length of the space-or-tab run starting at `i`.
pub open spec fn st_run(s: Seq<char>, i: int) -> int
    decreases s.len() - i,
{
    if i < 0 || i >= s.len() || !(s[i] == ' ' || s[i] == '\t') {
        0
    } else {
        1 + st_run(s, i + 1)
    }
}

/// The text with one optional leading and one optional trailing quote
/// removed.
pub open spec fn strip_quotes(s: Seq<char>) -> Seq<char> {
    let t = if s.len() > 0 && s[0] == '"' {
        s.skip(1)
    } else {
        s
    };
    if t.len() > 0 && t[t.len() - 1] == '"' {
        t.take(t.len() - 1)
    } else {
        t
    }
}

/// Value of the digit run `s[i..i+n]`.
pub open spec fn run_val(s: Seq<char>, i: int, n: int) -> int {
    digits_val(s.subrange(i, i + n))
}

/// The time-of-day and offset part starting at `i`, given the date fields.
/// `None` when the text from `i` on does not match the grammar or a field is
/// out of range.
pub open spec fn spec_parse_time(s: Seq<char>, i: int, year: int, month: int, day: int) -> Option<
    DateTime,
> {
    // separator: 'T', 't', or one or more spaces/tabs
    let sep: int = if i < s.len() && (s[i] == 'T' || s[i] == 't') {
        1
    } else {
        st_run(s, i)
    };
    if sep == 0 {
        None
    } else {
        let hi = i + sep;
        let hl = digit_run(s, hi);
        if !(1 <= hl <= 2 && hi + hl < s.len() && s[hi + hl] == ':') {
            None
        } else {
            let mi = hi + hl + 1;
            if !(digit_run(s, mi) == 2 && mi + 2 < s.len() && s[mi + 2] == ':') {
                None
            } else {
                let si = mi + 3;
                if digit_run(s, si) != 2 {
                    None
                } else {
                    let fi = si + 2;
                    let fl = if fi < s.len() && s[fi] == '.' {
                        digit_run(s, fi + 1)
                    } else {
                        -1
                    };
                    if fl > 9 {
                        None
                    } else {
                        let zi = if fl >= 0 {
                            fi + 1 + fl
                        } else {
                            fi
                        };
                        let oi = zi + st_run(s, zi);
                        let nanos = if fl >= 1 {
                            run_val(s, fi + 1, fl) * pow10((9 - fl) as nat)
                        } else {
                            0
                        };
                        spec_parse_offset(s, oi, year, month, day, run_val(s, hi, hl), run_val(
                            s,
                            mi,
                            2,
                        ), run_val(s, si, 2), nanos)
                    }
                }
            }
        }
    }
}

/// The optional UTC-offset part at `i` (`Z`, or sign, hours and optional
/// minutes), then the end of the text.
pub open spec fn spec_parse_offset(
    s: Seq<char>,
    i: int,
    year: int,
    month: int,
    day: int,
    hour: int,
    minute: int,
    second: int,
    nanos: int,
) -> Option<DateTime> {
    if i == s.len() {
        build_datetime(year, month, day, hour, minute, second, nanos, 0)
    } else if s[i] == 'Z' && i + 1 == s.len() {
        build_datetime(year, month, day, hour, minute, second, nanos, 0)
    } else if s[i] == '+' || s[i] == '-' {
        let hl = digit_run(s, i + 1);
        if !(1 <= hl <= 2) {
            None
        } else {
            let oh = run_val(s, i + 1, hl);
            let mi = i + 1 + hl;
            let om: int = if mi == s.len() {
                0
            } else if mi + 3 == s.len() && s[mi] == ':' && digit_run(s, mi + 1) == 2 {
                run_val(s, mi + 1, 2)
            } else {
                -1
            };
            if om < 0 || oh > 23 || om > 59 {
                None
            } else {
                let total = if s[i] == '-' {
                    -(oh * 60 + om)
                } else {
                    oh * 60 + om
                };
                build_datetime(year, month, day, hour, minute, second, nanos, total)
            }
        }
    } else {
        None
    }
}

/// The fields assembled, `None` when one is out of its calendar range.
pub open spec fn build_datetime(
    year: int,
    month: int,
    day: int,
    hour: int,
    minute: int,
    second: int,
    nanos: int,
    offset_minutes: int,
) -> Option<DateTime> {
    if 0 <= year <= 9999 && 1 <= month <= 12 && 1 <= day <= days_in_month(year, month) && 0 <= hour
        <= 23 && 0 <= minute <= 59 && 0 <= second <= 59 && 0 <= nanos < 1000000000 && -1439
        <= offset_minutes <= 1439 {
        Some(
            DateTime {
                year: year as u32,
                month: month as u8,
                day: day as u8,
                hour: hour as u8,
                minute: minute as u8,
                second: second as u8,
                nanosecond: nanos as u32,
                offset_minutes: offset_minutes as i32,
            },
        )
    } else {
        None
    }
}

/// The whole grammar: a four-digit year, month and day with `-` between,
/// then optionally a time of day, fraction and offset.
pub open spec fn spec_parse_datetime(raw: Seq<char>) -> Option<DateTime> {
    let s = strip_quotes(raw);
    if !(digit_run(s, 0) == 4 && 4 < s.len() && s[4] == '-') {
        None
    } else {
        let ml = digit_run(s, 5);
        if !(1 <= ml <= 2 && 5 + ml < s.len() && s[5 + ml] == '-') {
            None
        } else {
            let di = 5 + ml + 1;
            let dl = digit_run(s, di);
            if !(1 <= dl <= 2) {
                None
            } else {
                let year = run_val(s, 0, 4);
                let month = run_val(s, 5, ml);
                let day = run_val(s, di, dl);
                if di + dl == s.len() {
                    build_datetime(year, month, day, 0, 0, 0, 0, 0)
                } else {
                    spec_parse_time(s, di + dl, year, month, day)
                }
            }
        }
    }
}

// ---------------------------------------------------------------------------
// The executable parser
// ---------------------------------------------------------------------------

/// Executable digit-run length.
fn run_of_digits(s: &Vec<char>, i: usize) -> (r: usize)
    requires
        i <= s@.len(),
    ensures
        r as int == digit_run(s@, i as int),
        i + r <= s@.len(),
{
    let mut j: usize = i;
    while j < s.len() && is_digit_char(s[j])
        invariant
            i <= j <= s@.len(),
            digit_run(s@, i as int) == (j - i) + digit_run(s@, j as int),
        decreases s@.len() - j,
    {
        j = j + 1;
    }
    j - i
}

/// Executable space-or-tab-run length.
fn run_of_st(s: &Vec<char>, i: usize) -> (r: usize)
    requires
        i <= s@.len(),
    ensures
        r as int == st_run(s@, i as int),
        i + r <= s@.len(),
{
    let mut j: usize = i;
    while j < s.len() && (s[j] == ' ' || s[j] == '\t')
        invariant
            i <= j <= s@.len(),
            st_run(s@, i as int) == (j - i) + st_run(s@, j as int),
        decreases s@.len() - j,
    {
        j = j + 1;
    }
    j - i
}

/// Digit run bounded by nine digits has a value below ten to its length.
proof fn lemma_digits_val_upper(s: Seq<char>)
    requires
        forall|j: int| 0 <= j < s.len() ==> is_digit(s[j]),
    ensures
        0 <= digits_val(s) < pow10(s.len() as nat),
    decreases s.len(),
{
    if s.len() == 0 {
    } else {
        lemma_digits_val_upper(s.take(s.len() - 1));
    }
}

proof fn lemma_pow10_vals()
    ensures
        pow10(0) == 1,
        pow10(1) == 10,
        pow10(2) == 100,
        pow10(3) == 1000,
        pow10(4) == 10000,
        pow10(5) == 100000,
        pow10(6) == 1000000,
        pow10(7) == 10000000,
        pow10(8) == 100000000,
        pow10(9) == 1000000000,
{
    reveal_with_fuel(pow10, 11);
}

/// Executable power of ten for the fraction scale.
fn pow10_u32(n: u32) -> (r: u32)
    requires
        n <= 9,
    ensures
        r as int == pow10(n as nat),
    decreases n,
{
    proof {
        lemma_pow10_vals();
    }
    if n == 0 {
        1
    } else {
        let p = pow10_u32(n - 1);
        proof {
            lemma_pow10_vals();
            crate::strtools::lemma_pow10_le9(n as nat);
        }
        10 * p
    }
}

/// Parses the YAML-style datetime grammar; the result is exactly what the
/// grammar specification yields, and a parse failure is a schema error.
pub fn parse_yaml_datetime(date_string: &str) -> (r: Result<DateTime, Error>)
    ensures
        match r {
            Ok(dt) => spec_parse_datetime(date_string@) == Some(dt) && dt.wf(),
            Err(e) => spec_parse_datetime(date_string@) is None && e is Schema,
        },
{
    let raw = chars_of(date_string);
    // strip one optional quote on each side
    let t0: usize = if raw.len() > 0 && raw[0] == '"' {
        1
    } else {
        0
    };
    let t1: usize = if raw.len() > t0 && raw[raw.len() - 1] == '"' {
        raw.len() - 1
    } else {
        raw.len()
    };
    let s = crate::strtools::subvec(&raw, t0, t1);
    proof {
        assert(s@ =~= strip_quotes(date_string@));
    }
    let yl = run_of_digits(&s, 0);
    if !(yl == 4 && 4 < s.len() && s[4] == '-') {
        return Err(Error::Schema("invalid datetime: expected a 4-digit year".to_owned()));
    }
    let ml = run_of_digits(&s, 5);
    if !(1 <= ml && ml <= 2 && 5 + ml < s.len() && s[5 + ml] == '-') {
        return Err(Error::Schema("invalid datetime: expected a month".to_owned()));
    }
    let di: usize = 5 + ml + 1;
    let dl = run_of_digits(&s, di);
    if !(1 <= dl && dl <= 2) {
        return Err(Error::Schema("invalid datetime: expected a day".to_owned()));
    }
    proof {
        lemma_run_is_digits(s@, 0, 4);
        lemma_run_is_digits(s@, 5, ml as int);
        lemma_run_is_digits(s@, di as int, dl as int);
    }
    let year = parse_digits(&s, 0, 4);
    let month = parse_digits(&s, 5, 5 + ml);
    let day = parse_digits(&s, di, di + dl);
    if di + dl == s.len() {
        return finish(year, month, day, 0, 0, 0, 0, 0);
    }
    parse_time_part(&s, di + dl, year, month, day)
}

/// The time-of-day and offset part, from the separator on.
fn parse_time_part(s: &Vec<char>, ti: usize, year: u64, month: u64, day: u64) -> (r: Result<
    DateTime,
    Error,
>)
    requires
        ti < s@.len(),
        s@.len() <= usize::MAX,
    ensures
        match r {
            Ok(dt) => spec_parse_time(s@, ti as int, year as int, month as int, day as int)
                == Some(dt) && dt.wf(),
            Err(e) => spec_parse_time(s@, ti as int, year as int, month as int, day as int)
                is None && e is Schema,
        },
{
    let sep: usize = if s[ti] == 'T' || s[ti] == 't' {
        1
    } else {
        run_of_st(s, ti)
    };
    if sep == 0 {
        return Err(Error::Schema("invalid datetime: expected a time".to_owned()));
    }
    let hi: usize = ti + sep;
    let hl = run_of_digits(s, hi);
    if !(1 <= hl && hl <= 2 && hi + hl < s.len() && s[hi + hl] == ':') {
        return Err(Error::Schema("invalid datetime: expected an hour".to_owned()));
    }
    let mi: usize = hi + hl + 1;
    let minl = run_of_digits(s, mi);
    if !(minl == 2 && mi + 2 < s.len() && s[mi + 2] == ':') {
        return Err(Error::Schema("invalid datetime: expected minutes".to_owned()));
    }
    let si: usize = mi + 3;
    let sl = run_of_digits(s, si);
    if sl != 2 {
        return Err(Error::Schema("invalid datetime: expected seconds".to_owned()));
    }
    let fi: usize = si + 2;
    let has_frac = fi < s.len() && s[fi] == '.';
    let fl: usize = if has_frac {
        run_of_digits(s, fi + 1)
    } else {
        0
    };
    if has_frac && fl > 9 {
        return Err(Error::Schema("invalid datetime: fraction too long".to_owned()));
    }
    let zi: usize = if has_frac {
        fi + 1 + fl
    } else {
        fi
    };
    let nanos: u64 = if has_frac && fl >= 1 {
        proof {
            lemma_run_is_digits(s@, fi + 1, fl as int);
        }
        let fv = parse_digits(s, fi + 1, fi + 1 + fl);
        let scale = pow10_u32(9 - (fl as u32));
        proof {
            crate::strtools::lemma_pow10_le9((9 - fl) as nat);
            vstd::arithmetic::mul::lemma_mul_upper_bound(
                fv as int,
                999999999,
                scale as int,
                1000000000,
            );
        }
        fv * (scale as u64)
    } else {
        0
    };
    proof {
        lemma_run_is_digits(s@, hi as int, hl as int);
        lemma_run_is_digits(s@, mi as int, 2);
        lemma_run_is_digits(s@, si as int, 2);
    }
    let hour = parse_digits(s, hi, hi + hl);
    let minute = parse_digits(s, mi, mi + 2);
    let second = parse_digits(s, si, si + 2);
    let oi: usize = zi + run_of_st(s, zi);
    parse_offset_part(s, oi, year, month, day, hour, minute, second, nanos)
}

/// The optional UTC-offset part, then the end of the text.
fn parse_offset_part(
    s: &Vec<char>,
    oi: usize,
    year: u64,
    month: u64,
    day: u64,
    hour: u64,
    minute: u64,
    second: u64,
    nanos: u64,
) -> (r: Result<DateTime, Error>)
    requires
        oi <= s@.len(),
        s@.len() <= usize::MAX,
    ensures
        match r {
            Ok(dt) => spec_parse_offset(
                s@,
                oi as int,
                year as int,
                month as int,
                day as int,
                hour as int,
                minute as int,
                second as int,
                nanos as int,
            ) == Some(dt) && dt.wf(),
            Err(e) => spec_parse_offset(
                s@,
                oi as int,
                year as int,
                month as int,
                day as int,
                hour as int,
                minute as int,
                second as int,
                nanos as int,
            ) is None && e is Schema,
        },
{
    if oi == s.len() {
        return finish(year, month, day, hour, minute, second, nanos, 0);
    }
    if s[oi] == 'Z' && oi + 1 == s.len() {
        return finish(year, month, day, hour, minute, second, nanos, 0);
    }
    if s[oi] == '+' || s[oi] == '-' {
        let ohl = run_of_digits(s, oi + 1);
        if !(1 <= ohl && ohl <= 2) {
            return Err(Error::Schema("invalid datetime: bad offset".to_owned()));
        }
        proof {
            lemma_run_is_digits(s@, oi + 1, ohl as int);
        }
        let oh = parse_digits(s, oi + 1, oi + 1 + ohl);
        let omi: usize = oi + 1 + ohl;
        let om: u64 = if omi == s.len() {
            0
        } else if s.len() >= 3 && omi == s.len() - 3 && s[omi] == ':' && run_of_digits(s, omi + 1)
            == 2 {
            proof {
                lemma_run_is_digits(s@, omi + 1, 2);
            }
            let v = parse_digits(s, omi + 1, omi + 3);
            v
        } else {
            return Err(Error::Schema("invalid datetime: bad offset minutes".to_owned()));
        };
        if oh > 23 || om > 59 {
            return Err(Error::Schema("invalid datetime: offset out of range".to_owned()));
        }
        let total: i64 = if s[oi] == '-' {
            -((oh * 60 + om) as i64)
        } else {
            (oh * 60 + om) as i64
        };
        return finish(year, month, day, hour, minute, second, nanos, total);
    }
    Err(Error::Schema("invalid datetime: unexpected trailing text".to_owned()))
}

/// Characters inside a digit run are digits.
proof fn lemma_run_is_digits(s: Seq<char>, i: int, n: int)
    requires
        0 <= i,
        0 <= n,
        i + n <= s.len(),
        digit_run(s, i) >= n,
    ensures
        forall|j: int| 0 <= j < n ==> is_digit(#[trigger] s.subrange(i, i + n)[j]),
    decreases n,
{
    if n > 0 {
        assert(is_digit(s[i]));
        lemma_run_is_digits(s, i + 1, n - 1);
        assert forall|j: int| 0 <= j < n implies is_digit(#[trigger] s.subrange(i, i + n)[j]) by {
            if j > 0 {
                assert(s.subrange(i + 1, i + n)[j - 1] == s.subrange(i, i + n)[j]);
            }
        }
    }
}

/// Range-checks the fields and builds the value, mirroring the grammar's
/// final step exactly.
fn finish(
    year: u64,
    month: u64,
    day: u64,
    hour: u64,
    minute: u64,
    second: u64,
    nanos: u64,
    offset_minutes: i64,
) -> (r: Result<DateTime, Error>)
    ensures
        match r {
            Ok(dt) => build_datetime(
                year as int,
                month as int,
                day as int,
                hour as int,
                minute as int,
                second as int,
                nanos as int,
                offset_minutes as int,
            ) == Some(dt) && dt.wf(),
            Err(e) => build_datetime(
                year as int,
                month as int,
                day as int,
                hour as int,
                minute as int,
                second as int,
                nanos as int,
                offset_minutes as int,
            ) is None && e is Schema,
        },
{
    if !(year <= 9999 && 1 <= month && month <= 12) {
        return Err(Error::Schema("invalid datetime: no such month".to_owned()));
    }
    let dim = exec_days_in_month(year as u32, month as u8);
    if !(1 <= day && day <= dim as u64) {
        return Err(Error::Schema("invalid datetime: no such day".to_owned()));
    }
    if !(hour <= 23 && minute <= 59 && second <= 59 && nanos < 1000000000) {
        return Err(Error::Schema("invalid datetime: time out of range".to_owned()));
    }
    if !(-1439 <= offset_minutes && offset_minutes <= 1439) {
        return Err(Error::Schema("invalid datetime: offset out of range".to_owned()));
    }
    Ok(
        DateTime {
            year: year as u32,
            month: month as u8,
            day: day as u8,
            hour: hour as u8,
            minute: minute as u8,
            second: second as u8,
            nanosecond: nanos as u32,
            offset_minutes: offset_minutes as i32,
        },
    )
}

/// Executable days-in-month.
pub fn exec_days_in_month(y: u32, m: u8) -> (r: u8)
    ensures
        r as int == days_in_month(y as int, m as int),
{
    if m == 2 {
        if (y % 4 == 0 && y % 100 != 0) || y % 400 == 0 {
            29
        } else {
            28
        }
    } else if m == 4 || m == 6 || m == 9 || m == 11 {
        30
    } else {
        31
    }
}

// ---------------------------------------------------------------------------
// Comparable epoch value
// ---------------------------------------------------------------------------

/// Days from the civil epoch for the shifted year, months counted from
/// March so leap days land at the end.
pub open spec fn spec_days_from_civil(y: int, m: int, d: int) -> int {
    // shift by 400 years to keep every intermediate value nonnegative
    let ys = if m <= 2 {
        y + 400 - 1
    } else {
        y + 400
    };
    let era = ys / 400;
    let yoe = ys % 400;
    let mp = if m > 2 {
        m - 3
    } else {
        m + 9
    };
    let doy = (153 * mp + 2) / 5 + d - 1;
    let doe = yoe * 365 + yoe / 4 - yoe / 100 + doy;
    era * 146097 + doe - 719468 - 146097
}

/// Seconds since the Unix epoch, the UTC offset applied.
pub open spec fn spec_epoch_seconds(dt: DateTime) -> int {
    spec_days_from_civil(dt.year as int, dt.month as int, dt.day as int) * 86400 + dt.hour as int
        * 3600 + dt.minute as int * 60 + dt.second as int - dt.offset_minutes as int * 60
}

impl DateTime {
    /// The comparable instant of this timestamp, in whole seconds.
    pub fn epoch_seconds(&self) -> (r: i64)
        requires
            self.wf(),
        ensures
            r as int == spec_epoch_seconds(*self),
    {
        let y: i64 = self.year as i64;
        let m: i64 = self.month as i64;
        let d: i64 = self.day as i64;
        let ys: i64 = if m <= 2 {
            y + 399
        } else {
            y + 400
        };
        let era: i64 = ys / 400;
        let yoe: i64 = ys % 400;
        let mp: i64 = if m > 2 {
            m - 3
        } else {
            m + 9
        };
        let doy: i64 = (153 * mp + 2) / 5 + d - 1;
        let doe: i64 = yoe * 365 + yoe / 4 - yoe / 100 + doy;
        let days: i64 = era * 146097 + doe - 719468 - 146097;
        days * 86400 + (self.hour as i64) * 3600 + (self.minute as i64) * 60 + (self.second as i64)
            - (self.offset_minutes as i64) * 60
    }

    /// Instants ordered: first by epoch seconds, then by the fraction.
    pub open spec fn spec_before(self, other: DateTime) -> bool {
        spec_epoch_seconds(self) < spec_epoch_seconds(other) || (spec_epoch_seconds(self)
            == spec_epoch_seconds(other) && self.nanosecond < other.nanosecond)
    }

    /// Strictly earlier than `other`.
    pub fn before(&self, other: &DateTime) -> (r: bool)
        requires
            self.wf(),
            other.wf(),
        ensures
            r == self.spec_before(*other),
    {
        let a = self.epoch_seconds();
        let b = other.epoch_seconds();
        a < b || (a == b && self.nanosecond < other.nanosecond)
    }
}

// ---------------------------------------------------------------------------
// RFC 3339 formatting
// ---------------------------------------------------------------------------

/// `n` in decimal, left-padded with zeros to `width`.
pub open spec fn padded_dec(n: nat, width: int) -> Seq<char> {
    let raw = dec_chars(n);
    if raw.len() >= width {
        raw
    } else {
        Seq::new((width - raw.len()) as nat, |i: int| '0') + raw
    }
}

fn push_padded(out: &mut Vec<char>, n: u64, width: usize) -> (u: ())
    requires
        width <= 9,
    ensures
        final(out)@ == old(out)@ + padded_dec(n as nat, width as int),
{
    let digits = u64_dec_chars(n);
    proof {
        assert(digits@.len() >= 1);
    }
    let mut pad: usize = 0;
    let mut zeros: Vec<char> = Vec::new();
    while digits.len() < width - pad
        invariant
            width <= 9,
            digits@.len() >= 1,
            zeros@.len() == pad,
            forall|j: int| 0 <= j < pad ==> zeros@[j] == '0',
            pad <= width,
            pad + digits@.len() <= width || pad == 0,
            digits@.len() >= width ==> pad == 0,
        decreases width - pad,
    {
        zeros.push('0');
        pad = pad + 1;
    }
    vec_extend(out, &zeros);
    vec_extend(out, &digits);
    proof {
        if digits@.len() >= width {
            assert(zeros@ =~= Seq::<char>::empty());
            assert(out@ =~= old(out)@ + padded_dec(n as nat, width as int));
        } else {
            assert(zeros@ =~= Seq::new((width - digits@.len()) as nat, |i: int| '0'));
            assert(out@ =~= old(out)@ + padded_dec(n as nat, width as int));
        }
    }
}

/// The date of a timestamp as RFC 3339 text.
pub open spec fn rfc3339_date(dt: DateTime) -> Seq<char> {
    padded_dec(dt.year as nat, 4) + seq!['-'] + padded_dec(dt.month as nat, 2) + seq!['-']
        + padded_dec(dt.day as nat, 2)
}

/// The time of day of a timestamp as RFC 3339 text.
pub open spec fn rfc3339_time(dt: DateTime) -> Seq<char> {
    padded_dec(dt.hour as nat, 2) + seq![':'] + padded_dec(dt.minute as nat, 2) + seq![':']
        + padded_dec(dt.second as nat, 2)
}

/// The fraction of a timestamp as RFC 3339 text: empty when it is zero.
pub open spec fn rfc3339_frac(dt: DateTime) -> Seq<char> {
    if dt.nanosecond > 0 {
        seq!['.'] + padded_dec(dt.nanosecond as nat, 9)
    } else {
        Seq::empty()
    }
}

/// The offset of a timestamp as RFC 3339 text: `Z`, or sign, hours and
/// minutes.
pub open spec fn rfc3339_off(dt: DateTime) -> Seq<char> {
    if dt.offset_minutes == 0 {
        seq!['Z']
    } else {
        let sign: Seq<char> = if dt.offset_minutes < 0 {
            seq!['-']
        } else {
            seq!['+']
        };
        let a: int = if dt.offset_minutes < 0 {
            -(dt.offset_minutes as int)
        } else {
            dt.offset_minutes as int
        };
        sign + padded_dec((a / 60) as nat, 2) + seq![':'] + padded_dec((a % 60) as nat, 2)
    }
}

/// The RFC 3339 text of a timestamp: date, `T`, time, the fraction when it
/// is not zero, and `Z` or the signed offset.
pub open spec fn spec_rfc3339(dt: DateTime) -> Seq<char> {
    rfc3339_date(dt) + seq!['T'] + rfc3339_time(dt) + rfc3339_frac(dt) + rfc3339_off(dt)
}

fn push_rfc3339_date(out: &mut Vec<char>, dt: &DateTime) -> (u: ())
    requires
        dt.wf(),
    ensures
        final(out)@ == old(out)@ + rfc3339_date(*dt),
{
    push_padded(out, dt.year as u64, 4);
    out.push('-');
    push_padded(out, dt.month as u64, 2);
    out.push('-');
    push_padded(out, dt.day as u64, 2);
    proof {
        assert(out@ =~= old(out)@ + rfc3339_date(*dt));
    }
}

fn push_rfc3339_time(out: &mut Vec<char>, dt: &DateTime) -> (u: ())
    requires
        dt.wf(),
    ensures
        final(out)@ == old(out)@ + rfc3339_time(*dt),
{
    push_padded(out, dt.hour as u64, 2);
    out.push(':');
    push_padded(out, dt.minute as u64, 2);
    out.push(':');
    push_padded(out, dt.second as u64, 2);
    proof {
        assert(out@ =~= old(out)@ + rfc3339_time(*dt));
    }
}

fn push_rfc3339_off(out: &mut Vec<char>, dt: &DateTime) -> (u: ())
    requires
        dt.wf(),
    ensures
        final(out)@ == old(out)@ + rfc3339_off(*dt),
{
    if dt.offset_minutes == 0 {
        out.push('Z');
        proof {
            assert(out@ =~= old(out)@ + rfc3339_off(*dt));
        }
    } else {
        let a: i64 = if dt.offset_minutes < 0 {
            out.push('-');
            -(dt.offset_minutes as i64)
        } else {
            out.push('+');
            dt.offset_minutes as i64
        };
        push_padded(out, (a / 60) as u64, 2);
        out.push(':');
        push_padded(out, (a % 60) as u64, 2);
        proof {
            assert(out@ =~= old(out)@ + rfc3339_off(*dt));
        }
    }
}

/// Formats a timestamp as RFC 3339 text.
pub fn format_rfc3339(dt: &DateTime) -> (r: String)
    requires
        dt.wf(),
    ensures
        r@ == spec_rfc3339(*dt),
{
    let mut out: Vec<char> = Vec::new();
    push_rfc3339_date(&mut out, dt);
    out.push('T');
    push_rfc3339_time(&mut out, dt);
    if dt.nanosecond > 0 {
        out.push('.');
        push_padded(&mut out, dt.nanosecond as u64, 9);
    }
    push_rfc3339_off(&mut out, dt);
    proof {
        assert(out@ =~= spec_rfc3339(*dt));
    }
    string_from_chars(&out)
}

/// Validates datetime text of unknown shape and returns it normalized to
/// RFC 3339, so later consumers can reparse it; rejects what the grammar
/// rejects.
pub fn from_unknown_datetime(s: &str) -> (r: Result<String, Error>)
    ensures
        match r {
            Ok(t) => spec_parse_datetime(s@) is Some && t@ == spec_rfc3339(
                spec_parse_datetime(s@)->Some_0,
            ),
            Err(e) => spec_parse_datetime(s@) is None && e is Schema,
        },
{
    match parse_yaml_datetime(s) {
        Ok(dt) => Ok(format_rfc3339(&dt)),
        Err(e) => Err(e),
    }
}

} // verus!
