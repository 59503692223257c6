//! Proleptic Gregorian calendar arithmetic on `YYYY-MM-DD` dates: validation,
//! conversion to and from a linear day number, ISO weekdays and ISO weeks.

use crate::error::CliError;
use crate::text::{
    decimal, digit_char, digit_value, is_digit, lex_lt, lex_lt_from, push_decimal, repeated,
    to_chars, zero_padded,
};
use vstd::prelude::*;

verus! {

/// The Gregorian leap-year rule.
pub open spec fn is_leap(y: int) -> bool {
    (y % 4 == 0 && y % 100 != 0) || y % 400 == 0
}

/// Number of days in month `m` of year `y`; 0 for a month outside `1..=12`.
pub open spec fn days_in_month(y: int, m: int) -> int {
    if m == 1 || m == 3 || m == 5 || m == 7 || m == 8 || m == 10 || m == 12 {
        31
    } else if m == 4 || m == 6 || m == 9 || m == 11 {
        30
    } else if m == 2 {
        if is_leap(y) {
            29
        } else {
            28
        }
    } else {
        0
    }
}

/// Whether `(y, m, d)` names a day of the calendar.
pub open spec fn valid_ymd(y: int, m: int, d: int) -> bool {
    1 <= m <= 12 && 1 <= d <= days_in_month(y, m)
}

/// Days between January 1 of year 0 and January 1 of year `y`, up to a
/// constant: 365 per year plus one per leap year before `y`.
pub open spec fn days_before_year(y: int) -> int {
    365 * y + (y - 1) / 4 - (y - 1) / 100 + (y - 1) / 400
}

/// Days of year `y` that lie before the first of month `m`.
pub open spec fn days_before_month(y: int, m: int) -> int
    decreases m,
{
    if m <= 1 {
        0
    } else {
        days_before_month(y, m - 1) + days_in_month(y, m - 1)
    }
}

/// The day number of `(y, m, d)`: days since 1970-01-01, negative before it.
pub open spec fn day_number(y: int, m: int, d: int) -> int {
    days_before_year(y) - days_before_year(1970) + days_before_month(y, m) + (d - 1)
}

/// The closed form of `days_before_month` for each month.
#[verifier::spinoff_prover]
pub proof fn lemma_days_before_month(y: int, m: int)
    requires
        1 <= m <= 13,
    ensures
        days_before_month(y, m) == (if m == 1 {
            0
        } else if m == 2 {
            31
        } else {
            let leap: int = if is_leap(y) {
                1
            } else {
                0
            };
            leap + (if m == 3 {
                59int
            } else if m == 4 {
                90
            } else if m == 5 {
                120
            } else if m == 6 {
                151
            } else if m == 7 {
                181
            } else if m == 8 {
                212
            } else if m == 9 {
                243
            } else if m == 10 {
                273
            } else if m == 11 {
                304
            } else if m == 12 {
                334
            } else {
                365
            })
        }),
{
    reveal_with_fuel(days_before_month, 14);
}

/// Counting the multiples of `d` up to `y`: one more than up to `y - 1`
/// where `y` is one, else as many.
#[verifier::spinoff_prover]
proof fn lemma_div_step(y: int, d: int)
    requires
        d > 0,
    ensures
        y / d - (y - 1) / d == (if y % d == 0 {
            1int
        } else {
            0
        }),
{
    let q = y / d;
    let r = y % d;
    vstd::arithmetic::div_mod::lemma_fundamental_div_mod(y, d);
    if r == 0 {
        assert(y - 1 == (q - 1) * d + (d - 1)) by (nonlinear_arith)
            requires
                y == d * q + r,
                r == 0,
        ;
        vstd::arithmetic::div_mod::lemma_fundamental_div_mod_converse(y - 1, d, q - 1, d - 1);
    } else {
        assert(y - 1 == q * d + (r - 1)) by (nonlinear_arith)
            requires
                y == d * q + r,
        ;
        vstd::arithmetic::div_mod::lemma_fundamental_div_mod_converse(y - 1, d, q, r - 1);
    }
}

/// A year has 365 or 366 days.
#[verifier::spinoff_prover]
pub proof fn lemma_year_length(y: int)
    ensures
        days_before_year(y + 1) - days_before_year(y) == 365 + (if is_leap(y) {
            1int
        } else {
            0
        }),
{
    lemma_div_step(y, 4);
    lemma_div_step(y, 100);
    lemma_div_step(y, 400);
    if y % 400 == 0 {
        vstd::arithmetic::div_mod::lemma_fundamental_div_mod(y, 400);
        vstd::arithmetic::div_mod::lemma_fundamental_div_mod_converse(y, 100, 4 * (y / 400), 0);
        vstd::arithmetic::div_mod::lemma_fundamental_div_mod_converse(y, 4, 100 * (y / 400), 0);
    }
    if y % 100 == 0 {
        vstd::arithmetic::div_mod::lemma_fundamental_div_mod(y, 100);
        vstd::arithmetic::div_mod::lemma_fundamental_div_mod_converse(y, 4, 25 * (y / 100), 0);
    }
}

/// Later years start later.
pub proof fn lemma_years_increase(y1: int, y2: int)
    requires
        y1 <= y2,
    ensures
        days_before_year(y1) + 365 * (y2 - y1) <= days_before_year(y2),
    decreases y2 - y1,
{
    if y1 < y2 {
        lemma_years_increase(y1, y2 - 1);
        lemma_year_length(y2 - 1);
    }
}

/// The day number grows strictly with the date.
#[verifier::spinoff_prover]
pub proof fn lemma_day_number_increases(y1: int, m1: int, d1: int, y2: int, m2: int, d2: int)
    requires
        valid_ymd(y1, m1, d1),
        valid_ymd(y2, m2, d2),
        y1 < y2 || (y1 == y2 && (m1 < m2 || (m1 == m2 && d1 < d2))),
    ensures
        day_number(y1, m1, d1) < day_number(y2, m2, d2),
{
    lemma_days_before_month(y1, m1);
    lemma_days_before_month(y1, m1 + 1);
    lemma_days_before_month(y2, m2);
    if y1 < y2 {
        lemma_days_before_month(y1, 13);
        lemma_year_length(y1);
        lemma_years_increase(y1 + 1, y2);
    } else if m1 < m2 {
    }
}

/// Distinct days of the calendar have distinct day numbers.
pub proof fn lemma_day_number_injective(y1: int, m1: int, d1: int, y2: int, m2: int, d2: int)
    requires
        valid_ymd(y1, m1, d1),
        valid_ymd(y2, m2, d2),
        day_number(y1, m1, d1) == day_number(y2, m2, d2),
    ensures
        y1 == y2 && m1 == m2 && d1 == d2,
{
    if y1 < y2 || (y1 == y2 && (m1 < m2 || (m1 == m2 && d1 < d2))) {
        lemma_day_number_increases(y1, m1, d1, y2, m2, d2);
    } else if y2 < y1 || (y1 == y2 && (m2 < m1 || (m1 == m2 && d2 < d1))) {
        lemma_day_number_increases(y2, m2, d2, y1, m1, d1);
    }
}


/// The start of year `yy + 1` in era form: 400-year eras of 146097 days.
#[verifier::spinoff_prover]
pub proof fn lemma_year_start_era_form(yy: int)
    ensures
        ({
            let era = yy / 400;
            let yoe = yy - era * 400;
            &&& 0 <= yoe < 400
            &&& days_before_year(yy + 1) == era * 146097 + yoe * 365 + yoe / 4 - yoe / 100 + 365
        }),
{
    let era = yy / 400;
    let yoe = yy - era * 400;
    vstd::arithmetic::div_mod::lemma_fundamental_div_mod_converse(
        yy,
        4,
        100 * era + yoe / 4,
        yoe % 4,
    );
    vstd::arithmetic::div_mod::lemma_fundamental_div_mod_converse(
        yy,
        100,
        4 * era + yoe / 100,
        yoe % 100,
    );
}

/// The era form of the day number: years counted from March 1.
#[verifier::spinoff_prover]
pub proof fn lemma_era_form(y: int, m: int, d: int)
    requires
        1 <= m <= 12,
    ensures
        ({
            let yy = if m <= 2 {
                y - 1
            } else {
                y
            };
            let era = yy / 400;
            let yoe = yy - era * 400;
            let mp = if m > 2 {
                m - 3
            } else {
                m + 9
            };
            let doy = (153 * mp + 2) / 5 + d - 1;
            let doe = yoe * 365 + yoe / 4 - yoe / 100 + doy;
            era * 146097 + doe - 719468 == day_number(y, m, d)
        }),
{
    lemma_days_before_month(y, m);
    let yy = if m <= 2 {
        y - 1
    } else {
        y
    };
    lemma_year_start_era_form(yy);
    if m > 2 {
        lemma_year_length(y);
    }
}

/// The year of the era found from the day of the era, and the day of that
/// year, counted from March 1.
#[verifier::spinoff_prover]
#[verifier::rlimit(60)]
pub proof fn lemma_year_of_era(doe: int)
    requires
        0 <= doe <= 146096,
    ensures
        ({
            let yoe = (doe - doe / 1460 + doe / 36524 - doe / 146096) / 365;
            let doy = doe - (365 * yoe + yoe / 4 - yoe / 100);
            &&& 0 <= yoe <= 399
            &&& 0 <= doy <= 365
            &&& doy == 365 ==> (yoe + 1) % 4 == 0 && ((yoe + 1) % 100 != 0 || yoe == 399)
        }),
{
}

/// The leap-year rule repeats every 400 years.
#[verifier::spinoff_prover]
pub proof fn lemma_leap_period(y: int, k: int)
    ensures
        is_leap(y + 400 * k) == is_leap(y),
{
    vstd::arithmetic::div_mod::lemma_mod_multiples_vanish(100 * k, y, 4);
    vstd::arithmetic::div_mod::lemma_mod_multiples_vanish(4 * k, y, 100);
    vstd::arithmetic::div_mod::lemma_mod_multiples_vanish(k, y, 400);
    assert(y + 400 * k == 4 * (100 * k) + y);
    assert(y + 400 * k == 100 * (4 * k) + y);
    assert(y + 400 * k == 400 * k + y);
}

/// The month found from the day of the year, counted from March 1, and the
/// day of that month.
#[verifier::spinoff_prover]
#[verifier::rlimit(60)]
pub proof fn lemma_month_of_year(doy: int)
    requires
        0 <= doy <= 365,
    ensures
        ({
            let mp = (5 * doy + 2) / 153;
            let d = doy - (153 * mp + 2) / 5 + 1;
            &&& 0 <= mp <= 11
            &&& 1 <= d
            &&& mp == 11 ==> d == doy - 336
            &&& mp < 11 ==> d <= (153 * (mp + 1) + 2) / 5 - (153 * mp + 2) / 5
        }),
{
}

/// The date with day number `z`.
pub open spec fn civil_of_day(z: int) -> (int, int, int) {
    choose|t: (int, int, int)| valid_ymd(t.0, t.1, t.2) && day_number(t.0, t.1, t.2) == z
}

/// A valid date is the date of its day number.
pub proof fn lemma_civil_of_day_number(y: int, m: int, d: int)
    requires
        valid_ymd(y, m, d),
    ensures
        civil_of_day(day_number(y, m, d)) == (y, m, d),
{
    let z = day_number(y, m, d);
    let w = (y, m, d);
    assert(valid_ymd(w.0, w.1, w.2) && day_number(w.0, w.1, w.2) == z);
    let t = civil_of_day(z);
    lemma_day_number_injective(t.0, t.1, t.2, y, m, d);
}

/// The smallest day number whose year fits in 32 bits: January 1 of year
/// -2147483648.
pub const MIN_DAY: i64 = -784353015833;

/// The largest day number whose year fits in 32 bits: December 31 of year
/// 2147483647.
pub const MAX_DAY: i64 = 784351576776;

/// The bounds of the day numbers are the first and the last day whose year
/// fits in 32 bits.
pub proof fn lemma_day_bounds()
    ensures
        MIN_DAY == day_number(-2147483648, 1, 1),
        MAX_DAY == day_number(2147483647, 12, 31),
{
    lemma_days_before_month(2147483647, 12);
}

/// A calendar date. The fields are not constrained: see `valid_ymd`.
#[derive(Clone, Copy, Debug, PartialEq, Eq, Structural)]
pub struct Date {
    pub y: i32,
    pub m: u32,
    pub d: u32,
}

impl Date {
    /// Whether the date names a day of the calendar.
    pub open spec fn valid(self) -> bool {
        valid_ymd(self.y as int, self.m as int, self.d as int)
    }

    /// The day number of the date.
    pub open spec fn day(self) -> int {
        day_number(self.y as int, self.m as int, self.d as int)
    }
}

/// Whether `(y, m, d)` names a day of the calendar.
pub fn is_valid_date(y: i32, m: u32, d: u32) -> (ok: bool)
    ensures
        ok == valid_ymd(y as int, m as int, d as int),
        m == 2 && d == 29 ==> (ok <==> is_leap(y as int)),
{
    if m < 1 || m > 12 {
        return false;
    }
    if d < 1 {
        return false;
    }
    let dim: u32 = if m == 1 || m == 3 || m == 5 || m == 7 || m == 8 || m == 10 || m == 12 {
        31
    } else if m == 4 || m == 6 || m == 9 || m == 11 {
        30
    } else {
        let shifted: u64 = (y as i64 + 2147484000) as u64;
        let leap = (shifted % 4 == 0 && shifted % 100 != 0) || (shifted % 400 == 0);
        proof {
            lemma_leap_period(y as int, 5368710);
        }
        if leap {
            29
        } else {
            28
        }
    };
    d <= dim
}

/// Days since 1970-01-01 of the given date.
pub fn days_from_civil(y: i32, m: u32, d: u32) -> (n: i64)
    requires
        1 <= m <= 12,
    ensures
        n == day_number(y as int, m as int, d as int),
{
    let yy: i64 = if m <= 2 {
        y as i64 - 1
    } else {
        y as i64
    };
    let shifted: i64 = yy + 2147484000;
    let era: i64 = shifted / 400 - 5368710;
    proof {
        vstd::arithmetic::div_mod::lemma_fundamental_div_mod_converse(
            shifted as int,
            400,
            yy as int / 400 + 5368710,
            yy as int % 400,
        );
    }
    assert(era == yy as int / 400);
    let yoe: i64 = yy - era * 400;
    assert(0 <= yoe < 400);
    let mp: i64 = if m > 2 {
        m as i64 - 3
    } else {
        m as i64 + 9
    };
    let doy: i64 = (153 * mp + 2) / 5 + d as i64 - 1;
    let doe: i64 = yoe * 365 + yoe / 4 - yoe / 100 + doy;
    proof {
        lemma_era_form(y as int, m as int, d as int);
    }
    era * 146097 + doe - 719468
}


/// The date that lies `z` days after 1970-01-01.
pub fn civil_from_days(z: i64) -> (dt: Date)
    requires
        MIN_DAY <= z <= MAX_DAY,
    ensures
        dt.valid(),
        dt.day() == z,
        (dt.y as int, dt.m as int, dt.d as int) == civil_of_day(z as int),
{
    let zz: i64 = z + 719468;
    let shifted: i64 = zz + 784352424870;
    let era: i64 = shifted / 146097 - 5368710;
    proof {
        vstd::arithmetic::div_mod::lemma_fundamental_div_mod_converse(
            shifted as int,
            146097,
            zz as int / 146097 + 5368710,
            zz as int % 146097,
        );
    }
    assert(era == zz as int / 146097);
    let doe: i64 = zz - era * 146097;
    assert(0 <= doe <= 146096);
    let yoe: i64 = (doe - doe / 1460 + doe / 36524 - doe / 146096) / 365;
    proof {
        lemma_year_of_era(doe as int);
    }
    let doy: i64 = doe - (365 * yoe + yoe / 4 - yoe / 100);
    let mp: i64 = (5 * doy + 2) / 153;
    proof {
        lemma_month_of_year(doy as int);
    }
    let d: i64 = doy - (153 * mp + 2) / 5 + 1;
    let m: i64 = if mp < 10 {
        mp + 3
    } else {
        mp - 9
    };
    let yy: i64 = yoe + era * 400;
    let y: i64 = if m <= 2 {
        yy + 1
    } else {
        yy
    };
    proof {
        vstd::arithmetic::div_mod::lemma_fundamental_div_mod_converse(
            yy as int,
            400,
            era as int,
            yoe as int,
        );
        lemma_era_form(y as int, m as int, d as int);
        assert(day_number(y as int, m as int, d as int) == z);
        if m == 2 {
            lemma_leap_period(yoe + 1, era as int);
        }
        assert(valid_ymd(y as int, m as int, d as int));
        lemma_day_bounds();
        if y > 2147483647 {
            lemma_day_number_increases(2147483647, 12, 31, y as int, m as int, d as int);
        }
        if y < -2147483648 {
            lemma_day_number_increases(y as int, m as int, d as int, -2147483648, 1, 1);
        }
        lemma_civil_of_day_number(y as int, m as int, d as int);
    }
    Date { y: y as i32, m: m as u32, d: d as u32 }
}


/// The year as `{:04}` prints it: at least four characters, the sign of a
/// negative year counted among them.
pub open spec fn year_text(y: int) -> Seq<char> {
    if y >= 0 {
        zero_padded(y as nat, 4)
    } else {
        seq!['-'] + zero_padded((-y) as nat, 3)
    }
}

/// The text `YYYY-MM-DD` of a date.
pub open spec fn date_text(y: int, m: int, d: int) -> Seq<char> {
    year_text(y) + seq!['-'] + zero_padded(m as nat, 2) + seq!['-'] + zero_padded(d as nat, 2)
}

/// The text of the date with day number `n`.
pub open spec fn day_text(n: int) -> Seq<char> {
    let t = civil_of_day(n);
    date_text(t.0, t.1, t.2)
}

/// Whether `s` has the shape `NNNN-NN-NN`, each `N` a decimal digit.
pub open spec fn date_shape(s: Seq<char>) -> bool {
    &&& s.len() == 10
    &&& is_digit(s[0])
    &&& is_digit(s[1])
    &&& is_digit(s[2])
    &&& is_digit(s[3])
    &&& s[4] == '-'
    &&& is_digit(s[5])
    &&& is_digit(s[6])
    &&& s[7] == '-'
    &&& is_digit(s[8])
    &&& is_digit(s[9])
}

/// The year that a text of the shape of a date names.
pub open spec fn text_year(s: Seq<char>) -> int {
    1000 * digit_value(s[0]) + 100 * digit_value(s[1]) + 10 * digit_value(s[2]) + digit_value(
        s[3],
    )
}

/// The month that a text of the shape of a date names.
pub open spec fn text_month(s: Seq<char>) -> int {
    10 * digit_value(s[5]) + digit_value(s[6])
}

/// The day of the month that a text of the shape of a date names.
pub open spec fn text_day(s: Seq<char>) -> int {
    10 * digit_value(s[8]) + digit_value(s[9])
}

/// Whether `s` is exactly `NNNN-NN-NN` and names a day of the calendar.
pub open spec fn is_date(s: Seq<char>) -> bool {
    date_shape(s) && valid_ymd(text_year(s), text_month(s), text_day(s))
}

/// The day number of the date that `s` names.
pub open spec fn date_day(s: Seq<char>) -> int {
    day_number(text_year(s), text_month(s), text_day(s))
}

/// Day number of 0000-01-01, the first date that a text can name.
pub const FIRST_TEXT_DAY: i64 = -719528;

/// Day number of 9999-12-31, the last date that a text can name.
pub const LAST_TEXT_DAY: i64 = 2932896;

/// The dates that a text can name lie between 0000-01-01 and 9999-12-31.
pub proof fn lemma_date_day_bounds(s: Seq<char>)
    requires
        is_date(s),
    ensures
        FIRST_TEXT_DAY <= date_day(s) <= LAST_TEXT_DAY,
{
    let y = text_year(s);
    let m = text_month(s);
    let d = text_day(s);
    lemma_days_before_month(9999, 12);
    assert(day_number(0, 1, 1) == FIRST_TEXT_DAY);
    assert(day_number(9999, 12, 31) == LAST_TEXT_DAY);
    if y > 0 || m > 1 || d > 1 {
        lemma_day_number_increases(0, 1, 1, y, m, d);
    }
    if y < 9999 || m < 12 || d < 31 {
        lemma_day_number_increases(y, m, d, 9999, 12, 31);
    }
}

/// The message of the error for a value that is not what `label` asks for.
pub open spec fn invalid_text(label: Seq<char>, value: Seq<char>) -> Seq<char> {
    "Invalid "@ + label + ": "@ + value
}

/// The usage error `Invalid <label>: <value>`.
pub fn invalid_input(label: &str, value: &str) -> (e: CliError)
    ensures
        e.is_usage(invalid_text(label@, value@)),
{
    let mut message = "Invalid ".to_owned();
    message.append(label);
    message.append(": ");
    message.append(value);
    CliError { message, exit_code: crate::error::EXIT_USAGE }
}

/// Appends the text of year `y` to `out`.
pub fn push_year(out: &mut String, y: i32)
    ensures
        final(out)@ == old(out)@ + year_text(y as int),
{
    if y >= 0 {
        push_decimal(out, y as u64, 4);
    } else {
        out.push('-');
        push_decimal(out, (-(y as i64)) as u64, 3);
        assert(out@ =~= old(out)@ + year_text(y as int));
    }
}

/// The text `YYYY-MM-DD` of a date.
pub fn fmt_date(dt: Date) -> (s: String)
    ensures
        s@ == date_text(dt.y as int, dt.m as int, dt.d as int),
{
    let mut s = String::new();
    push_year(&mut s, dt.y);
    assert(s@ =~= year_text(dt.y as int));
    s.push('-');
    push_decimal(&mut s, dt.m as u64, 2);
    s.push('-');
    push_decimal(&mut s, dt.d as u64, 2);
    assert(s@ =~= date_text(dt.y as int, dt.m as int, dt.d as int));
    s
}

/// The value of a decimal digit.
fn digit_of(c: char) -> (v: Option<u32>)
    ensures
        v is Some <==> is_digit(c),
        v is Some ==> v->0 == digit_value(c),
{
    let n: u32 = c as u32;
    if 0x30 <= n && n <= 0x39 {
        Some(n - 0x30)
    } else {
        None
    }
}

/// Reads a date from its characters.
pub fn parse_chars(cs: &Vec<char>) -> (r: Option<Date>)
    ensures
        r is Some <==> is_date(cs@),
        r is Some ==> {
            let dt = r->0;
            &&& dt.valid()
            &&& dt.y == text_year(cs@)
            &&& dt.m == text_month(cs@)
            &&& dt.d == text_day(cs@)
            &&& dt.day() == date_day(cs@)
        },
{
    if cs.len() != 10 {
        return None;
    }
    if cs[4] != '-' || cs[7] != '-' {
        return None;
    }
    let y3 = digit_of(cs[0]);
    let y2 = digit_of(cs[1]);
    let y1 = digit_of(cs[2]);
    let y0 = digit_of(cs[3]);
    let m1 = digit_of(cs[5]);
    let m0 = digit_of(cs[6]);
    let d1 = digit_of(cs[8]);
    let d0 = digit_of(cs[9]);
    match (y3, y2, y1, y0, m1, m0, d1, d0) {
        (Some(a), Some(b), Some(c), Some(d), Some(e), Some(f), Some(g), Some(h)) => {
            let y: i32 = (1000 * a + 100 * b + 10 * c + d) as i32;
            let m: u32 = 10 * e + f;
            let d: u32 = 10 * g + h;
            if is_valid_date(y, m, d) {
                Some(Date { y, m, d })
            } else {
                None
            }
        },
        _ => None,
    }
}

/// Reads a date; `label` names the input in the error message.
pub fn parse_date(s: &str, label: &str) -> (r: Result<Date, CliError>)
    ensures
        r is Ok <==> is_date(s@),
        r is Ok ==> {
            let dt = r->Ok_0;
            &&& dt.valid()
            &&& dt.y == text_year(s@)
            &&& dt.m == text_month(s@)
            &&& dt.d == text_day(s@)
            &&& dt.day() == date_day(s@)
        },
        r is Err ==> r->Err_0.is_usage(invalid_text(label@, s@)),
{
    let cs = to_chars(s);
    match parse_chars(&cs) {
        Some(dt) => Ok(dt),
        None => Err(invalid_input(label, s)),
    }
}

/// Checks that a text is a date; `label` names the input in the error
/// message.
pub fn parse_date_string(s: &str, label: &str) -> (r: Result<(), CliError>)
    ensures
        r is Ok <==> is_date(s@),
        r is Err ==> r->Err_0.is_usage(invalid_text(label@, s@)),
{
    match parse_date(s, label) {
        Ok(_) => Ok(()),
        Err(e) => Err(e),
    }
}


/// ISO weekday of a day number, Monday = 1 to Sunday = 7; 1970-01-01 was a
/// Thursday.
pub open spec fn weekday_of_day(n: int) -> int {
    (n + 3) % 7 + 1
}

/// The Monday of the ISO week that holds day `n`.
pub open spec fn week_start_day(n: int) -> int {
    n - (weekday_of_day(n) - 1)
}

/// The Sunday of the ISO week that holds day `n`.
pub open spec fn week_end_day(n: int) -> int {
    week_start_day(n) + 6
}

/// A week runs from its Monday to its Sunday, six days later, and holds each
/// of its days: the week of any day starts on a Monday at or before that day
/// and ends at or after it.
#[verifier::spinoff_prover]
pub proof fn lemma_week_bounds(n: int)
    ensures
        week_start_day(n) <= n <= week_end_day(n),
        week_end_day(n) - week_start_day(n) == 6,
        weekday_of_day(week_start_day(n)) == 1,
        weekday_of_day(week_end_day(n)) == 7,
        1 <= weekday_of_day(n) <= 7,
{
}

/// Every day of a week has that week's Monday as its week start.
#[verifier::spinoff_prover]
pub proof fn lemma_week_start_of_week_day(n: int, k: int)
    requires
        week_start_day(n) <= k <= week_end_day(n),
    ensures
        week_start_day(k) == week_start_day(n),
{
}

/// ISO weekday of a day number, Monday = 1 to Sunday = 7.
pub fn weekday_from_days(n: i64) -> (w: u8)
    requires
        MIN_DAY <= n <= MAX_DAY,
    ensures
        w == weekday_of_day(n as int),
        1 <= w <= 7,
{
    let shifted: i64 = n + 3 + 784353015838;
    proof {
        vstd::arithmetic::div_mod::lemma_mod_multiples_vanish(112050430834, n + 3, 7);
    }
    (shifted % 7 + 1) as u8
}

/// The text of the date with day number `n`.
pub fn fmt_day(n: i64) -> (s: String)
    requires
        MIN_DAY <= n <= MAX_DAY,
    ensures
        s@ == day_text(n as int),
{
    fmt_date(civil_from_days(n))
}

/// The day number of the date that `date` names.
pub fn parse_day(date: &str, label: &str) -> (r: Result<i64, CliError>)
    ensures
        r is Ok <==> is_date(date@),
        r is Ok ==> r->Ok_0 == date_day(date@) && FIRST_TEXT_DAY <= r->Ok_0 <= LAST_TEXT_DAY,
        r is Err ==> r->Err_0.is_usage(invalid_text(label@, date@)),
{
    match parse_date(date, label) {
        Ok(dt) => {
            proof {
                lemma_date_day_bounds(date@);
            }
            Ok(days_from_civil(dt.y, dt.m, dt.d))
        },
        Err(e) => Err(e),
    }
}

/// The date `delta_days` after `date`, or before it for a negative offset.
pub fn add_days(date: &str, delta_days: i32) -> (r: Result<String, CliError>)
    ensures
        r is Ok <==> is_date(date@),
        r is Ok ==> r->Ok_0@ == day_text(date_day(date@) + delta_days),
        r is Err ==> r->Err_0.is_usage(invalid_text("date"@, date@)),
{
    match parse_day(date, "date") {
        Ok(days) => Ok(fmt_day(days + delta_days as i64)),
        Err(e) => Err(e),
    }
}

/// ISO weekday number: Mon=1..Sun=7
pub fn iso_weekday(date: &str) -> (r: Result<u8, CliError>)
    ensures
        r is Ok <==> is_date(date@),
        r is Ok ==> r->Ok_0 == weekday_of_day(date_day(date@)),
        r is Err ==> r->Err_0.is_usage(invalid_text("date"@, date@)),
{
    match parse_day(date, "date") {
        Ok(days) => Ok(weekday_from_days(days)),
        Err(e) => Err(e),
    }
}

/// The message of the error for a range that ends before it starts.
pub open spec fn range_order_text() -> Seq<char> {
    "Invalid range: from > to"@
}

/// The texts of the days `from..=to`, in order.
pub fn day_texts(from: i64, to: i64) -> (out: Vec<String>)
    requires
        MIN_DAY <= from,
        to <= MAX_DAY,
    ensures
        out@.len() == (if from <= to {
            to - from + 1
        } else {
            0
        }),
        forall|i: int| 0 <= i < out@.len() ==> (#[trigger] out@[i])@ == day_text(from + i),
{
    let mut out: Vec<String> = Vec::new();
    let mut cur: i64 = from;
    while cur <= to
        invariant
            MIN_DAY <= from <= cur,
            to <= MAX_DAY,
            cur <= to + 1 || cur == from,
            out@.len() == cur - from,
            forall|i: int| 0 <= i < out@.len() ==> (#[trigger] out@[i])@ == day_text(from + i),
        decreases to + 1 - cur,
    {
        out.push(fmt_day(cur));
        cur += 1;
    }
    out
}

/// The dates from `from` to `to`, both included.
pub fn date_range_inclusive(from: &str, to: &str) -> (r: Result<Vec<String>, CliError>)
    ensures
        r is Ok <==> is_date(from@) && is_date(to@) && date_day(from@) <= date_day(to@),
        r is Ok ==> {
            let v = r->Ok_0;
            &&& v@.len() == date_day(to@) - date_day(from@) + 1
            &&& forall|i: int|
                0 <= i < v@.len() ==> (#[trigger] v@[i])@ == day_text(date_day(from@) + i)
        },
        r is Err ==> r->Err_0.is_usage(
            if !is_date(from@) {
                invalid_text("from"@, from@)
            } else if !is_date(to@) {
                invalid_text("to"@, to@)
            } else {
                range_order_text()
            },
        ),
{
    let first = match parse_day(from, "from") {
        Ok(n) => n,
        Err(e) => {
            return Err(e);
        },
    };
    let last = match parse_day(to, "to") {
        Ok(n) => n,
        Err(e) => {
            return Err(e);
        },
    };
    if first > last {
        return Err(CliError::usage("Invalid range: from > to"));
    }
    Ok(day_texts(first, last))
}

/// The Monday of the ISO week that holds `date`.
pub fn iso_week_start(date: &str) -> (r: Result<String, CliError>)
    ensures
        r is Ok <==> is_date(date@),
        r is Ok ==> r->Ok_0@ == day_text(week_start_day(date_day(date@))),
        r is Err ==> r->Err_0.is_usage(invalid_text("date"@, date@)),
{
    match parse_day(date, "date") {
        Ok(days) => {
            let wd = weekday_from_days(days);
            Ok(fmt_day(days - (wd as i64 - 1)))
        },
        Err(e) => Err(e),
    }
}

/// The Sunday of the ISO week that holds `date`.
pub fn iso_week_end(date: &str) -> (r: Result<String, CliError>)
    ensures
        r is Ok <==> is_date(date@),
        r is Ok ==> r->Ok_0@ == day_text(week_end_day(date_day(date@))),
        r is Err ==> r->Err_0.is_usage(invalid_text("date"@, date@)),
{
    match parse_day(date, "date") {
        Ok(days) => {
            let wd = weekday_from_days(days);
            Ok(fmt_day(days - (wd as i64 - 1) + 6))
        },
        Err(e) => Err(e),
    }
}

/// The ISO year of the week that holds day `n`: the year of its Thursday.
pub open spec fn iso_year_of_day(n: int) -> int {
    civil_of_day(week_start_day(n) + 3).0
}

/// The ISO number of the week that holds day `n`: weeks are counted from
/// the one that holds January 4 of the ISO year.
pub open spec fn iso_week_of_day(n: int) -> int {
    1 + (week_start_day(n) - week_start_day(day_number(iso_year_of_day(n), 1, 4))) / 7
}

/// The label `YYYY-Www` of the ISO week that holds day `n`.
pub open spec fn week_label(n: int) -> Seq<char> {
    year_text(iso_year_of_day(n)) + seq!['-', 'W'] + zero_padded(iso_week_of_day(n) as nat, 2)
}

/// Two Mondays less than a week apart are the same day.
#[verifier::spinoff_prover]
proof fn lemma_mondays(first: int, start: int)
    requires
        weekday_of_day(first) == 1,
        weekday_of_day(start) == 1,
        first <= start + 6,
    ensures
        first <= start,
{
}

/// January 4 lies three days after January 1, and no date of a year lies
/// before its January 1.
#[verifier::spinoff_prover]
proof fn lemma_january(y: int, m: int, d: int)
    requires
        valid_ymd(y, m, d),
    ensures
        day_number(y, 1, 4) == day_number(y, 1, 1) + 3,
        day_number(y, 1, 1) <= day_number(y, m, d),
{
    if m > 1 || d > 1 {
        lemma_day_number_increases(y, 1, 1, y, m, d);
    }
}

/// The week that holds January 4 of the year of a week's Thursday starts no
/// later than that week.
pub proof fn lemma_first_week(start: int, y: int, m: int, d: int)
    requires
        weekday_of_day(start) == 1,
        valid_ymd(y, m, d),
        day_number(y, m, d) == start + 3,
    ensures
        week_start_day(day_number(y, 1, 4)) <= start,
{
    lemma_january(y, m, d);
    let jan4 = day_number(y, 1, 4);
    lemma_week_bounds(jan4);
    lemma_mondays(week_start_day(jan4), start);
}

/// The label of the ISO week that holds day `n`.
pub fn week_label_of_day(n: i64) -> (s: String)
    requires
        FIRST_TEXT_DAY <= n <= LAST_TEXT_DAY,
    ensures
        s@ == week_label(n as int),
        iso_week_of_day(n as int) >= 1,
{
    let wd = weekday_from_days(n);
    let start: i64 = n - (wd as i64 - 1);
    let thursday = civil_from_days(start + 3);
    let year: i32 = thursday.y;
    proof {
        lemma_week_bounds(n as int);
        lemma_first_week(start as int, year as int, thursday.m as int, thursday.d as int);
        lemma_day_bounds();
        if year > -2147483648 {
            lemma_day_number_increases(-2147483648, 1, 1, year as int, 1, 4);
        }
        lemma_day_number_increases(year as int, 1, 4, 2147483647, 12, 31);
    }
    let jan4: i64 = days_from_civil(year, 1, 4);
    let jan4_wd = weekday_from_days(jan4);
    let first: i64 = jan4 - (jan4_wd as i64 - 1);
    assert(first == week_start_day(jan4 as int));
    assert(first <= start);
    let week: i64 = 1 + (start - first) / 7;
    let mut s = String::new();
    push_year(&mut s, year);
    s.push('-');
    s.push('W');
    push_decimal(&mut s, week as u64, 2);
    assert(s@ =~= week_label(n as int));
    s
}

/// The identifier `YYYY-Www` of the ISO week that holds the given date.
pub fn iso_week_id(week_start_date: &str) -> (r: Result<String, CliError>)
    ensures
        r is Ok <==> is_date(week_start_date@),
        r is Ok ==> r->Ok_0@ == week_label(date_day(week_start_date@)),
        r is Err ==> r->Err_0.is_usage(invalid_text("date"@, week_start_date@)),
{
    match parse_day(week_start_date, "date") {
        Ok(days) => Ok(week_label_of_day(days)),
        Err(e) => Err(e),
    }
}

/// The day number of the UTC date at `secs` seconds after the Unix epoch,
/// held to the last day whose year fits in 32 bits.
pub open spec fn unix_day(secs: u64) -> int {
    if secs / 86400 <= MAX_DAY {
        (secs / 86400) as int
    } else {
        MAX_DAY as int
    }
}

/// The UTC date at `secs` seconds after the Unix epoch.
pub fn utc_date_from_unix_seconds(secs: u64) -> (s: String)
    ensures
        s@ == day_text(unix_day(secs)),
{
    let days: u64 = secs / 86400;
    if days <= MAX_DAY as u64 {
        fmt_day(days as i64)
    } else {
        fmt_day(MAX_DAY)
    }
}

/// The date after `(y, m, d)`.
pub open spec fn next_date(y: int, m: int, d: int) -> (int, int, int) {
    if d < days_in_month(y, m) {
        (y, m, d + 1)
    } else if m < 12 {
        (y, m + 1, 1)
    } else {
        (y + 1, 1, 1)
    }
}

/// The date after a day of the calendar is a day of the calendar, and its
/// day number is one more.
#[verifier::spinoff_prover]
pub proof fn lemma_next_date(y: int, m: int, d: int)
    requires
        valid_ymd(y, m, d),
    ensures
        ({
            let t = next_date(y, m, d);
            &&& valid_ymd(t.0, t.1, t.2)
            &&& day_number(t.0, t.1, t.2) == day_number(y, m, d) + 1
            &&& t.2 != d
        }),
{
    lemma_days_before_month(y, m);
    lemma_days_before_month(y, m + 1);
    lemma_days_before_month(y + 1, 1);
    lemma_year_length(y);
}

/// A number below 100, padded to two places, is its two digits.
pub proof fn lemma_two_digits(v: nat)
    requires
        v < 100,
    ensures
        zero_padded(v, 2) =~= seq![digit_char((v / 10) as int), digit_char((v % 10) as int)],
        digit_value(digit_char((v / 10) as int)) == v / 10,
        digit_value(digit_char((v % 10) as int)) == v % 10,
{
    reveal_with_fuel(decimal, 3);
    if v < 10 {
        assert(decimal(v) =~= seq![digit_char(v as int)]);
        assert(repeated('0', 1) =~= seq!['0']);
        assert(digit_char(0) == '0');
    } else {
        assert(decimal(v / 10) =~= seq![digit_char((v / 10) as int)]);
    }
}

/// The text of the day after a date is another text than that of the
/// date.
pub proof fn lemma_next_day_text_differs(date: Seq<char>)
    requires
        is_date(date),
    ensures
        day_text(date_day(date) + 1) != date,
{
    let y = text_year(date);
    let m = text_month(date);
    let d = text_day(date);
    lemma_next_date(y, m, d);
    let t = next_date(y, m, d);
    lemma_civil_of_day_number(t.0, t.1, t.2);
    let text = day_text(date_day(date) + 1);
    assert(text == date_text(t.0, t.1, t.2));
    lemma_two_digits(t.2 as nat);
    let tail = zero_padded(t.2 as nat, 2);
    let head = year_text(t.0) + seq!['-'] + zero_padded(t.1 as nat, 2) + seq!['-'];
    assert(text =~= head + tail);
    assert(text[text.len() - 2] == tail[0]);
    assert(text[text.len() - 1] == tail[1]);
    if text == date {
        assert(text_day(date) == 10 * digit_value(tail[0]) + digit_value(tail[1]));
    }
}

/// A digit is the character of its value.
pub proof fn lemma_digit(c: char)
    requires
        is_digit(c),
    ensures
        digit_char(digit_value(c)) == c,
        0 <= digit_value(c) <= 9,
{
}

/// A number below 10000, padded to four places, is its four digits.
#[verifier::spinoff_prover]
pub proof fn lemma_four_digits(v: nat)
    requires
        v < 10000,
    ensures
        zero_padded(v, 4) =~= seq![
            digit_char((v / 1000) as int),
            digit_char((v / 100 % 10) as int),
            digit_char((v / 10 % 10) as int),
            digit_char((v % 10) as int),
        ],
{
    reveal_with_fuel(decimal, 5);
    assert(digit_char(0) == '0');
    if v < 10 {
        assert(decimal(v) =~= seq![digit_char(v as int)]);
        assert(repeated('0', 3) =~= seq!['0', '0', '0']);
    } else if v < 100 {
        assert(decimal(v) =~= seq![digit_char((v / 10) as int), digit_char((v % 10) as int)]);
        assert(repeated('0', 2) =~= seq!['0', '0']);
    } else if v < 1000 {
        assert(decimal(v) =~= seq![
            digit_char((v / 100) as int),
            digit_char((v / 10 % 10) as int),
            digit_char((v % 10) as int),
        ]);
        assert(repeated('0', 1) =~= seq!['0']);
    } else {
        assert(decimal(v) =~= seq![
            digit_char((v / 1000) as int),
            digit_char((v / 100 % 10) as int),
            digit_char((v / 10 % 10) as int),
            digit_char((v % 10) as int),
        ]);
    }
}

/// The text of a date of the years 0 to 9999 has ten characters: four
/// digits of the year, two of the month, two of the day, hyphens between.
#[verifier::spinoff_prover]
pub proof fn lemma_date_text_chars(y: int, m: int, d: int)
    requires
        0 <= y <= 9999,
        0 <= m <= 99,
        0 <= d <= 99,
    ensures
        date_text(y, m, d) =~= seq![
            digit_char(y / 1000),
            digit_char(y / 100 % 10),
            digit_char(y / 10 % 10),
            digit_char(y % 10),
            '-',
            digit_char(m / 10),
            digit_char(m % 10),
            '-',
            digit_char(d / 10),
            digit_char(d % 10),
        ],
{
    lemma_four_digits(y as nat);
    lemma_two_digits(m as nat);
    lemma_two_digits(d as nat);
}

/// A date is the text of its own day: reading a date and writing the day
/// that was read gives the date back.
pub proof fn lemma_date_reads_back(s: Seq<char>)
    requires
        is_date(s),
    ensures
        day_text(date_day(s)) == s,
{
    let y = text_year(s);
    let m = text_month(s);
    let d = text_day(s);
    lemma_digit(s[0]);
    lemma_digit(s[1]);
    lemma_digit(s[2]);
    lemma_digit(s[3]);
    lemma_digit(s[5]);
    lemma_digit(s[6]);
    lemma_digit(s[8]);
    lemma_digit(s[9]);
    lemma_civil_of_day_number(y, m, d);
    lemma_date_text_chars(y, m, d);
    lemma_text_fields(
        digit_value(s[0]),
        digit_value(s[1]),
        digit_value(s[2]),
        digit_value(s[3]),
    );
    assert(date_text(y, m, d) =~= s);
}

/// The digits of a number of four places.
#[verifier::spinoff_prover]
proof fn lemma_text_fields(a: int, b: int, c: int, e: int)
    requires
        0 <= a <= 9,
        0 <= b <= 9,
        0 <= c <= 9,
        0 <= e <= 9,
    ensures
        ({
            let y = 1000 * a + 100 * b + 10 * c + e;
            &&& y / 1000 == a
            &&& y / 100 % 10 == b
            &&& y / 10 % 10 == c
            &&& y % 10 == e
            &&& (10 * c + e) / 10 == c
            &&& (10 * c + e) % 10 == e
        }),
{
    let y = 1000 * a + 100 * b + 10 * c + e;
    vstd::arithmetic::div_mod::lemma_fundamental_div_mod_converse(
        y,
        1000,
        a,
        100 * b + 10 * c + e,
    );
    vstd::arithmetic::div_mod::lemma_fundamental_div_mod_converse(y, 100, 10 * a + b, 10 * c + e);
    vstd::arithmetic::div_mod::lemma_fundamental_div_mod_converse(10 * a + b, 10, a, b);
    vstd::arithmetic::div_mod::lemma_fundamental_div_mod_converse(
        y,
        10,
        100 * a + 10 * b + c,
        e,
    );
    vstd::arithmetic::div_mod::lemma_fundamental_div_mod_converse(
        100 * a + 10 * b + c,
        10,
        10 * a + b,
        c,
    );
    vstd::arithmetic::div_mod::lemma_fundamental_div_mod_converse(10 * c + e, 10, c, e);
}

/// Every day from 0000-01-01 on is the day of a date.
pub proof fn lemma_day_has_date(n: int)
    requires
        FIRST_TEXT_DAY <= n,
    ensures
        ({
            let t = civil_of_day(n);
            valid_ymd(t.0, t.1, t.2) && day_number(t.0, t.1, t.2) == n
        }),
    decreases n - FIRST_TEXT_DAY,
{
    if n == FIRST_TEXT_DAY {
        lemma_days_before_month(0, 1);
        assert(day_number(0, 1, 1) == FIRST_TEXT_DAY);
        lemma_civil_of_day_number(0, 1, 1);
    } else {
        lemma_day_has_date(n - 1);
        let t = civil_of_day(n - 1);
        lemma_next_date(t.0, t.1, t.2);
        let u = next_date(t.0, t.1, t.2);
        lemma_civil_of_day_number(u.0, u.1, u.2);
    }
}

/// The days from 0000-01-01 to 9999-12-31 are the days of the years 0 to
/// 9999.
#[verifier::spinoff_prover]
pub proof fn lemma_text_days_years(n: int)
    requires
        FIRST_TEXT_DAY <= n <= LAST_TEXT_DAY,
    ensures
        ({
            let t = civil_of_day(n);
            &&& valid_ymd(t.0, t.1, t.2)
            &&& day_number(t.0, t.1, t.2) == n
            &&& 0 <= t.0 <= 9999
        }),
{
    lemma_day_has_date(n);
    let t = civil_of_day(n);
    lemma_days_before_month(9999, 12);
    lemma_days_before_month(0, 1);
    assert(day_number(0, 1, 1) == FIRST_TEXT_DAY);
    assert(day_number(9999, 12, 31) == LAST_TEXT_DAY);
    if t.0 < 0 {
        lemma_day_number_increases(t.0, t.1, t.2, 0, 1, 1);
    }
    if t.0 > 9999 {
        lemma_day_number_increases(9999, 12, 31, t.0, t.1, t.2);
    }
}

/// The text of a date of the years 0 to 9999 has the shape of a date and
/// reads as that date.
#[verifier::spinoff_prover]
pub proof fn lemma_date_text_reads(y: int, m: int, d: int)
    requires
        0 <= y <= 9999,
        0 <= m <= 99,
        0 <= d <= 99,
    ensures
        date_shape(date_text(y, m, d)),
        text_year(date_text(y, m, d)) == y,
        text_month(date_text(y, m, d)) == m,
        text_day(date_text(y, m, d)) == d,
{
    lemma_date_text_chars(y, m, d);
    let s = date_text(y, m, d);
    lemma_digit_values(y / 1000);
    lemma_digit_values(y / 100 % 10);
    lemma_digit_values(y / 10 % 10);
    lemma_digit_values(y % 10);
    lemma_digit_values(m / 10);
    lemma_digit_values(m % 10);
    lemma_digit_values(d / 10);
    lemma_digit_values(d % 10);
    assert(s.len() == 10);
    assert(s[0] == digit_char(y / 1000));
    assert(s[1] == digit_char(y / 100 % 10));
    assert(s[2] == digit_char(y / 10 % 10));
    assert(s[3] == digit_char(y % 10));
    assert(s[4] == '-');
    assert(s[5] == digit_char(m / 10));
    assert(s[6] == digit_char(m % 10));
    assert(s[7] == '-');
    assert(s[8] == digit_char(d / 10));
    assert(s[9] == digit_char(d % 10));
    lemma_number_of_digits(y);
}

/// A number of four places is made of its digits.
#[verifier::spinoff_prover]
proof fn lemma_number_of_digits(y: int)
    requires
        0 <= y <= 9999,
    ensures
        1000 * (y / 1000) + 100 * (y / 100 % 10) + 10 * (y / 10 % 10) + y % 10 == y,
        y < 100 ==> 10 * (y / 10) + y % 10 == y,
        0 <= y / 1000 <= 9,
{
    vstd::arithmetic::div_mod::lemma_fundamental_div_mod(y, 10);
    vstd::arithmetic::div_mod::lemma_fundamental_div_mod(y / 10, 10);
    vstd::arithmetic::div_mod::lemma_fundamental_div_mod(y / 100, 10);
    vstd::arithmetic::div_mod::lemma_div_denominator(y, 10, 10);
    vstd::arithmetic::div_mod::lemma_div_denominator(y, 100, 10);
}

/// The text of a day from 0000-01-01 to 9999-12-31 is a date, and the date
/// of that day: writing a day and reading what was written gives the day
/// back.
pub proof fn lemma_day_writes_back(n: int)
    requires
        FIRST_TEXT_DAY <= n <= LAST_TEXT_DAY,
    ensures
        is_date(day_text(n)),
        date_day(day_text(n)) == n,
{
    lemma_text_days_years(n);
    let t = civil_of_day(n);
    lemma_date_text_reads(t.0, t.1, t.2);
}

/// The character of a digit has the value of the digit.
proof fn lemma_digit_values(k: int)
    requires
        0 <= k <= 9,
    ensures
        is_digit(digit_char(k)),
        digit_value(digit_char(k)) == k,
{
}

/// Digits are in the order of their values.
proof fn lemma_digit_order(c1: char, c2: char)
    requires
        is_digit(c1),
        is_digit(c2),
    ensures
        (c1 < c2) == (digit_value(c1) < digit_value(c2)),
        (c1 == c2) == (digit_value(c1) == digit_value(c2)),
        0 <= digit_value(c1) <= 9,
        0 <= digit_value(c2) <= 9,
{
}

/// Whether the date `(y1, m1, d1)` lies before `(y2, m2, d2)`.
pub open spec fn ymd_before(y1: int, m1: int, d1: int, y2: int, m2: int, d2: int) -> bool {
    y1 < y2 || (y1 == y2 && (m1 < m2 || (m1 == m2 && d1 < d2)))
}

/// Texts of the shape of a date are in the order of their years, months and
/// days.
#[verifier::spinoff_prover]
#[verifier::rlimit(60)]
proof fn lemma_shape_order(a: Seq<char>, b: Seq<char>)
    requires
        date_shape(a),
        date_shape(b),
    ensures
        lex_lt(a, b) <==> ymd_before(
            text_year(a),
            text_month(a),
            text_day(a),
            text_year(b),
            text_month(b),
            text_day(b),
        ),
{
    reveal_with_fuel(lex_lt_from, 11);
    lemma_digit_order(a[0], b[0]);
    lemma_digit_order(a[1], b[1]);
    lemma_digit_order(a[2], b[2]);
    lemma_digit_order(a[3], b[3]);
    lemma_digit_order(a[5], b[5]);
    lemma_digit_order(a[6], b[6]);
    lemma_digit_order(a[8], b[8]);
    lemma_digit_order(a[9], b[9]);
    assert(lex_lt(a, b) == lex_lt_from(a, b, 0));
    assert(lex_lt_from(a, b, 10) == false);
    assert(lex_lt_from(a, b, 8) == (if a[8] != b[8] {
        a[8] < b[8]
    } else if a[9] != b[9] {
        a[9] < b[9]
    } else {
        false
    }));
    assert(lex_lt_from(a, b, 8) == (text_day(a) < text_day(b)));
    assert(lex_lt_from(a, b, 7) == lex_lt_from(a, b, 8));
    assert(lex_lt_from(a, b, 5) == (if a[5] != b[5] {
        a[5] < b[5]
    } else if a[6] != b[6] {
        a[6] < b[6]
    } else {
        lex_lt_from(a, b, 7)
    }));
    assert(lex_lt_from(a, b, 5) == (text_month(a) < text_month(b) || (text_month(a)
        == text_month(b) && text_day(a) < text_day(b))));
    assert(lex_lt_from(a, b, 4) == lex_lt_from(a, b, 5));
    assert(lex_lt_from(a, b, 2) == (if a[2] != b[2] {
        a[2] < b[2]
    } else if a[3] != b[3] {
        a[3] < b[3]
    } else {
        lex_lt_from(a, b, 4)
    }));
    assert(lex_lt_from(a, b, 0) == (if a[0] != b[0] {
        a[0] < b[0]
    } else if a[1] != b[1] {
        a[1] < b[1]
    } else {
        lex_lt_from(a, b, 2)
    }));
}

/// Dates are in the order of their days: the earlier date is the text that
/// sorts first.
pub proof fn lemma_date_order(a: Seq<char>, b: Seq<char>)
    requires
        is_date(a),
        is_date(b),
    ensures
        lex_lt(a, b) <==> date_day(a) < date_day(b),
{
    lemma_shape_order(a, b);
    let (y1, m1, d1) = (text_year(a), text_month(a), text_day(a));
    let (y2, m2, d2) = (text_year(b), text_month(b), text_day(b));
    if ymd_before(y1, m1, d1, y2, m2, d2) {
        lemma_day_number_increases(y1, m1, d1, y2, m2, d2);
    } else if ymd_before(y2, m2, d2, y1, m1, d1) {
        lemma_day_number_increases(y2, m2, d2, y1, m1, d1);
    }
}

} // verus!
