//! Date handling for `published_at` strings.
//!
//! Two shapes are recognized, `YYYY-MM-DD` and `YYYY-MM-DD HH:MM`, both read
//! as UTC. Normalization rewrites them as an RFC 3339 timestamp with second
//! precision; a string of neither shape passes through unchanged. Display
//! formatting turns a valid `YYYY-MM-DD` into a long or short English date.

use vstd::prelude::*;

use crate::text::{chars_of, string_of};

verus! {

pub open spec fn is_digit(c: char) -> bool {
    48 <= (c as u32) && (c as u32) <= 57
}

pub open spec fn digit_val(c: char) -> int {
    (c as u32) - 48
}

pub open spec fn is_leap_year(y: int) -> bool {
    (y % 4 == 0 && y % 100 != 0) || y % 400 == 0
}

pub open spec fn days_in_month(y: int, m: int) -> int {
    if m == 2 {
        if is_leap_year(y) {
            29
        } else {
            28
        }
    } else if m == 4 || m == 6 || m == 9 || m == 11 {
        30
    } else {
        31
    }
}

/// The first ten characters spell a plausible `YYYY-MM-DD`.
pub open spec fn ymd_shape(s: Seq<char>) -> bool {
    &&& s.len() >= 10
    &&& is_digit(s[0])
    &&& is_digit(s[1])
    &&& is_digit(s[2])
    &&& is_digit(s[3])
    &&& s[4] == '-'
    &&& is_digit(s[5])
    &&& is_digit(s[6])
    &&& s[7] == '-'
    &&& is_digit(s[8])
    &&& is_digit(s[9])
}

pub open spec fn year_of(s: Seq<char>) -> int {
    digit_val(s[0]) * 1000 + digit_val(s[1]) * 100 + digit_val(s[2]) * 10 + digit_val(s[3])
}

pub open spec fn month_of(s: Seq<char>) -> int {
    digit_val(s[5]) * 10 + digit_val(s[6])
}

pub open spec fn day_of(s: Seq<char>) -> int {
    digit_val(s[8]) * 10 + digit_val(s[9])
}

/// The whole string is a calendar-valid `YYYY-MM-DD`.
pub open spec fn valid_ymd(s: Seq<char>) -> bool {
    &&& s.len() == 10
    &&& ymd_shape(s)
    &&& 1 <= month_of(s) <= 12
    &&& 1 <= day_of(s) <= days_in_month(year_of(s), month_of(s))
}

/// The whole string is a calendar-valid `YYYY-MM-DD HH:MM`.
pub open spec fn valid_ymd_hm(s: Seq<char>) -> bool {
    &&& s.len() == 16
    &&& ymd_shape(s)
    &&& 1 <= month_of(s) <= 12
    &&& 1 <= day_of(s) <= days_in_month(year_of(s), month_of(s))
    &&& s[10] == ' '
    &&& is_digit(s[11])
    &&& is_digit(s[12])
    &&& s[13] == ':'
    &&& is_digit(s[14])
    &&& is_digit(s[15])
    &&& digit_val(s[11]) * 10 + digit_val(s[12]) <= 23
    &&& digit_val(s[14]) * 10 + digit_val(s[15]) <= 59
}

/// What date normalization returns: the timestamp for a recognized shape,
/// the input itself otherwise.
pub open spec fn rfc3339_spec(s: Seq<char>) -> Seq<char> {
    if valid_ymd_hm(s) {
        s.subrange(0, 10) + "T"@ + s.subrange(11, 16) + ":00Z"@
    } else if valid_ymd(s) {
        s + "T00:00:00Z"@
    } else {
        s
    }
}

/// Day of the week for a calendar date, `0` standing for Sunday.
/// Shifting the year by 400 leaves the weekday unchanged and keeps every
/// intermediate value non-negative.
pub open spec fn day_of_week(y: int, m: int, d: int) -> int {
    let yy = if m < 3 {
        y + 399
    } else {
        y + 400
    };
    (yy + yy / 4 - yy / 100 + yy / 400 + month_term(m) + d) % 7
}

pub open spec fn month_term(m: int) -> int {
    if m == 1 {
        0
    } else if m == 2 {
        3
    } else if m == 3 {
        2
    } else if m == 4 {
        5
    } else if m == 5 {
        0
    } else if m == 6 {
        3
    } else if m == 7 {
        5
    } else if m == 8 {
        1
    } else if m == 9 {
        4
    } else if m == 10 {
        6
    } else if m == 11 {
        2
    } else {
        4
    }
}

pub open spec fn weekday_name(w: int) -> Seq<char> {
    if w == 0 {
        "Sunday"@
    } else if w == 1 {
        "Monday"@
    } else if w == 2 {
        "Tuesday"@
    } else if w == 3 {
        "Wednesday"@
    } else if w == 4 {
        "Thursday"@
    } else if w == 5 {
        "Friday"@
    } else {
        "Saturday"@
    }
}

pub open spec fn month_long(m: int) -> Seq<char> {
    if m == 1 {
        "January"@
    } else if m == 2 {
        "February"@
    } else if m == 3 {
        "March"@
    } else if m == 4 {
        "April"@
    } else if m == 5 {
        "May"@
    } else if m == 6 {
        "June"@
    } else if m == 7 {
        "July"@
    } else if m == 8 {
        "August"@
    } else if m == 9 {
        "September"@
    } else if m == 10 {
        "October"@
    } else if m == 11 {
        "November"@
    } else {
        "December"@
    }
}

pub open spec fn month_short(m: int) -> Seq<char> {
    if m == 1 {
        "Jan"@
    } else if m == 2 {
        "Feb"@
    } else if m == 3 {
        "Mar"@
    } else if m == 4 {
        "Apr"@
    } else if m == 5 {
        "May"@
    } else if m == 6 {
        "Jun"@
    } else if m == 7 {
        "Jul"@
    } else if m == 8 {
        "Aug"@
    } else if m == 9 {
        "Sep"@
    } else if m == 10 {
        "Oct"@
    } else if m == 11 {
        "Nov"@
    } else {
        "Dec"@
    }
}

/// The space-padded day of month, as in `" 5"` or `"12"`.
pub open spec fn day_padded(s: Seq<char>) -> Seq<char> {
    if s[8] == '0' {
        seq![' ', s[9]]
    } else {
        s.subrange(8, 10)
    }
}

/// What the date display returns: a long `Monday, January  5, 2026` or a
/// short `Jan 05, 2026` for a valid date, the input itself otherwise.
pub open spec fn date_display_spec(s: Seq<char>, long: bool) -> Seq<char> {
    if valid_ymd(s) {
        if long {
            weekday_name(day_of_week(year_of(s), month_of(s), day_of(s))) + ", "@ + month_long(
                month_of(s),
            ) + " "@ + day_padded(s) + ", "@ + s.subrange(0, 4)
        } else {
            month_short(month_of(s)) + " "@ + s.subrange(8, 10) + ", "@ + s.subrange(0, 4)
        }
    } else {
        s
    }
}

fn digit(c: char) -> (r: bool)
    ensures
        r == is_digit(c),
{
    let u = c as u32;
    48 <= u && u <= 57
}

fn dval(c: char) -> (r: u32)
    requires
        is_digit(c),
    ensures
        r == digit_val(c),
{
    (c as u32) - 48
}

/// Checks the `YYYY-MM-DD` prefix shape and calendar validity of the first
/// ten characters.
fn check_ymd_prefix(cs: &Vec<char>) -> (r: bool)
    ensures
        r == (cs@.len() >= 10 && ymd_shape(cs@) && 1 <= month_of(cs@) <= 12 && 1 <= day_of(cs@)
            <= days_in_month(year_of(cs@), month_of(cs@))),
{
    if cs.len() < 10 {
        return false;
    }
    if !(digit(cs[0]) && digit(cs[1]) && digit(cs[2]) && digit(cs[3])) {
        return false;
    }
    if cs[4] != '-' || cs[7] != '-' {
        return false;
    }
    if !(digit(cs[5]) && digit(cs[6]) && digit(cs[8]) && digit(cs[9])) {
        return false;
    }
    let y = dval(cs[0]) * 1000 + dval(cs[1]) * 100 + dval(cs[2]) * 10 + dval(cs[3]);
    let m = dval(cs[5]) * 10 + dval(cs[6]);
    let d = dval(cs[8]) * 10 + dval(cs[9]);
    if m < 1 || m > 12 {
        return false;
    }
    let dim: u32 = if m == 2 {
        if (y % 4 == 0 && y % 100 != 0) || y % 400 == 0 {
            29
        } else {
            28
        }
    } else if m == 4 || m == 6 || m == 9 || m == 11 {
        30
    } else {
        31
    };
    1 <= d && d <= dim
}

/// Whether the whole string is a calendar-valid `YYYY-MM-DD`.
pub fn is_valid_date(input: &str) -> (r: bool)
    ensures
        r == valid_ymd(input@),
{
    let cs = chars_of(input);
    cs.len() == 10 && check_ymd_prefix(&cs)
}

/// Normalizes a `published_at` string to an RFC 3339 UTC timestamp.
///
/// `YYYY-MM-DD HH:MM` becomes `YYYY-MM-DDTHH:MM:00Z`, `YYYY-MM-DD` becomes
/// `YYYY-MM-DDT00:00:00Z`, and anything else is returned unchanged.
pub fn format_rfc3339(input: &str) -> (r: String)
    ensures
        r@ == rfc3339_spec(input@),
{
    let cs = chars_of(input);
    let date_ok = check_ymd_prefix(&cs);
    if date_ok && cs.len() == 16 && cs[10] == ' ' && cs[13] == ':' && digit(cs[11]) && digit(
        cs[12],
    ) && digit(cs[14]) && digit(cs[15]) && dval(cs[11]) * 10 + dval(cs[12]) <= 23 && dval(cs[14])
        * 10 + dval(cs[15]) <= 59 {
        let mut out: Vec<char> = Vec::new();
        let mut i: usize = 0;
        while i < 10
            invariant
                i <= 10,
                cs@.len() == 16,
                out@ == cs@.subrange(0, i as int),
            decreases 10 - i,
        {
            out.push(cs[i]);
            proof {
                assert(out@ =~= cs@.subrange(0, i + 1));
            }
            i = i + 1;
        }
        let mut tee = chars_of("T");
        out.append(&mut tee);
        proof {
            assert(out@ =~= cs@.subrange(0, 10) + "T"@ + cs@.subrange(11, 11));
        }
        let mut j: usize = 11;
        while j < 16
            invariant
                11 <= j <= 16,
                cs@.len() == 16,
                out@ == cs@.subrange(0, 10) + "T"@ + cs@.subrange(11, j as int),
            decreases 16 - j,
        {
            out.push(cs[j]);
            proof {
                assert(out@ =~= cs@.subrange(0, 10) + "T"@ + cs@.subrange(11, j + 1));
            }
            j = j + 1;
        }
        let mut tail = chars_of(":00Z");
        out.append(&mut tail);
        let r = string_of(&out);
        proof {
            assert(r@ =~= rfc3339_spec(input@));
        }
        r
    } else if date_ok && cs.len() == 10 {
        let mut out = cs;
        let mut tail = chars_of("T00:00:00Z");
        out.append(&mut tail);
        let r = string_of(&out);
        proof {
            assert(r@ =~= rfc3339_spec(input@));
        }
        r
    } else {
        let r = string_of(&cs);
        proof {
            assert(!valid_ymd(input@) && !valid_ymd_hm(input@));
        }
        r
    }
}

/// Formats a valid `YYYY-MM-DD` for display, long (`Monday, January  5,
/// 2026`) or short (`Jan 05, 2026`); any other string is returned unchanged.
pub fn get_date(input: &str, long: bool) -> (r: String)
    ensures
        r@ == date_display_spec(input@, long),
{
    let cs = chars_of(input);
    if !(cs.len() == 10 && check_ymd_prefix(&cs)) {
        return string_of(&cs);
    }
    let y = dval(cs[0]) * 1000 + dval(cs[1]) * 100 + dval(cs[2]) * 10 + dval(cs[3]);
    let m = dval(cs[5]) * 10 + dval(cs[6]);
    let mut out: Vec<char> = Vec::new();
    if long {
        let d = dval(cs[8]) * 10 + dval(cs[9]);
        let yy: u32 = if m < 3 {
            y + 399
        } else {
            y + 400
        };
        let mt: u32 = month_term_exec(m);
        let w = (yy + yy / 4 - yy / 100 + yy / 400 + mt + d) % 7;
        proof {
            assert(w == day_of_week(year_of(cs@), month_of(cs@), day_of(cs@)));
        }
        let mut part = chars_of(weekday_str(w));
        out.append(&mut part);
        let mut part = chars_of(", ");
        out.append(&mut part);
        let mut part = chars_of(month_long_str(m));
        out.append(&mut part);
        let mut part = chars_of(" ");
        out.append(&mut part);
        if cs[8] == '0' {
            out.push(' ');
            out.push(cs[9]);
        } else {
            out.push(cs[8]);
            out.push(cs[9]);
            proof {
                assert(seq![cs@[8], cs@[9]] =~= cs@.subrange(8, 10));
            }
        }
        let mut part = chars_of(", ");
        out.append(&mut part);
        out.push(cs[0]);
        out.push(cs[1]);
        out.push(cs[2]);
        out.push(cs[3]);
        proof {
            assert(seq![cs@[0], cs@[1], cs@[2], cs@[3]] =~= cs@.subrange(0, 4));
            assert(out@ =~= date_display_spec(input@, long));
        }
    } else {
        let mut part = chars_of(month_short_str(m));
        out.append(&mut part);
        let mut part = chars_of(" ");
        out.append(&mut part);
        out.push(cs[8]);
        out.push(cs[9]);
        let mut part = chars_of(", ");
        out.append(&mut part);
        out.push(cs[0]);
        out.push(cs[1]);
        out.push(cs[2]);
        out.push(cs[3]);
        proof {
            assert(seq![cs@[8], cs@[9]] =~= cs@.subrange(8, 10));
            assert(seq![cs@[0], cs@[1], cs@[2], cs@[3]] =~= cs@.subrange(0, 4));
            assert(out@ =~= date_display_spec(input@, long));
        }
    }
    string_of(&out)
}

fn month_term_exec(m: u32) -> (r: u32)
    requires
        1 <= m <= 12,
    ensures
        r == month_term(m as int),
{
    if m == 1 {
        0
    } else if m == 2 {
        3
    } else if m == 3 {
        2
    } else if m == 4 {
        5
    } else if m == 5 {
        0
    } else if m == 6 {
        3
    } else if m == 7 {
        5
    } else if m == 8 {
        1
    } else if m == 9 {
        4
    } else if m == 10 {
        6
    } else if m == 11 {
        2
    } else {
        4
    }
}

fn weekday_str(w: u32) -> (r: &'static str)
    requires
        w < 7,
    ensures
        r@ == weekday_name(w as int),
{
    if w == 0 {
        "Sunday"
    } else if w == 1 {
        "Monday"
    } else if w == 2 {
        "Tuesday"
    } else if w == 3 {
        "Wednesday"
    } else if w == 4 {
        "Thursday"
    } else if w == 5 {
        "Friday"
    } else {
        "Saturday"
    }
}

fn month_long_str(m: u32) -> (r: &'static str)
    requires
        1 <= m <= 12,
    ensures
        r@ == month_long(m as int),
{
    if m == 1 {
        "January"
    } else if m == 2 {
        "February"
    } else if m == 3 {
        "March"
    } else if m == 4 {
        "April"
    } else if m == 5 {
        "May"
    } else if m == 6 {
        "June"
    } else if m == 7 {
        "July"
    } else if m == 8 {
        "August"
    } else if m == 9 {
        "September"
    } else if m == 10 {
        "October"
    } else if m == 11 {
        "November"
    } else {
        "December"
    }
}

fn month_short_str(m: u32) -> (r: &'static str)
    requires
        1 <= m <= 12,
    ensures
        r@ == month_short(m as int),
{
    if m == 1 {
        "Jan"
    } else if m == 2 {
        "Feb"
    } else if m == 3 {
        "Mar"
    } else if m == 4 {
        "Apr"
    } else if m == 5 {
        "May"
    } else if m == 6 {
        "Jun"
    } else if m == 7 {
        "Jul"
    } else if m == 8 {
        "Aug"
    } else if m == 9 {
        "Sep"
    } else if m == 10 {
        "Oct"
    } else if m == 11 {
        "Nov"
    } else {
        "Dec"
    }
}

} // verus!
