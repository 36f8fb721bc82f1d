//! Calendar date and time of day, held as plain fields, together with the
//! one text form the library accepts and produces: `DD-MM-YYYY HH:MM:SS`,
//! zero padded, on a 24-hour clock, with the year between 0000 and 9999.
use vstd::prelude::*;

verus! {

/// A point in time: a calendar date with a time of day, no zone attached.
#[derive(Clone, Copy, PartialEq, Eq, Structural, Debug)]
pub struct DueDate {
    pub day: u32,
    pub month: u32,
    pub year: u32,
    pub hour: u32,
    pub minute: u32,
    pub second: u32,
}

pub open spec fn is_leap_year(y: int) -> bool {
    y % 4 == 0 && (y % 100 != 0 || y % 400 == 0)
}

pub open spec fn days_in_month(y: int, m: int) -> int {
    if m == 2 {
        if is_leap_year(y) {
            29
        } else {
            28
        }
    } else if m == 4 || m == 6 || m == 9 || m == 11 {
        30
    } else {
        31
    }
}

/// A `DueDate` the library accepts: a real calendar date with a valid time
/// of day, in the four-digit-year range.
pub open spec fn valid_date(d: DueDate) -> bool {
    &&& 1 <= d.month <= 12
    &&& 1 <= d.day <= days_in_month(d.year as int, d.month as int)
    &&& d.year <= 9999
    &&& d.hour <= 23
    &&& d.minute <= 59
    &&& d.second <= 59
}

pub open spec fn is_digit(c: char) -> bool {
    48 <= c as u32 <= 57
}

pub open spec fn digit_val(c: char) -> int {
    c as u32 - 48
}

/// The character for one decimal digit.
pub open spec fn digit_char(v: int) -> char {
    if v == 0 {
        '0'
    } else if v == 1 {
        '1'
    } else if v == 2 {
        '2'
    } else if v == 3 {
        '3'
    } else if v == 4 {
        '4'
    } else if v == 5 {
        '5'
    } else if v == 6 {
        '6'
    } else if v == 7 {
        '7'
    } else if v == 8 {
        '8'
    } else {
        '9'
    }
}

pub open spec fn two_digit_val(s: Seq<char>, i: int) -> int {
    10 * digit_val(s[i]) + digit_val(s[i + 1])
}

pub open spec fn four_digit_val(s: Seq<char>, i: int) -> int {
    1000 * digit_val(s[i]) + 100 * digit_val(s[i + 1]) + 10 * digit_val(s[i + 2]) + digit_val(
        s[i + 3],
    )
}

/// The text has exactly the shape `DD-MM-YYYY HH:MM:SS`: nineteen
/// characters, digits and the three kinds of separator in fixed places.
pub open spec fn date_text_shaped(s: Seq<char>) -> bool {
    &&& s.len() == 19
    &&& is_digit(s[0]) && is_digit(s[1])
    &&& s[2] == '-'
    &&& is_digit(s[3]) && is_digit(s[4])
    &&& s[5] == '-'
    &&& is_digit(s[6]) && is_digit(s[7]) && is_digit(s[8]) && is_digit(s[9])
    &&& s[10] == ' '
    &&& is_digit(s[11]) && is_digit(s[12])
    &&& s[13] == ':'
    &&& is_digit(s[14]) && is_digit(s[15])
    &&& s[16] == ':'
    &&& is_digit(s[17]) && is_digit(s[18])
}

/// The fields a shaped text denotes, read off by position.
pub open spec fn date_of_text(s: Seq<char>) -> DueDate {
    DueDate {
        day: two_digit_val(s, 0) as u32,
        month: two_digit_val(s, 3) as u32,
        year: four_digit_val(s, 6) as u32,
        hour: two_digit_val(s, 11) as u32,
        minute: two_digit_val(s, 14) as u32,
        second: two_digit_val(s, 17) as u32,
    }
}

/// What parsing a due-date text yields: the date when the text is shaped
/// and denotes a real calendar date, nothing otherwise.
pub open spec fn spec_parse_date(s: Seq<char>) -> Option<DueDate> {
    if date_text_shaped(s) && valid_date(date_of_text(s)) {
        Some(date_of_text(s))
    } else {
        None
    }
}

/// The one text form of a valid date: `DD-MM-YYYY HH:MM:SS`.
pub open spec fn spec_format_date(d: DueDate) -> Seq<char> {
    seq![
        digit_char(d.day as int / 10),
        digit_char(d.day as int % 10),
        '-',
        digit_char(d.month as int / 10),
        digit_char(d.month as int % 10),
        '-',
        digit_char(d.year as int / 1000),
        digit_char((d.year as int / 100) % 10),
        digit_char((d.year as int / 10) % 10),
        digit_char(d.year as int % 10),
        ' ',
        digit_char(d.hour as int / 10),
        digit_char(d.hour as int % 10),
        ':',
        digit_char(d.minute as int / 10),
        digit_char(d.minute as int % 10),
        ':',
        digit_char(d.second as int / 10),
        digit_char(d.second as int % 10),
    ]
}

pub(crate) proof fn lemma_digit_char_val(v: int)
    requires
        0 <= v <= 9,
    ensures
        is_digit(digit_char(v)),
        digit_val(digit_char(v)) == v,
{
}

/// Formatting a valid date and parsing the result gives the date back:
/// the text form is faithful.
pub proof fn lemma_format_parse_date(d: DueDate)
    requires
        valid_date(d),
    ensures
        spec_parse_date(spec_format_date(d)) == Some(d),
{
    let s = spec_format_date(d);
    lemma_digit_char_val(d.day as int / 10);
    lemma_digit_char_val(d.day as int % 10);
    lemma_digit_char_val(d.month as int / 10);
    lemma_digit_char_val(d.month as int % 10);
    lemma_digit_char_val(d.year as int / 1000);
    lemma_digit_char_val((d.year as int / 100) % 10);
    lemma_digit_char_val((d.year as int / 10) % 10);
    lemma_digit_char_val(d.year as int % 10);
    lemma_digit_char_val(d.hour as int / 10);
    lemma_digit_char_val(d.hour as int % 10);
    lemma_digit_char_val(d.minute as int / 10);
    lemma_digit_char_val(d.minute as int % 10);
    lemma_digit_char_val(d.second as int / 10);
    lemma_digit_char_val(d.second as int % 10);
    assert(date_text_shaped(s));
    assert(two_digit_val(s, 0) == d.day);
    assert(two_digit_val(s, 3) == d.month);
    assert(four_digit_val(s, 6) == d.year) by {
        assert(1000 * (d.year as int / 1000) + 100 * ((d.year as int / 100) % 10) + 10 * ((
        d.year as int / 10) % 10) + d.year as int % 10 == d.year as int);
    }
    assert(two_digit_val(s, 11) == d.hour);
    assert(two_digit_val(s, 14) == d.minute);
    assert(two_digit_val(s, 17) == d.second);
    assert(date_of_text(s) == d);
}

/// Reads one character as a decimal digit.
pub(crate) fn digit_of_char(c: char) -> (r: Option<u32>)
    ensures
        r matches Some(v) ==> is_digit(c) && v == digit_val(c) && v <= 9,
        r is None ==> !is_digit(c),
{
    let u = c as u32;
    if 48 <= u && u <= 57 {
        Some(u - 48)
    } else {
        None
    }
}

/// The one-character string for a decimal digit.
pub(crate) fn digit_str(v: u32) -> (r: &'static str)
    requires
        v <= 9,
    ensures
        r@ == seq![digit_char(v as int)],
{
    proof {
        reveal_strlit("0");
        reveal_strlit("1");
        reveal_strlit("2");
        reveal_strlit("3");
        reveal_strlit("4");
        reveal_strlit("5");
        reveal_strlit("6");
        reveal_strlit("7");
        reveal_strlit("8");
        reveal_strlit("9");
    }
    let r = match v {
        0 => "0",
        1 => "1",
        2 => "2",
        3 => "3",
        4 => "4",
        5 => "5",
        6 => "6",
        7 => "7",
        8 => "8",
        _ => "9",
    };
    proof {
        assert(r@ =~= seq![digit_char(v as int)]);
    }
    r
}

/// Appends a value below one hundred as two zero-padded digits.
fn push_two_digits(out: &mut String, v: u32)
    requires
        v <= 99,
    ensures
        final(out)@ == old(out)@ + seq![
            digit_char(v as int / 10),
            digit_char(v as int % 10),
        ],
{
    out.append(digit_str(v / 10));
    out.append(digit_str(v % 10));
    proof {
        assert(final(out)@ =~= old(out)@ + seq![
            digit_char(v as int / 10),
            digit_char(v as int % 10),
        ]);
    }
}

/// Renders a valid date in its one text form.
pub fn format_date(d: &DueDate) -> (r: String)
    requires
        valid_date(*d),
    ensures
        r@ == spec_format_date(*d),
{
    proof {
        reveal_strlit("-");
        reveal_strlit(" ");
        reveal_strlit(":");
    }
    let mut out = String::new();
    push_two_digits(&mut out, d.day);
    out.append("-");
    push_two_digits(&mut out, d.month);
    out.append("-");
    push_two_digits(&mut out, d.year / 100);
    push_two_digits(&mut out, d.year % 100);
    out.append(" ");
    push_two_digits(&mut out, d.hour);
    out.append(":");
    push_two_digits(&mut out, d.minute);
    out.append(":");
    push_two_digits(&mut out, d.second);
    proof {
        assert((d.year / 100) as int / 10 == d.year as int / 1000);
        assert((d.year / 100) as int % 10 == (d.year as int / 100) % 10);
        assert((d.year % 100) as int / 10 == (d.year as int / 10) % 10);
        assert((d.year % 100) as int % 10 == d.year as int % 10);
        assert(out@ =~= spec_format_date(*d));
    }
    out
}

/// Whether the date is a real calendar date with a valid time of day.
fn check_valid_date(d: &DueDate) -> (r: bool)
    ensures
        r == valid_date(*d),
{
    let dim: u32 = if d.month == 2 {
        if d.year % 4 == 0 && (d.year % 100 != 0 || d.year % 400 == 0) {
            29
        } else {
            28
        }
    } else if d.month == 4 || d.month == 6 || d.month == 9 || d.month == 11 {
        30
    } else {
        31
    };
    1 <= d.month && d.month <= 12 && 1 <= d.day && d.day <= dim && d.year <= 9999 && d.hour <= 23
        && d.minute <= 59 && d.second <= 59
}

/// Parses a due-date text: `DD-MM-YYYY HH:MM:SS`, zero padded, denoting a
/// real calendar date; anything else yields nothing.
pub fn parse_date(s: &str) -> (r: Option<DueDate>)
    ensures
        r == spec_parse_date(s@),
{
    proof {
        reveal_strlit("-");
        reveal_strlit(" ");
        reveal_strlit(":");
    }
    if s.unicode_len() != 19 {
        return None;
    }
    let c2 = s.get_char(2);
    let c5 = s.get_char(5);
    let c10 = s.get_char(10);
    let c13 = s.get_char(13);
    let c16 = s.get_char(16);
    if !(c2 as u32 == 45 && c5 as u32 == 45 && c10 as u32 == 32 && c13 as u32 == 58 && c16 as u32
        == 58) {
        proof {
            assert('-' as u32 == 45 && ' ' as u32 == 32 && ':' as u32 == 58);
        }
        return None;
    }
    proof {
        assert(c2 == '-' && c5 == '-' && c10 == ' ' && c13 == ':' && c16 == ':') by {
            assert('-' as u32 == 45 && ' ' as u32 == 32 && ':' as u32 == 58);
        }
    }
    let day = match read_two_digits(s, 0) {
        Some(v) => v,
        None => {
            return None;
        },
    };
    let month = match read_two_digits(s, 3) {
        Some(v) => v,
        None => {
            return None;
        },
    };
    let year_hi = match read_two_digits(s, 6) {
        Some(v) => v,
        None => {
            return None;
        },
    };
    let year_lo = match read_two_digits(s, 8) {
        Some(v) => v,
        None => {
            return None;
        },
    };
    let hour = match read_two_digits(s, 11) {
        Some(v) => v,
        None => {
            return None;
        },
    };
    let minute = match read_two_digits(s, 14) {
        Some(v) => v,
        None => {
            return None;
        },
    };
    let second = match read_two_digits(s, 17) {
        Some(v) => v,
        None => {
            return None;
        },
    };
    let d = DueDate { day, month, year: year_hi * 100 + year_lo, hour, minute, second };
    proof {
        assert(date_text_shaped(s@));
        assert(d.year == four_digit_val(s@, 6));
        assert(d == date_of_text(s@));
    }
    if check_valid_date(&d) {
        Some(d)
    } else {
        None
    }
}

/// Reads two consecutive characters as a zero-padded two-digit value.
fn read_two_digits(s: &str, i: usize) -> (r: Option<u32>)
    requires
        i <= 17,
        i + 2 <= s@.len(),
    ensures
        r matches Some(v) ==> is_digit(s@[i as int]) && is_digit(s@[i + 1]) && v == two_digit_val(
            s@,
            i as int,
        ) && v <= 99,
        r is None ==> !(is_digit(s@[i as int]) && is_digit(s@[i + 1])),
{
    let hi = match digit_of_char(s.get_char(i)) {
        Some(v) => v,
        None => {
            return None;
        },
    };
    let lo = match digit_of_char(s.get_char(i + 1)) {
        Some(v) => v,
        None => {
            return None;
        },
    };
    Some(hi * 10 + lo)
}

/// The chronological rank of a date: strictly increasing in the field
/// order year, month, day, hour, minute, second over valid dates.
pub open spec fn date_key(d: DueDate) -> int {
    ((((d.year * 12 + (d.month - 1)) * 31 + (d.day - 1)) * 24 + d.hour) * 60 + d.minute) * 60
        + d.second
}

/// Chronological order on dates: the field order year, month, day, hour,
/// minute, second, compared lexicographically.
pub open spec fn date_le(a: DueDate, b: DueDate) -> bool {
    if a.year != b.year {
        a.year < b.year
    } else if a.month != b.month {
        a.month < b.month
    } else if a.day != b.day {
        a.day < b.day
    } else if a.hour != b.hour {
        a.hour < b.hour
    } else if a.minute != b.minute {
        a.minute < b.minute
    } else {
        a.second <= b.second
    }
}

/// Over valid dates the chronological rank orders exactly as the
/// lexicographic field order does.
pub proof fn lemma_date_key_orders(a: DueDate, b: DueDate)
    requires
        valid_date(a),
        valid_date(b),
    ensures
        date_key(a) <= date_key(b) <==> date_le(a, b),
{
}

/// The rank of a valid date fits comfortably below `u64::MAX`.
pub proof fn lemma_date_key_bound(d: DueDate)
    requires
        valid_date(d),
    ensures
        0 <= date_key(d) < 0x10000000000,
{
}

/// Computes the chronological rank.
pub fn date_key_exec(d: &DueDate) -> (r: u64)
    requires
        valid_date(*d),
    ensures
        r == date_key(*d),
{
    proof {
        lemma_date_key_bound(*d);
    }
    let y = d.year as u64;
    let mo = d.month as u64;
    let da = d.day as u64;
    ((((y * 12 + (mo - 1)) * 31 + (da - 1)) * 24 + d.hour as u64) * 60 + d.minute as u64) * 60
        + d.second as u64
}

} // verus!
