use vstd::prelude::*;
use vstd::string::*;

verus! {

/// The wire format for due dates: zero-padded day, zero-padded month and a
/// four-digit year, separated by dashes, as in `05-03-2024`.
pub open spec fn is_digit(c: char) -> bool {
    48 <= c as int && c as int <= 57
}

pub open spec fn digit_val(c: char) -> int {
    c as int - 48
}

pub open spec fn date_shape(s: Seq<char>) -> bool {
    &&& s.len() == 10
    &&& s[2] == '-'
    &&& s[5] == '-'
    &&& is_digit(s[0])
    &&& is_digit(s[1])
    &&& is_digit(s[3])
    &&& is_digit(s[4])
    &&& is_digit(s[6])
    &&& is_digit(s[7])
    &&& is_digit(s[8])
    &&& is_digit(s[9])
}

pub open spec fn spec_day(s: Seq<char>) -> int {
    10 * digit_val(s[0]) + digit_val(s[1])
}

pub open spec fn spec_month(s: Seq<char>) -> int {
    10 * digit_val(s[3]) + digit_val(s[4])
}

pub open spec fn spec_year(s: Seq<char>) -> int {
    1000 * digit_val(s[6]) + 100 * digit_val(s[7]) + 10 * digit_val(s[8]) + digit_val(s[9])
}

pub open spec fn is_leap_year(y: int) -> bool {
    (y % 4 == 0 && y % 100 != 0) || y % 400 == 0
}

pub open spec fn days_in_month(y: int, m: int) -> int {
    if m == 2 {
        if is_leap_year(y) {
            29
        } else {
            28
        }
    } else if m == 4 || m == 6 || m == 9 || m == 11 {
        30
    } else {
        31
    }
}

/// A string is an acceptable due date when it has the fixed shape and names a
/// real day of the proleptic Gregorian calendar.
pub open spec fn valid_date(s: Seq<char>) -> bool {
    &&& date_shape(s)
    &&& 1 <= spec_month(s) <= 12
    &&& 1 <= spec_day(s) <= days_in_month(spec_year(s), spec_month(s))
}

/// Reads one digit character; the caller has already checked the bounds.
fn read_digit(s: &str, i: usize) -> (r: Option<u32>)
    requires
        i < s@.len(),
    ensures
        r matches Some(v) ==> is_digit(s@[i as int]) && v == digit_val(s@[i as int]),
        r is None ==> !is_digit(s@[i as int]),
{
    let c = s.get_char(i);
    let u = c as u32;
    if 48 <= u && u <= 57 {
        Some(u - 48)
    } else {
        None
    }
}

/// Parses a due-date string under the fixed format, returning day, month and
/// year exactly when the string is acceptable.
pub fn parse_date(date: &String) -> (r: Option<(u32, u32, u32)>)
    ensures
        r is Some <==> valid_date(date@),
        r matches Some(t) ==> t.0 == spec_day(date@) && t.1 == spec_month(date@) && t.2
            == spec_year(date@),
{
    let s = date.as_str();
    if s.unicode_len() != 10 {
        return None;
    }
    if s.get_char(2) != '-' || s.get_char(5) != '-' {
        return None;
    }
    let d0 = match read_digit(s, 0) {
        Some(v) => v,
        None => return None,
    };
    let d1 = match read_digit(s, 1) {
        Some(v) => v,
        None => return None,
    };
    let m0 = match read_digit(s, 3) {
        Some(v) => v,
        None => return None,
    };
    let m1 = match read_digit(s, 4) {
        Some(v) => v,
        None => return None,
    };
    let y0 = match read_digit(s, 6) {
        Some(v) => v,
        None => return None,
    };
    let y1 = match read_digit(s, 7) {
        Some(v) => v,
        None => return None,
    };
    let y2 = match read_digit(s, 8) {
        Some(v) => v,
        None => return None,
    };
    let y3 = match read_digit(s, 9) {
        Some(v) => v,
        None => return None,
    };
    let day = 10 * d0 + d1;
    let month = 10 * m0 + m1;
    let year = 1000 * y0 + 100 * y1 + 10 * y2 + y3;
    if month < 1 || month > 12 {
        return None;
    }
    let limit: u32 = if month == 2 {
        if (year % 4 == 0 && year % 100 != 0) || year % 400 == 0 {
            29
        } else {
            28
        }
    } else if month == 4 || month == 6 || month == 9 || month == 11 {
        30
    } else {
        31
    };
    if day < 1 || day > limit {
        return None;
    }
    Some((day, month, year))
}

/// Tells whether a user-supplied due date is acceptable.
pub fn validate_date(date: &String) -> (b: bool)
    ensures
        b == valid_date(date@),
{
    parse_date(date).is_some()
}

/// Each calendar date has exactly one acceptable spelling: two accepted
/// strings that parse to the same day, month and year are the same string, so
/// re-rendering a parsed date gives back the characters that were supplied.
pub proof fn lemma_date_round_trip(s1: Seq<char>, s2: Seq<char>)
    requires
        valid_date(s1),
        valid_date(s2),
        spec_day(s1) == spec_day(s2),
        spec_month(s1) == spec_month(s2),
        spec_year(s1) == spec_year(s2),
    ensures
        s1 == s2,
{
    lemma_two_digit_unique(s1[0], s1[1], s2[0], s2[1]);
    lemma_two_digit_unique(s1[3], s1[4], s2[3], s2[4]);
    lemma_four_digit_unique(s1[6], s1[7], s1[8], s1[9], s2[6], s2[7], s2[8], s2[9]);
    assert(s1 =~= s2);
}

proof fn lemma_digit_char_unique(c1: char, c2: char)
    requires
        is_digit(c1),
        is_digit(c2),
        digit_val(c1) == digit_val(c2),
    ensures
        c1 == c2,
{
    assert(c1 as u32 == c2 as u32);
    vstd::utf8::char_u32_cast(c1, c1 as u32);
    vstd::utf8::char_u32_cast(c2, c2 as u32);
}

proof fn lemma_two_digit_unique(a1: char, b1: char, a2: char, b2: char)
    requires
        is_digit(a1),
        is_digit(b1),
        is_digit(a2),
        is_digit(b2),
        10 * digit_val(a1) + digit_val(b1) == 10 * digit_val(a2) + digit_val(b2),
    ensures
        a1 == a2,
        b1 == b2,
{
    lemma_digit_char_unique(a1, a2);
    lemma_digit_char_unique(b1, b2);
}

proof fn lemma_four_digit_unique(
    a1: char,
    b1: char,
    c1: char,
    d1: char,
    a2: char,
    b2: char,
    c2: char,
    d2: char,
)
    requires
        is_digit(a1),
        is_digit(b1),
        is_digit(c1),
        is_digit(d1),
        is_digit(a2),
        is_digit(b2),
        is_digit(c2),
        is_digit(d2),
        1000 * digit_val(a1) + 100 * digit_val(b1) + 10 * digit_val(c1) + digit_val(d1) == 1000
            * digit_val(a2) + 100 * digit_val(b2) + 10 * digit_val(c2) + digit_val(d2),
    ensures
        a1 == a2,
        b1 == b2,
        c1 == c2,
        d1 == d2,
{
    lemma_digit_char_unique(a1, a2);
    lemma_digit_char_unique(b1, b2);
    lemma_digit_char_unique(c1, c2);
    lemma_digit_char_unique(d1, d2);
}

/// Relies on chrono's `%d-%m-%Y` formatting of the current local day. No
/// shape is promised: chrono writes years outside 0..=9999 with a sign, so
/// the caller checks the result with the validator and falls back if it is
/// not acceptable. The time is read through SystemTime with every error
/// handled, so a clock before the Unix epoch or out of chrono's range cannot
/// panic here; such clocks yield the epoch day or an empty string.
#[verifier::external_body]
pub(crate) fn today_string() -> (r: String) {
    let secs: i64 = match std::time::SystemTime::now().duration_since(std::time::UNIX_EPOCH) {
        Ok(d) => i64::try_from(d.as_secs()).unwrap_or(0),
        Err(_) => 0,
    };
    match chrono::DateTime::from_timestamp(secs, 0) {
        Some(utc) => utc.with_timezone(&chrono::Local).format("%d-%m-%Y").to_string(),
        None => String::new(),
    }
}

/// The day this library falls back to when the clock cannot provide one in
/// the fixed format: the Unix epoch's date.
pub(crate) fn epoch_date() -> (r: String)
    ensures
        valid_date(r@),
{
    let s: String = "01-01-1970".to_owned();
    proof {
        reveal_strlit("01-01-1970");
        assert(valid_date(s@));
    }
    s
}

} // verus!
