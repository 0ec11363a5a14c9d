use crate::record::{DateParts, Element, TimeParts, Value, Vr};
use crate::text::{
    all_digits, chars_of, digits_value, join_texts, padded, push_chars, push_padded, read_number,
    trim_pad, trimmed_pad, views,
};
use vstd::prelude::*;

verus! {

/// Why a literal could not be turned into a value of the requested type.
#[derive(Clone, Copy, Debug, PartialEq, Eq, Structural)]
pub enum ValueError {
    /// A date is not eight digits `YYYYMMDD` naming a real calendar day.
    Date,
    /// A time is not six digits `HHMMSS` naming a valid time of day.
    Time,
    /// A date-time is not `YYYYMMDD` + `T` + `HHMMSS`.
    DateTime,
}

pub open spec fn is_leap_year(y: int) -> bool {
    y % 4 == 0 && (y % 100 != 0 || y % 400 == 0)
}

pub open spec fn days_in_month(y: int, m: int) -> int {
    if m == 2 {
        if is_leap_year(y) {
            29
        } else {
            28
        }
    } else if m == 4 || m == 6 || m == 9 || m == 11 {
        30
    } else {
        31
    }
}

/// A day of the proleptic Gregorian calendar.
pub open spec fn is_calendar_day(y: int, m: int, d: int) -> bool {
    1 <= m <= 12 && 1 <= d <= days_in_month(y, m)
}

/// Relies on chrono's `NaiveDate::from_ymd_opt`: `Some` exactly for a real
/// calendar day (the years admitted lie inside chrono's range).
#[verifier::external_body]
fn calendar_day_exists(year: i32, month: u32, day: u32) -> (r: bool)
    requires
        0 <= year <= 9999,
    ensures
        r == is_calendar_day(year as int, month as int, day as int),
{
    dicom::core::chrono::NaiveDate::from_ymd_opt(year, month, day).is_some()
}

/// Relies on dicom's `DicomTime::from_hms`: it accepts hours up to 23,
/// minutes up to 59 and seconds up to 60.
#[verifier::external_body]
fn time_of_day_valid(hour: u8, minute: u8, second: u8) -> (r: bool)
    ensures
        r == (hour <= 23 && minute <= 59 && second <= 60),
{
    dicom::core::value::DicomTime::from_hms(hour, minute, second).is_ok()
}

/// The date written `YYYYMMDD` by `s`, if it names a calendar day.
pub open spec fn parse_date(s: Seq<char>) -> Option<DateParts> {
    if s.len() == 8 && all_digits(s) {
        let y = digits_value(s.subrange(0, 4));
        let m = digits_value(s.subrange(4, 6));
        let d = digits_value(s.subrange(6, 8));
        if is_calendar_day(y as int, m as int, d as int) {
            Some(DateParts { year: y as u16, month: m as u8, day: d as u8 })
        } else {
            None
        }
    } else {
        None
    }
}

/// The time written `HHMMSS` by `s`, if it names a valid time of day.
pub open spec fn parse_time(s: Seq<char>) -> Option<TimeParts> {
    if s.len() == 6 && all_digits(s) {
        let h = digits_value(s.subrange(0, 2));
        let m = digits_value(s.subrange(2, 4));
        let x = digits_value(s.subrange(4, 6));
        if h <= 23 && m <= 59 && x <= 60 {
            Some(TimeParts { hour: h as u8, minute: m as u8, second: x as u8 })
        } else {
            None
        }
    } else {
        None
    }
}

/// The date-time written `YYYYMMDDTHHMMSS` by `s`, if valid.
pub open spec fn parse_date_time(s: Seq<char>) -> Option<(DateParts, TimeParts)> {
    if s.len() == 15 && s[8] == 'T' {
        match (parse_date(s.subrange(0, 8)), parse_time(s.subrange(9, 15))) {
            (Some(d), Some(t)) => Some((d, t)),
            _ => None,
        }
    } else {
        None
    }
}

/// Value representations whose values are lists of short strings.
pub open spec fn is_string_list_vr(vr: Vr) -> bool {
    vr == Vr::AE || vr == Vr::AS || vr == Vr::PN || vr == Vr::SH || vr == Vr::CS || vr == Vr::LO
        || vr == Vr::UI || vr == Vr::UC
}

/// `v` is the value of type `vr` written by the text `s`.
pub open spec fn is_typed_value(vr: Vr, s: Seq<char>, v: Value) -> bool {
    if is_string_list_vr(vr) {
        v matches Value::Strs(l) && l@.len() == 1 && l@[0]@ == s
    } else if vr == Vr::DA {
        parse_date(s) matches Some(d) && v == Value::Date(d)
    } else if vr == Vr::TM {
        parse_time(s) matches Some(t) && v == Value::Time(t)
    } else if vr == Vr::DT {
        parse_date_time(s) matches Some(p) && v == Value::DateTime(p.0, p.1)
    } else {
        v matches Value::Str(t) && t@ == s
    }
}

/// Whether the text `s` can be a value of type `vr`.
pub open spec fn typed_value_exists(vr: Vr, s: Seq<char>) -> bool {
    if vr == Vr::DA {
        parse_date(s) is Some
    } else if vr == Vr::TM {
        parse_time(s) is Some
    } else if vr == Vr::DT {
        parse_date_time(s) is Some
    } else {
        true
    }
}

/// The error reported for a malformed value of type `vr`.
pub open spec fn error_for(vr: Vr) -> ValueError {
    if vr == Vr::DA {
        ValueError::Date
    } else if vr == Vr::TM {
        ValueError::Time
    } else {
        ValueError::DateTime
    }
}

fn all_digits_in(s: &Vec<char>, from: usize, to: usize) -> (r: bool)
    requires
        from <= to <= s@.len(),
    ensures
        r == all_digits(s@.subrange(from as int, to as int)),
{
    let mut i = from;
    while i < to
        invariant
            from <= i <= to <= s@.len(),
            all_digits(s@.subrange(from as int, i as int)),
        decreases to - i,
    {
        if !('0' <= s[i] && s[i] <= '9') {
            assert(s@.subrange(from as int, to as int)[i - from] == s@[i as int]);
            return false;
        }
        assert forall|k: int| 0 <= k < i + 1 - from implies crate::text::is_digit(
            #[trigger] s@.subrange(from as int, i + 1)[k],
        ) by {
            if k < i - from {
                assert(s@.subrange(from as int, i + 1)[k] == s@.subrange(from as int, i as int)[k]);
            }
        }
        i = i + 1;
    }
    true
}

proof fn lemma_sub_sub(s: Seq<char>, a: int, b: int, c: int, d: int)
    requires
        0 <= a <= b <= s.len(),
        0 <= c <= d <= b - a,
    ensures
        s.subrange(a, b).subrange(c, d) == s.subrange(a + c, a + d),
{
    assert(s.subrange(a, b).subrange(c, d) =~= s.subrange(a + c, a + d));
}

proof fn lemma_all_digits_sub(s: Seq<char>, a: int, b: int)
    requires
        all_digits(s),
        0 <= a <= b <= s.len(),
    ensures
        all_digits(s.subrange(a, b)),
{
    assert forall|k: int| 0 <= k < b - a implies crate::text::is_digit(#[trigger] s.subrange(a, b)[k]) by {
        assert(s.subrange(a, b)[k] == s[a + k]);
    }
}

/// Reads `YYYYMMDD` at `s[at..at + 8]`.
fn read_date(s: &Vec<char>, at: usize) -> (r: Option<DateParts>)
    requires
        at + 8 <= s@.len(),
    ensures
        r == parse_date(s@.subrange(at as int, at + 8)),
{
    let ghost w = s@.subrange(at as int, at + 8);
    let _n = s.len();
    if !all_digits_in(s, at, at + 8) {
        return None;
    }
    proof {
        lemma_sub_sub(s@, at as int, at + 8, 0, 4);
        lemma_sub_sub(s@, at as int, at + 8, 4, 6);
        lemma_sub_sub(s@, at as int, at + 8, 6, 8);
        lemma_all_digits_sub(w, 0, 4);
        lemma_all_digits_sub(w, 4, 6);
        lemma_all_digits_sub(w, 6, 8);
    }
    let y = read_number(s, at, at + 4);
    let m = read_number(s, at + 4, at + 6);
    let d = read_number(s, at + 6, at + 8);
    proof {
        crate::text::lemma_digits_bound(w.subrange(0, 4));
        crate::text::lemma_digits_bound(w.subrange(4, 6));
        crate::text::lemma_digits_bound(w.subrange(6, 8));
        reveal_with_fuel(crate::text::pow10, 5);
    }
    if calendar_day_exists(y as i32, m, d) {
        Some(DateParts { year: y as u16, month: m as u8, day: d as u8 })
    } else {
        None
    }
}

/// Reads `HHMMSS` at `s[at..at + 6]`.
fn read_time(s: &Vec<char>, at: usize) -> (r: Option<TimeParts>)
    requires
        at + 6 <= s@.len(),
    ensures
        r == parse_time(s@.subrange(at as int, at + 6)),
{
    let ghost w = s@.subrange(at as int, at + 6);
    let _n = s.len();
    if !all_digits_in(s, at, at + 6) {
        return None;
    }
    proof {
        lemma_sub_sub(s@, at as int, at + 6, 0, 2);
        lemma_sub_sub(s@, at as int, at + 6, 2, 4);
        lemma_sub_sub(s@, at as int, at + 6, 4, 6);
        lemma_all_digits_sub(w, 0, 2);
        lemma_all_digits_sub(w, 2, 4);
        lemma_all_digits_sub(w, 4, 6);
        crate::text::lemma_digits_bound(w.subrange(0, 2));
        crate::text::lemma_digits_bound(w.subrange(2, 4));
        crate::text::lemma_digits_bound(w.subrange(4, 6));
        reveal_with_fuel(crate::text::pow10, 3);
    }
    let h = read_number(s, at, at + 2);
    let m = read_number(s, at + 2, at + 4);
    let x = read_number(s, at + 4, at + 6);
    if time_of_day_valid(h as u8, m as u8, x as u8) {
        Some(TimeParts { hour: h as u8, minute: m as u8, second: x as u8 })
    } else {
        None
    }
}

/// Turns the text `value` into a value of type `vr`: a one-string list for
/// the short string types, a calendar date for `DA` (`YYYYMMDD`), a time for
/// `TM` (`HHMMSS`), both for `DT` (`YYYYMMDDTHHMMSS`), and one free-text
/// string otherwise. Malformed dates and times are errors.
pub fn dicom_vr_corrected_value(vr: Vr, value: &String) -> (r: Result<Value, ValueError>)
    ensures
        r is Ok <==> typed_value_exists(vr, value@),
        r matches Ok(v) ==> is_typed_value(vr, value@, v),
        r matches Err(e) ==> e == error_for(vr),
{
    match vr {
        Vr::AE | Vr::AS | Vr::PN | Vr::SH | Vr::CS | Vr::LO | Vr::UI | Vr::UC => {
            Ok(Value::Strs(vec![value.clone()]))
        },
        Vr::DA => {
            let s = chars_of(value.as_str());
            if s.len() != 8 {
                return Err(ValueError::Date);
            }
            assert(s@.subrange(0, 8) == s@);
            match read_date(&s, 0) {
                Some(d) => Ok(Value::Date(d)),
                None => Err(ValueError::Date),
            }
        },
        Vr::TM => {
            let s = chars_of(value.as_str());
            if s.len() != 6 {
                return Err(ValueError::Time);
            }
            assert(s@.subrange(0, 6) == s@);
            match read_time(&s, 0) {
                Some(t) => Ok(Value::Time(t)),
                None => Err(ValueError::Time),
            }
        },
        Vr::DT => {
            let s = chars_of(value.as_str());
            if s.len() != 15 || s[8] != 'T' {
                return Err(ValueError::DateTime);
            }
            let d = read_date(&s, 0);
            let t = read_time(&s, 9);
            match (d, t) {
                (Some(d), Some(t)) => Ok(Value::DateTime(d, t)),
                _ => Err(ValueError::DateTime),
            }
        },
        _ => Ok(Value::Str(value.clone())),
    }
}

/// A date written `YYYYMMDD`.
pub open spec fn date_text(d: DateParts) -> Seq<char> {
    padded(d.year as nat, 4) + padded(d.month as nat, 2) + padded(d.day as nat, 2)
}

/// A time written `HHMMSS`.
pub open spec fn time_text(t: TimeParts) -> Seq<char> {
    padded(t.hour as nat, 2) + padded(t.minute as nat, 2) + padded(t.second as nat, 2)
}

/// The text of a value: strings without trailing padding, several joined by
/// backslashes; dates and times as digits; nothing for nested or opaque values.
pub open spec fn value_text(v: Value) -> Option<Seq<char>> {
    match v {
        Value::Strs(l) => Some(join_texts(views(l@))),
        Value::Str(t) => Some(trim_pad(t@)),
        Value::Date(d) => Some(date_text(d)),
        Value::Time(t) => Some(time_text(t)),
        Value::DateTime(d, t) => Some(date_text(d) + time_text(t)),
        _ => None,
    }
}

/// The text of the value of `e`, if it has one.
pub fn element_text(e: &Element) -> (r: Option<Vec<char>>)
    ensures
        r matches Some(t) ==> value_text(e.value) == Some(t@),
        r is None <==> value_text(e.value) is None,
{
    match &e.value {
        Value::Strs(l) => {
            let mut out: Vec<char> = Vec::new();
            let mut i: usize = 0;
            while i < l.len()
                invariant
                    i <= l@.len(),
                    out@ == join_texts(views(l@.subrange(0, i as int))),
                decreases l@.len() - i,
            {
                let ghost pre = views(l@.subrange(0, i as int));
                let ghost next = views(l@.subrange(0, i + 1));
                assert(next.drop_last() == pre);
                assert(next.last() == l@[i as int]@);
                let part = trimmed_pad(l[i].as_str());
                if i > 0 {
                    out.push('\\');
                }
                push_chars(&mut out, &part);
                i = i + 1;
            }
            assert(l@.subrange(0, l@.len() as int) == l@);
            Some(out)
        },
        Value::Str(t) => Some(trimmed_pad(t.as_str())),
        Value::Date(d) => {
            let mut out: Vec<char> = Vec::new();
            push_padded(&mut out, d.year as u32, 4);
            push_padded(&mut out, d.month as u32, 2);
            push_padded(&mut out, d.day as u32, 2);
            Some(out)
        },
        Value::Time(t) => {
            let mut out: Vec<char> = Vec::new();
            push_padded(&mut out, t.hour as u32, 2);
            push_padded(&mut out, t.minute as u32, 2);
            push_padded(&mut out, t.second as u32, 2);
            Some(out)
        },
        Value::DateTime(d, t) => {
            let mut out: Vec<char> = Vec::new();
            push_padded(&mut out, d.year as u32, 4);
            push_padded(&mut out, d.month as u32, 2);
            push_padded(&mut out, d.day as u32, 2);
            push_padded(&mut out, t.hour as u32, 2);
            push_padded(&mut out, t.minute as u32, 2);
            push_padded(&mut out, t.second as u32, 2);
            Some(out)
        },
        _ => None,
    }
}

} // verus!
