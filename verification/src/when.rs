//! When an agenda event happens, from what the user wrote: an ISO or Italian date (with or
//! without a time), or a relative Italian expression ("domani alle 16", "tra 3 giorni",
//! "venerdì").  The calendar arithmetic and the date formats are chrono's; the result is a
//! civil date and time, which the application turns into an instant in the local time zone.
use vstd::prelude::*;
use chrono::{Datelike, Timelike};
use crate::chars::{to_chars, from_chars, trim, trim_exec, contains, contains_exec, find, find_exec, lemma_find, matches_at, slice};
use crate::calendar::{time_in, extract_time, weekday_from, weekday_names, parse_weekday, leading_digits};
use crate::num::{parse_unsigned, parse_u64_exec};
use crate::lower::{lowercase, str_to_lowercase};

verus! {

/// A civil date.
pub struct Day {
    pub year: i32,
    pub month: u32,
    pub day: u32,
}

/// A civil date and time of day.
pub struct Moment {
    pub year: i32,
    pub month: u32,
    pub day: u32,
    pub hour: u32,
    pub minute: u32,
    pub second: u32,
}

pub open spec fn day_view(d: Day) -> (i32, u32, u32) {
    (d.year, d.month, d.day)
}

pub open spec fn moment_view(m: Moment) -> (i32, u32, u32, u32, u32, u32) {
    (m.year, m.month, m.day, m.hour, m.minute, m.second)
}

/// The date and time `NaiveDateTime::parse_from_str` reads from `text` with the format.
pub uninterp spec fn datetime_read(text: Seq<char>, format: Seq<char>) -> Option<(i32, u32, u32, u32, u32, u32)>;

/// The date `NaiveDate::parse_from_str` reads from `text` with the format.
pub uninterp spec fn date_read(text: Seq<char>, format: Seq<char>) -> Option<(i32, u32, u32)>;

/// The date `n` days after the given one (`checked_add_days`); `None` past chrono's range or
/// for a date that does not exist.
pub uninterp spec fn days_after(year: i32, month: u32, day: u32, n: u64) -> Option<(i32, u32, u32)>;

/// The weekday of a date, Monday = 0 (`num_days_from_monday`); `None` for a date that does not
/// exist.
pub uninterp spec fn weekday_index(year: i32, month: u32, day: u32) -> Option<u32>;

/// `NaiveDateTime::parse_from_str`, as plain fields.
#[verifier::external_body]
fn parse_datetime(text: &str, format: &str) -> (r: Option<Moment>)
    ensures
        r matches Some(m) ==> datetime_read(text@, format@) == Some(moment_view(m)),
        r is None ==> datetime_read(text@, format@) is None,
{
    chrono::NaiveDateTime::parse_from_str(text, format).ok().map(
        |t| Moment {
            year: t.year(),
            month: t.month(),
            day: t.day(),
            hour: t.hour(),
            minute: t.minute(),
            second: t.second(),
        },
    )
}

/// `NaiveDate::parse_from_str`, as plain fields.
#[verifier::external_body]
fn parse_date(text: &str, format: &str) -> (r: Option<Day>)
    ensures
        r matches Some(d) ==> date_read(text@, format@) == Some(day_view(d)),
        r is None ==> date_read(text@, format@) is None,
{
    chrono::NaiveDate::parse_from_str(text, format).ok().map(
        |d| Day { year: d.year(), month: d.month(), day: d.day() },
    )
}

/// A leap year of the (proleptic) Gregorian calendar.
pub open spec fn leap_year(y: int) -> bool {
    (y % 4 == 0 && y % 100 != 0) || y % 400 == 0
}

/// The number of days of a month.
pub open spec fn month_days(y: int, m: int) -> int {
    if m == 2 {
        if leap_year(y) {
            29
        } else {
            28
        }
    } else if m == 4 || m == 6 || m == 9 || m == 11 {
        30
    } else {
        31
    }
}

/// A date that exists in the calendar.
pub open spec fn real_date(y: int, m: int, d: int) -> bool {
    1 <= m <= 12 && 1 <= d <= month_days(y, m)
}

/// A date chrono can hold: it exists, in a year from -262143 to 262142.
pub open spec fn chrono_date(y: int, m: int, d: int) -> bool {
    real_date(y, m, d) && -262143 <= y <= 262142
}

/// The number of days from 1 January 1970 to a date (negative before it).
pub open spec fn day_number(y: int, m: int, d: int) -> int {
    let y2 = if m <= 2 { y - 1 } else { y };
    let era = y2 / 400;
    let yoe = y2 - era * 400;
    let mp = if m > 2 { m - 3 } else { m + 9 };
    let doy = (153 * mp + 2) / 5 + d - 1;
    let doe = yoe * 365 + yoe / 4 - yoe / 100 + doy;
    era * 146097 + doe - 719468
}

/// `NaiveDate::checked_add_days` on a date given by its fields: the date `n` days later, when
/// the given date exists and the result is within chrono's range.
#[verifier::external_body]
fn add_days(d: &Day, n: u64) -> (r: Option<Day>)
    ensures
        r matches Some(x) ==> days_after(d.year, d.month, d.day, n) == Some(day_view(x)),
        r is None ==> days_after(d.year, d.month, d.day, n) is None,
        r matches Some(x) ==> chrono_date(d.year as int, d.month as int, d.day as int) && chrono_date(
            x.year as int,
            x.month as int,
            x.day as int,
        ) && day_number(x.year as int, x.month as int, x.day as int) == day_number(
            d.year as int,
            d.month as int,
            d.day as int,
        ) + n,
        r is None ==> !chrono_date(d.year as int, d.month as int, d.day as int) || n > i32::MAX
            || day_number(d.year as int, d.month as int, d.day as int) + n > day_number(262142, 12, 31),
{
    chrono::NaiveDate::from_ymd_opt(d.year, d.month, d.day).and_then(
        |x| x.checked_add_days(chrono::Days::new(n)),
    ).map(|x| Day { year: x.year(), month: x.month(), day: x.day() })
}

/// `Weekday::num_days_from_monday` of a date given by its fields (1 January 1970 was a
/// Thursday); `None` exactly for a date chrono cannot hold.
#[verifier::external_body]
fn weekday_of(d: &Day) -> (r: Option<u32>)
    ensures
        r == weekday_index(d.year, d.month, d.day),
        r matches Some(w) ==> w < 7,
        r is Some <==> chrono_date(d.year as int, d.month as int, d.day as int),
        r matches Some(w) ==> w == (day_number(d.year as int, d.month as int, d.day as int) + 3) % 7,
{
    chrono::NaiveDate::from_ymd_opt(d.year, d.month, d.day).map(|x| x.weekday().num_days_from_monday())
}

/// The formats of a date with a time, tried in this order.
pub open spec fn datetime_formats() -> Seq<Seq<char>> {
    seq!["%Y-%m-%d %H:%M"@, "%Y-%m-%dT%H:%M"@, "%Y-%m-%d %H:%M:%S"@, "%d/%m/%Y %H:%M"@, "%d/%m/%Y %H.%M"@]
}

/// The formats of a date alone, tried in this order.
pub open spec fn date_formats() -> Seq<Seq<char>> {
    seq!["%Y-%m-%d"@, "%d/%m/%Y"@]
}

/// The first date and time read from `text` with one of the formats.
pub open spec fn first_datetime(text: Seq<char>, formats: Seq<Seq<char>>) -> Option<(i32, u32, u32, u32, u32, u32)>
    decreases formats.len(),
{
    if formats.len() == 0 {
        None
    } else {
        match datetime_read(text, formats[0]) {
            Some(m) => Some(m),
            None => first_datetime(text, formats.drop_first()),
        }
    }
}

/// The first date read from `text` with one of the formats.
pub open spec fn first_date(text: Seq<char>, formats: Seq<Seq<char>>) -> Option<(i32, u32, u32)>
    decreases formats.len(),
{
    if formats.len() == 0 {
        None
    } else {
        match date_read(text, formats[0]) {
            Some(d) => Some(d),
            None => first_date(text, formats.drop_first()),
        }
    }
}

/// Days from weekday `cur` to the next weekday `target` (a whole week when they are the same:
/// "venerdì" said on a Friday is next week's).
pub open spec fn days_until(target: int, cur: int) -> int {
    let d = (target - cur) % 7;
    if d == 0 {
        7
    } else {
        d
    }
}

/// The day a relative Italian expression names, from `today`: "dopodomani", "domani",
/// "oggi"/"stasera"/"stamattina", "tra N giorni", or the next such weekday.
pub open spec fn relative_day(low: Seq<char>, today: (i32, u32, u32)) -> Option<(i32, u32, u32)> {
    if contains(low, "dopodomani"@) {
        days_after(today.0, today.1, today.2, 2)
    } else if contains(low, "domani"@) {
        days_after(today.0, today.1, today.2, 1)
    } else if contains(low, "oggi"@) || contains(low, "stasera"@) || contains(low, "stamattina"@) {
        Some(today)
    } else if find(low, "tra "@) is Some {
        let i = find(low, "tra "@)->0;
        if contains(low, "giorn"@) {
            match parse_unsigned(leading_digits(low.skip(i + 4)), u64::MAX as int) {
                Some(n) => days_after(today.0, today.1, today.2, n as u64),
                None => None,
            }
        } else {
            None
        }
    } else {
        match weekday_from(low, weekday_names()) {
            Some(wd) => match weekday_index(today.0, today.1, today.2) {
                Some(cur) => days_after(today.0, today.1, today.2, days_until(wd, cur as int) as u64),
                None => None,
            },
            None => None,
        }
    }
}

/// A date with a time of day, when the time exists (`and_hms_opt` with zero seconds).
pub open spec fn at_time(d: (i32, u32, u32), h: int, m: int) -> Option<(i32, u32, u32, u32, u32, u32)> {
    if 0 <= h < 24 && 0 <= m < 60 {
        Some((d.0, d.1, d.2, h as u32, m as u32, 0))
    } else {
        None
    }
}

/// When an event happens (see the module's description): a date with a time in one of the
/// formats; a date alone, at 9:00; otherwise a relative expression at the time it mentions (9:00
/// by default).  `None` when nothing is recognised.
pub open spec fn moment_of(raw: Seq<char>, today: (i32, u32, u32)) -> Option<(i32, u32, u32, u32, u32, u32)> {
    let t = trim(raw);
    match first_datetime(t, datetime_formats()) {
        Some(m) => Some(m),
        None => match first_date(t, date_formats()) {
            Some(d) => Some((d.0, d.1, d.2, 9, 0, 0)),
            None => {
                let low = lowercase(t);
                let (h, m) = match time_in(low) {
                    Some(hm) => hm,
                    None => (9, 0),
                };
                match relative_day(low, today) {
                    Some(d) => at_time(d, h, m),
                    None => None,
                }
            },
        },
    }
}

fn leading_digits_exec(v: &Vec<char>, from: usize) -> (r: Vec<char>)
    requires
        from <= v.len(),
    ensures
        r@ == leading_digits(v@.skip(from as int)),
{
    let mut j = from;
    assert(v@.skip(from as int) =~= v@.skip(from as int));
    while j < v.len() && '0' <= v[j] && v[j] <= '9'
        invariant
            from <= j <= v.len(),
            leading_digits(v@.skip(from as int)) == v@.subrange(from as int, j as int) + leading_digits(
                v@.skip(j as int),
            ),
        decreases v.len() - j,
    {
        assert(v@.skip(j as int)[0] == v@[j as int]);
        assert(v@.skip(j as int).drop_first() =~= v@.skip(j + 1));
        assert(v@.subrange(from as int, j + 1) =~= v@.subrange(from as int, j as int).push(v@[j as int]));
        j = j + 1;
    }
    assert(leading_digits(v@.skip(j as int)) =~= Seq::<char>::empty()) by {
        if j < v.len() {
            assert(v@.skip(j as int)[0] == v@[j as int]);
        }
    }
    let r = slice(v, from, j);
    assert(r@ =~= leading_digits(v@.skip(from as int)));
    r
}

/// The day a relative expression names (see [`relative_day`]).
fn relative_day_exec(low: &Vec<char>, today: &Day) -> (r: Option<Day>)
    ensures
        r matches Some(d) ==> relative_day(low@, day_view(*today)) == Some(day_view(d)),
        r is None ==> relative_day(low@, day_view(*today)) is None,
{
    if contains_exec(low, &to_chars("dopodomani")) {
        return add_days(today, 2);
    }
    if contains_exec(low, &to_chars("domani")) {
        return add_days(today, 1);
    }
    if contains_exec(low, &to_chars("oggi")) || contains_exec(low, &to_chars("stasera"))
        || contains_exec(low, &to_chars("stamattina")) {
        return Some(Day { year: today.year, month: today.month, day: today.day });
    }
    let tra = to_chars("tra ");
    proof {
        reveal_strlit("tra ");
    }
    match find_exec(low, &tra) {
        Some(i) => {
            proof {
                lemma_find(low@, tra@);
                assert(matches_at(low@, tra@, i as int));
                assert(tra@.len() == 4);
            }
            assert(i + 4 <= low.len());
            if contains_exec(low, &to_chars("giorn")) {
                let digits = leading_digits_exec(low, i + 4);
                match parse_u64_exec(&digits) {
                    Some(n) => add_days(today, n),
                    None => None,
                }
            } else {
                None
            }
        },
        None => {
            let ls = from_chars(low.as_slice());
            match parse_weekday(ls.as_str()) {
                Some(wd) => match weekday_of(today) {
                    Some(cur) => {
                        let d: u64 = if wd >= cur {
                            (wd - cur) as u64
                        } else {
                            (wd + 7 - cur) as u64
                        };
                        let diff: u64 = if d == 0 {
                            7
                        } else {
                            d
                        };
                        proof {
                            assert(wd < 7) by {
                                lemma_weekday_below_seven(low@, weekday_names());
                            }
                            assert(diff as int == days_until(wd as int, cur as int));
                        }
                        add_days(today, diff)
                    },
                    None => None,
                },
                None => None,
            }
        },
    }
}

fn first_datetime_exec(t: &str, formats: &Vec<&str>) -> (r: Option<Moment>)
    ensures
        r matches Some(m) ==> first_datetime(t@, formats@.map_values(|f: &str| f@)) == Some(moment_view(m)),
        r is None ==> first_datetime(t@, formats@.map_values(|f: &str| f@)) is None,
{
    let ghost fv = formats@.map_values(|f: &str| f@);
    let mut k: usize = 0;
    assert(fv.skip(0) =~= fv);
    while k < formats.len()
        invariant
            k <= formats.len(),
            fv == formats@.map_values(|f: &str| f@),
            first_datetime(t@, fv) == first_datetime(t@, fv.skip(k as int)),
        decreases formats.len() - k,
    {
        assert(fv.skip(k as int)[0] == formats@[k as int]@);
        assert(fv.skip(k as int).drop_first() =~= fv.skip(k + 1));
        if let Some(m) = parse_datetime(t, formats[k]) {
            return Some(m);
        }
        k = k + 1;
    }
    None
}

fn first_date_exec(t: &str, formats: &Vec<&str>) -> (r: Option<Day>)
    ensures
        r matches Some(d) ==> first_date(t@, formats@.map_values(|f: &str| f@)) == Some(day_view(d)),
        r is None ==> first_date(t@, formats@.map_values(|f: &str| f@)) is None,
{
    let ghost fv = formats@.map_values(|f: &str| f@);
    let mut k: usize = 0;
    assert(fv.skip(0) =~= fv);
    while k < formats.len()
        invariant
            k <= formats.len(),
            fv == formats@.map_values(|f: &str| f@),
            first_date(t@, fv) == first_date(t@, fv.skip(k as int)),
        decreases formats.len() - k,
    {
        assert(fv.skip(k as int)[0] == formats@[k as int]@);
        assert(fv.skip(k as int).drop_first() =~= fv.skip(k + 1));
        if let Some(d) = parse_date(t, formats[k]) {
            return Some(d);
        }
        k = k + 1;
    }
    None
}

/// The weekdays the names give are below seven.
proof fn lemma_weekday_below_seven(s: Seq<char>, names: Seq<(Seq<char>, int)>)
    requires
        forall|i: int| 0 <= i < names.len() ==> 0 <= (#[trigger] names[i]).1 < 7,
    ensures
        weekday_from(s, names) matches Some(w) ==> 0 <= w < 7,
    decreases names.len(),
{
    if names.len() > 0 && !contains(s, names[0].0) {
        lemma_weekday_below_seven(s, names.drop_first());
    }
}

/// Works out when an event happens (see [`moment_of`]); `today` is the current local date.
pub fn event_moment(raw: &str, today: &Day) -> (r: Option<Moment>)
    ensures
        r matches Some(m) ==> moment_of(raw@, day_view(*today)) == Some(moment_view(m)),
        r is None ==> moment_of(raw@, day_view(*today)) is None,
{
    let t = from_chars(trim_exec(&to_chars(raw)).as_slice());
    let dt_formats = vec!["%Y-%m-%d %H:%M", "%Y-%m-%dT%H:%M", "%Y-%m-%d %H:%M:%S", "%d/%m/%Y %H:%M", "%d/%m/%Y %H.%M"];
    assert(dt_formats@.map_values(|f: &str| f@) =~= datetime_formats());
    if let Some(m) = first_datetime_exec(t.as_str(), &dt_formats) {
        return Some(m);
    }
    let d_formats = vec!["%Y-%m-%d", "%d/%m/%Y"];
    assert(d_formats@.map_values(|f: &str| f@) =~= date_formats());
    if let Some(d) = first_date_exec(t.as_str(), &d_formats) {
        return Some(Moment { year: d.year, month: d.month, day: d.day, hour: 9, minute: 0, second: 0 });
    }
    let low_s = str_to_lowercase(t.as_str());
    let low = to_chars(low_s.as_str());
    let (h, m) = match extract_time(low_s.as_str()) {
        Some(hm) => hm,
        None => (9, 0),
    };
    match relative_day_exec(&low, today) {
        Some(d) => if h < 24 && m < 60 {
            Some(Moment { year: d.year, month: d.month, day: d.day, hour: h, minute: m, second: 0 })
        } else {
            None
        },
        None => None,
    }
}

} // verus!
