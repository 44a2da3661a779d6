//! Calendar model: weekdays, dates and date-times as plain integer fields.
//!
//! The rest of the library orders sync metadata by date-time, checks task
//! deadlines against the current date, and prints or parses dates in the
//! fixed `YYYY-MM-DD` shape. Everything here is exact calendar arithmetic
//! on plain values; the current moment itself is handed in by the caller.

use vstd::prelude::*;

use crate::chars::digit_char;
use crate::chars::digit_val;
use crate::chars::lemma_digit_char_val;
use crate::chars::ieq;
use crate::chars::lower_of;
use crate::chars::is_digit;
use crate::chars::matches_folded;
use crate::chars::spec_digit_char;

verus! {

/// Day of the week, named as in the persisted task files.
#[derive(Clone, Copy, Debug, PartialEq, Eq, Structural)]
pub enum Weekday {
    Mon,
    Tue,
    Wed,
    Thu,
    Fri,
    Sat,
    Sun,
}

/// A calendar date, kept as plain year, month and day numbers.
#[derive(Clone, Copy, Debug, PartialEq, Eq, Structural)]
pub struct Date {
    pub year: u32,
    pub month: u32,
    pub day: u32,
}

/// A date with a time of day, second resolution; the ordering key of
/// sync metadata.
#[derive(Clone, Copy, Debug, PartialEq, Eq, Structural)]
pub struct DateTime {
    pub date: Date,
    pub hour: u32,
    pub minute: u32,
    pub second: u32,
}

pub open spec fn is_leap_year(year: u32) -> bool {
    (year % 4 == 0 && year % 100 != 0) || year % 400 == 0
}

pub open spec fn days_in_month(year: u32, month: u32) -> u32 {
    if month == 1 || month == 3 || month == 5 || month == 7 || month == 8 || month == 10
        || month == 12 {
        31
    } else if month == 4 || month == 6 || month == 9 || month == 11 {
        30
    } else if is_leap_year(year) {
        29
    } else {
        28
    }
}

/// A real calendar date whose year still fits the four-digit form used
/// by the persisted files.
pub open spec fn valid_date(d: Date) -> bool {
    d.year <= 9999 && 1 <= d.month <= 12 && 1 <= d.day <= days_in_month(d.year, d.month)
}

pub open spec fn valid_datetime(dt: DateTime) -> bool {
    valid_date(dt.date) && dt.hour < 24 && dt.minute < 60 && dt.second < 60
}

/// Strict calendar order on dates: year, then month, then day.
pub open spec fn date_lt(a: Date, b: Date) -> bool {
    a.year < b.year || (a.year == b.year && (a.month < b.month || (a.month == b.month
        && a.day < b.day)))
}

/// Strict order on date-times: the date, then the time of day.
pub open spec fn datetime_lt(a: DateTime, b: DateTime) -> bool {
    date_lt(a.date, b.date) || (a.date == b.date && (a.hour < b.hour || (a.hour == b.hour
        && (a.minute < b.minute || (a.minute == b.minute && a.second < b.second)))))
}

impl Date {
    /// Decides the strict calendar order against another date.
    pub fn lt(&self, other: &Date) -> (r: bool)
        ensures
            r == date_lt(*self, *other),
    {
        self.year < other.year || (self.year == other.year && (self.month < other.month
            || (self.month == other.month && self.day < other.day)))
    }
}

impl DateTime {
    /// Decides the strict order against another date-time.
    pub fn lt(&self, other: &DateTime) -> (r: bool)
        ensures
            r == datetime_lt(*self, *other),
    {
        self.date.lt(&other.date) || (self.date == other.date && (self.hour < other.hour
            || (self.hour == other.hour && (self.minute < other.minute
            || (self.minute == other.minute && self.second < other.second)))))
    }

    /// The Unix epoch, the value a never-synchronized state carries.
    pub fn epoch() -> (r: DateTime)
        ensures
            r == spec_epoch(),
    {
        DateTime { date: Date { year: 1970, month: 1, day: 1 }, hour: 0, minute: 0, second: 0 }
    }
}

pub open spec fn spec_epoch() -> DateTime {
    DateTime { date: Date { year: 1970, month: 1, day: 1 }, hour: 0, minute: 0, second: 0 }
}

impl Default for DateTime {
    /// A fresh date-time starts at the epoch.
    fn default() -> (r: Self)
        ensures
            r == spec_epoch(),
    {
        DateTime::epoch()
    }
}

/// The strict date-time order is trichotomous: of two values, either one
/// is earlier than the other or they are equal, and never two at once.
pub proof fn lemma_datetime_order_trichotomy(a: DateTime, b: DateTime)
    ensures
        datetime_lt(a, b) ==> !datetime_lt(b, a) && a != b,
        datetime_lt(b, a) ==> !datetime_lt(a, b) && a != b,
        !datetime_lt(a, b) && !datetime_lt(b, a) ==> a == b,
{
}

/// A number under a hundred as two digits, zero padded.
pub open spec fn pad2(n: int) -> Seq<char> {
    seq![spec_digit_char(n / 10), spec_digit_char(n % 10)]
}

/// A number under ten thousand as four digits, zero padded.
pub open spec fn pad4(n: int) -> Seq<char> {
    pad2(n / 100) + pad2(n % 100)
}

pub proof fn lemma_pad2_val(n: int)
    requires
        0 <= n <= 99,
    ensures
        pad2(n).len() == 2,
        is_digit(pad2(n)[0]),
        is_digit(pad2(n)[1]),
        digit_val(pad2(n)[0]) * 10 + digit_val(pad2(n)[1]) == n,
{
    lemma_digit_char_val(n / 10);
    lemma_digit_char_val(n % 10);
}

pub proof fn lemma_pad4_val(n: int)
    requires
        0 <= n <= 9999,
    ensures
        pad4(n).len() == 4,
        is_digit(pad4(n)[0]),
        is_digit(pad4(n)[1]),
        is_digit(pad4(n)[2]),
        is_digit(pad4(n)[3]),
        digit_val(pad4(n)[0]) * 1000 + digit_val(pad4(n)[1]) * 100 + digit_val(pad4(n)[2])
            * 10 + digit_val(pad4(n)[3]) == n,
{
    lemma_pad2_val(n / 100);
    lemma_pad2_val(n % 100);
    assert(pad4(n)[0] == pad2(n / 100)[0]);
    assert(pad4(n)[1] == pad2(n / 100)[1]);
    assert(pad4(n)[2] == pad2(n % 100)[0]);
    assert(pad4(n)[3] == pad2(n % 100)[1]);
    assert(n / 100 * 100 + n % 100 == n);
}

/// A date in the fixed `YYYY-MM-DD` shape.
pub open spec fn enc_date(d: Date) -> Seq<char> {
    pad4(d.year as int) + seq!['-'] + pad2(d.month as int) + seq!['-'] + pad2(d.day as int)
}

/// The time of day in the fixed `HH:MM:SS` shape.
pub open spec fn enc_time(dt: DateTime) -> Seq<char> {
    pad2(dt.hour as int) + seq![':'] + pad2(dt.minute as int) + seq![':'] + pad2(
        dt.second as int)
}

/// A date-time in the fixed `YYYY-MM-DD` + separator + `HH:MM:SS` shape;
/// the persisted form uses `'T'`, the task creation stamp a space.
pub open spec fn enc_datetime(dt: DateTime, sep: char) -> Seq<char> {
    enc_date(dt.date) + seq![sep] + enc_time(dt)
}

/// Value of the two digit characters at `off`.
pub open spec fn val2(s: Seq<char>, off: int) -> int {
    digit_val(s[off]) * 10 + digit_val(s[off + 1])
}

/// Value of the four digit characters at `off`.
pub open spec fn val4(s: Seq<char>, off: int) -> int {
    digit_val(s[off]) * 1000 + digit_val(s[off + 1]) * 100 + digit_val(s[off + 2]) * 10
        + digit_val(s[off + 3])
}

pub open spec fn digits_at(s: Seq<char>, off: int, count: int) -> bool {
    forall|i: int| off <= i < off + count ==> is_digit(#[trigger] s[i])
}

/// The dates the library reads: exactly `YYYY-MM-DD`, all digits padded,
/// and the result a real calendar date.
pub open spec fn spec_parse_date(s: Seq<char>) -> Option<Date> {
    if s.len() == 10 && digits_at(s, 0, 4) && s[4] == '-' && digits_at(s, 5, 2) && s[7]
        == '-' && digits_at(s, 8, 2) {
        let d = Date {
            year: val4(s, 0) as u32,
            month: val2(s, 5) as u32,
            day: val2(s, 8) as u32,
        };
        if valid_date(d) {
            Some(d)
        } else {
            None
        }
    } else {
        None
    }
}

/// The date-times the library reads: a date, the given separator, and a
/// padded in-range time of day.
pub open spec fn spec_parse_datetime(s: Seq<char>, sep: char) -> Option<DateTime> {
    if s.len() == 19 && spec_parse_date(s.subrange(0, 10)) is Some && s[10] == sep
        && digits_at(s, 11, 2) && s[13] == ':' && digits_at(s, 14, 2) && s[16] == ':'
        && digits_at(s, 17, 2) {
        let dt = DateTime {
            date: spec_parse_date(s.subrange(0, 10)).unwrap(),
            hour: val2(s, 11) as u32,
            minute: val2(s, 14) as u32,
            second: val2(s, 17) as u32,
        };
        if dt.hour < 24 && dt.minute < 60 && dt.second < 60 {
            Some(dt)
        } else {
            None
        }
    } else {
        None
    }
}

/// Writing a valid date and reading it back gives the date again.
pub proof fn lemma_date_roundtrip(d: Date)
    requires
        valid_date(d),
    ensures
        enc_date(d).len() == 10,
        spec_parse_date(enc_date(d)) == Some(d),
{
    let s = enc_date(d);
    lemma_pad4_val(d.year as int);
    lemma_pad2_val(d.month as int);
    lemma_pad2_val(d.day as int);
    assert(s[0] == pad4(d.year as int)[0]);
    assert(s[1] == pad4(d.year as int)[1]);
    assert(s[2] == pad4(d.year as int)[2]);
    assert(s[3] == pad4(d.year as int)[3]);
    assert(s[4] == '-');
    assert(s[5] == pad2(d.month as int)[0]);
    assert(s[6] == pad2(d.month as int)[1]);
    assert(s[7] == '-');
    assert(s[8] == pad2(d.day as int)[0]);
    assert(s[9] == pad2(d.day as int)[1]);
    assert(val4(s, 0) == d.year as int);
    assert(val2(s, 5) == d.month as int);
    assert(val2(s, 8) == d.day as int);
}

/// Writing a valid date-time and reading it back gives the value again.
pub proof fn lemma_datetime_roundtrip(dt: DateTime, sep: char)
    requires
        valid_datetime(dt),
        !is_digit(sep),
    ensures
        enc_datetime(dt, sep).len() == 19,
        spec_parse_datetime(enc_datetime(dt, sep), sep) == Some(dt),
{
    let s = enc_datetime(dt, sep);
    lemma_date_roundtrip(dt.date);
    lemma_pad2_val(dt.hour as int);
    lemma_pad2_val(dt.minute as int);
    lemma_pad2_val(dt.second as int);
    assert(s.subrange(0, 10) =~= enc_date(dt.date));
    assert(s[10] == sep);
    assert(s[11] == pad2(dt.hour as int)[0]);
    assert(s[12] == pad2(dt.hour as int)[1]);
    assert(s[13] == ':');
    assert(s[14] == pad2(dt.minute as int)[0]);
    assert(s[15] == pad2(dt.minute as int)[1]);
    assert(s[16] == ':');
    assert(s[17] == pad2(dt.second as int)[0]);
    assert(s[18] == pad2(dt.second as int)[1]);
    assert(val2(s, 11) == dt.hour as int);
    assert(val2(s, 14) == dt.minute as int);
    assert(val2(s, 17) == dt.second as int);
}

/// Appends a number under a hundred, zero padded to two digits.
pub fn push_pad2(out: &mut String, n: u32)
    requires
        n <= 99,
    ensures
        final(out)@ == old(out)@ + pad2(n as int),
{
    crate::chars::push_char(out, digit_char(n / 10));
    crate::chars::push_char(out, digit_char(n % 10));
    assert(out@ =~= old(out)@ + pad2(n as int));
}

/// Appends a number under ten thousand, zero padded to four digits.
pub fn push_pad4(out: &mut String, n: u32)
    requires
        n <= 9999,
    ensures
        final(out)@ == old(out)@ + pad4(n as int),
{
    push_pad2(out, n / 100);
    push_pad2(out, n % 100);
    assert(out@ =~= old(out)@ + pad4(n as int));
}

/// Appends a valid date in the `YYYY-MM-DD` shape.
pub fn push_date(out: &mut String, d: &Date)
    requires
        valid_date(*d),
    ensures
        final(out)@ == old(out)@ + enc_date(*d),
{
    push_pad4(out, d.year);
    crate::chars::push_char(out, '-');
    push_pad2(out, d.month);
    crate::chars::push_char(out, '-');
    push_pad2(out, d.day);
    assert(out@ =~= old(out)@ + enc_date(*d));
}

/// Appends a valid date-time around the given separator.
pub fn push_datetime(out: &mut String, dt: &DateTime, sep: char)
    requires
        valid_datetime(*dt),
    ensures
        final(out)@ == old(out)@ + enc_datetime(*dt, sep),
{
    push_date(out, &dt.date);
    crate::chars::push_char(out, sep);
    push_pad2(out, dt.hour);
    crate::chars::push_char(out, ':');
    push_pad2(out, dt.minute);
    crate::chars::push_char(out, ':');
    push_pad2(out, dt.second);
    assert(out@ =~= old(out)@ + enc_datetime(*dt, sep));
}

impl Date {
    /// The `YYYY-MM-DD` form of a valid date.
    pub fn to_text(&self) -> (r: String)
        requires
            valid_date(*self),
        ensures
            r@ == enc_date(*self),
    {
        let mut out = String::new();
        push_date(&mut out, self);
        assert(out@ =~= enc_date(*self));
        out
    }
}

impl DateTime {
    /// The date-time around the given separator, such as
    /// `2024-12-22 10:30:00` with a space.
    pub fn to_text(&self, sep: char) -> (r: String)
        requires
            valid_datetime(*self),
        ensures
            r@ == enc_datetime(*self, sep),
    {
        let mut out = String::new();
        push_datetime(&mut out, self, sep);
        assert(out@ =~= enc_datetime(*self, sep));
        out
    }
}

fn days_in_month_exec(year: u32, month: u32) -> (r: u32)
    ensures
        r == days_in_month(year, month),
{
    if month == 1 || month == 3 || month == 5 || month == 7 || month == 8 || month == 10
        || month == 12 {
        31
    } else if month == 4 || month == 6 || month == 9 || month == 11 {
        30
    } else if (year % 4 == 0 && year % 100 != 0) || year % 400 == 0 {
        29
    } else {
        28
    }
}

impl Date {
    /// Whether the fields name a real calendar date in four-digit years.
    pub fn is_valid(&self) -> (r: bool)
        ensures
            r == valid_date(*self),
    {
        self.year <= 9999 && 1 <= self.month && self.month <= 12 && 1 <= self.day
            && self.day <= days_in_month_exec(self.year, self.month)
    }

    /// Reads a date in the exact `YYYY-MM-DD` shape.
    pub fn parse(s: &str) -> (r: Option<Date>)
        ensures
            r == spec_parse_date(s@),
    {
        if s.unicode_len() != 10 {
            return None;
        }
        let y = match read_val4(s, 0) {
            Some(v) => v,
            None => {
                return None;
            },
        };
        if s.get_char(4) != '-' {
            return None;
        }
        let m = match read_val2(s, 5) {
            Some(v) => v,
            None => {
                return None;
            },
        };
        if s.get_char(7) != '-' {
            return None;
        }
        let d = match read_val2(s, 8) {
            Some(v) => v,
            None => {
                return None;
            },
        };
        let date = Date { year: y, month: m, day: d };
        if date.is_valid() {
            Some(date)
        } else {
            None
        }
    }
}

impl DateTime {
    /// Whether the fields name a real calendar moment.
    pub fn is_valid(&self) -> (r: bool)
        ensures
            r == valid_datetime(*self),
    {
        self.date.is_valid() && self.hour < 24 && self.minute < 60 && self.second < 60
    }

    /// Reads a date-time in the exact padded shape around the given
    /// separator.
    pub fn parse(s: &str, sep: char) -> (r: Option<DateTime>)
        ensures
            r == spec_parse_datetime(s@, sep),
    {
        if s.unicode_len() != 19 {
            return None;
        }
        let date = match Date::parse(s.substring_char(0, 10)) {
            Some(d) => d,
            None => {
                assert(s@.subrange(0, 10) =~= s@.subrange(0int, 10int));
                return None;
            },
        };
        if s.get_char(10) != sep {
            return None;
        }
        let h = match read_val2(s, 11) {
            Some(v) => v,
            None => {
                return None;
            },
        };
        if s.get_char(13) != ':' {
            return None;
        }
        let mi = match read_val2(s, 14) {
            Some(v) => v,
            None => {
                return None;
            },
        };
        if s.get_char(16) != ':' {
            return None;
        }
        let sec = match read_val2(s, 17) {
            Some(v) => v,
            None => {
                return None;
            },
        };
        if h < 24 && mi < 60 && sec < 60 {
            Some(DateTime { date, hour: h, minute: mi, second: sec })
        } else {
            None
        }
    }
}

/// Reads one digit character; the value, if it is one.
fn read_digit(s: &str, i: usize) -> (r: Option<u32>)
    requires
        i < s@.len(),
    ensures
        r is Some <==> is_digit(s@[i as int]),
        r is Some ==> r.unwrap() == digit_val(s@[i as int]) && r.unwrap() <= 9,
{
    let cv = s.get_char(i) as u32;
    if 48 <= cv && cv <= 57 {
        Some(cv - 48)
    } else {
        None
    }
}

/// Reads two digit characters at `off` as a number.
fn read_val2(s: &str, off: usize) -> (r: Option<u32>)
    requires
        off + 2 <= s@.len() <= usize::MAX,
    ensures
        r is Some <==> digits_at(s@, off as int, 2),
        r is Some ==> r.unwrap() == val2(s@, off as int) && r.unwrap() <= 99,
{
    let d0 = match read_digit(s, off) {
        Some(v) => v,
        None => {
            return None;
        },
    };
    let d1 = match read_digit(s, off + 1) {
        Some(v) => v,
        None => {
            return None;
        },
    };
    Some(d0 * 10 + d1)
}

/// Reads four digit characters at `off` as a number.
fn read_val4(s: &str, off: usize) -> (r: Option<u32>)
    requires
        off + 4 <= s@.len() <= usize::MAX,
    ensures
        r is Some <==> digits_at(s@, off as int, 4),
        r is Some ==> r.unwrap() == val4(s@, off as int) && r.unwrap() <= 9999,
{
    let d0 = match read_digit(s, off) {
        Some(v) => v,
        None => {
            return None;
        },
    };
    let d1 = match read_digit(s, off + 1) {
        Some(v) => v,
        None => {
            return None;
        },
    };
    let d2 = match read_digit(s, off + 2) {
        Some(v) => v,
        None => {
            return None;
        },
    };
    let d3 = match read_digit(s, off + 3) {
        Some(v) => v,
        None => {
            return None;
        },
    };
    Some(d0 * 1000 + d1 * 100 + d2 * 10 + d3)
}

/// The short weekday name, as the persisted files hold it.
pub open spec fn weekday_tag(w: Weekday) -> Seq<char> {
    match w {
        Weekday::Mon => "Mon"@,
        Weekday::Tue => "Tue"@,
        Weekday::Wed => "Wed"@,
        Weekday::Thu => "Thu"@,
        Weekday::Fri => "Fri"@,
        Weekday::Sat => "Sat"@,
        Weekday::Sun => "Sun"@,
    }
}

/// The weekday a text names: its short or long English name, in any
/// ASCII case.
pub open spec fn spec_weekday_of(s: Seq<char>) -> Option<Weekday> {
    if ieq(s, "mon"@) || ieq(s, "monday"@) {
        Some(Weekday::Mon)
    } else if ieq(s, "tue"@) || ieq(s, "tuesday"@) {
        Some(Weekday::Tue)
    } else if ieq(s, "wed"@) || ieq(s, "wednesday"@) {
        Some(Weekday::Wed)
    } else if ieq(s, "thu"@) || ieq(s, "thursday"@) {
        Some(Weekday::Thu)
    } else if ieq(s, "fri"@) || ieq(s, "friday"@) {
        Some(Weekday::Fri)
    } else if ieq(s, "sat"@) || ieq(s, "saturday"@) {
        Some(Weekday::Sat)
    } else if ieq(s, "sun"@) || ieq(s, "sunday"@) {
        Some(Weekday::Sun)
    } else {
        None
    }
}

impl Weekday {
    /// The short name of the weekday.
    pub fn name(&self) -> (r: &'static str)
        ensures
            r@ == weekday_tag(*self),
    {
        match self {
            Weekday::Mon => "Mon",
            Weekday::Tue => "Tue",
            Weekday::Wed => "Wed",
            Weekday::Thu => "Thu",
            Weekday::Fri => "Fri",
            Weekday::Sat => "Sat",
            Weekday::Sun => "Sun",
        }
    }

    /// Reads a weekday from its short or long English name, folding
    /// ASCII case.
    pub fn parse(s: &str) -> (r: Option<Weekday>)
        ensures
            r == spec_weekday_of(s@),
    {
        if matches_folded(s, "mon") || matches_folded(s, "monday") {
            Some(Weekday::Mon)
        } else if matches_folded(s, "tue") || matches_folded(s, "tuesday") {
            Some(Weekday::Tue)
        } else if matches_folded(s, "wed") || matches_folded(s, "wednesday") {
            Some(Weekday::Wed)
        } else if matches_folded(s, "thu") || matches_folded(s, "thursday") {
            Some(Weekday::Thu)
        } else if matches_folded(s, "fri") || matches_folded(s, "friday") {
            Some(Weekday::Fri)
        } else if matches_folded(s, "sat") || matches_folded(s, "saturday") {
            Some(Weekday::Sat)
        } else if matches_folded(s, "sun") || matches_folded(s, "sunday") {
            Some(Weekday::Sun)
        } else {
            None
        }
    }
}

/// A date-time the parser accepts is a real calendar moment.
pub proof fn lemma_parse_datetime_valid(s: Seq<char>, sep: char)
    ensures
        spec_parse_datetime(s, sep) is Some ==> valid_datetime(spec_parse_datetime(s,
            sep).unwrap()),
{
}

/// Case-folded equality of two three-character texts, shown character
/// by character.
proof fn lemma_ieq3(s: Seq<char>, t: Seq<char>)
    requires
        s.len() == 3,
        t.len() == 3,
        lower_of(s[0]) == t[0] as u32,
        lower_of(s[1]) == t[1] as u32,
        lower_of(s[2]) == t[2] as u32,
    ensures
        ieq(s, t),
{
    assert forall|i: int| 0 <= i < s.len() implies lower_of(#[trigger] s[i]) == t[i] as u32 by {
        if i == 0 {
        } else if i == 1 {
        } else {
        }
    }
}

/// One differing character refutes case-folded equality.
proof fn lemma_not_ieq(s: Seq<char>, t: Seq<char>, i: int)
    requires
        0 <= i < s.len(),
        i < t.len(),
        lower_of(s[i]) != t[i] as u32,
    ensures
        !ieq(s, t),
{
}

/// The short name of a weekday reads back to the weekday.
pub proof fn lemma_weekday_tag_parses(w: Weekday)
    ensures
        spec_weekday_of(weekday_tag(w)) == Some(w),
{
    reveal_strlit("Mon");
    reveal_strlit("Tue");
    reveal_strlit("Wed");
    reveal_strlit("Thu");
    reveal_strlit("Fri");
    reveal_strlit("Sat");
    reveal_strlit("Sun");
    reveal_strlit("mon");
    reveal_strlit("monday");
    reveal_strlit("tue");
    reveal_strlit("tuesday");
    reveal_strlit("wed");
    reveal_strlit("wednesday");
    reveal_strlit("thu");
    reveal_strlit("thursday");
    reveal_strlit("fri");
    reveal_strlit("friday");
    reveal_strlit("sat");
    reveal_strlit("saturday");
    reveal_strlit("sun");
    reveal_strlit("sunday");
    let s = weekday_tag(w);
    match w {
        Weekday::Mon => {
            lemma_ieq3(s, "mon"@);
        },
        Weekday::Tue => {
            lemma_not_ieq(s, "mon"@, 0);
            lemma_ieq3(s, "tue"@);
        },
        Weekday::Wed => {
            lemma_not_ieq(s, "mon"@, 0);
            lemma_not_ieq(s, "tue"@, 0);
            lemma_ieq3(s, "wed"@);
        },
        Weekday::Thu => {
            lemma_not_ieq(s, "mon"@, 0);
            lemma_not_ieq(s, "tue"@, 1);
            lemma_not_ieq(s, "wed"@, 0);
            lemma_ieq3(s, "thu"@);
        },
        Weekday::Fri => {
            lemma_not_ieq(s, "mon"@, 0);
            lemma_not_ieq(s, "tue"@, 0);
            lemma_not_ieq(s, "wed"@, 0);
            lemma_not_ieq(s, "thu"@, 0);
            lemma_ieq3(s, "fri"@);
        },
        Weekday::Sat => {
            lemma_not_ieq(s, "mon"@, 0);
            lemma_not_ieq(s, "tue"@, 0);
            lemma_not_ieq(s, "wed"@, 0);
            lemma_not_ieq(s, "thu"@, 0);
            lemma_not_ieq(s, "fri"@, 0);
            lemma_ieq3(s, "sat"@);
        },
        Weekday::Sun => {
            lemma_not_ieq(s, "mon"@, 0);
            lemma_not_ieq(s, "tue"@, 0);
            lemma_not_ieq(s, "wed"@, 0);
            lemma_not_ieq(s, "thu"@, 0);
            lemma_not_ieq(s, "fri"@, 0);
            lemma_not_ieq(s, "sat"@, 1);
            lemma_ieq3(s, "sun"@);
        },
    }
}

} // verus!
