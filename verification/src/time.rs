use crate::value::DataValue;
use vstd::prelude::*;

verus! {

/// The nanoseconds in a second.
pub const ONE_SEC_TO_NANO: u32 = 1_000_000_000;

/// The seconds in a day.
pub const ONE_DAY_TO_SEC: u32 = 86_400;

/// The text of the day `days` after 0000-12-31, as `%Y-%m-%d`; nothing where
/// the date is out of range.
pub uninterp spec fn date_text_of(days: i32) -> Option<Seq<char>>;

/// The text of the moment `secs` seconds after the Unix epoch, as
/// `%Y-%m-%d %H:%M:%S`; nothing where it is out of range.
pub uninterp spec fn datetime_text_of(secs: i64) -> Option<Seq<char>>;

/// The text of the time of day, as `%H:%M:%S%.f`; nothing where it is no
/// time of day.
pub uninterp spec fn time_text_of(secs: u32, nanos: u32) -> Option<Seq<char>>;

/// The text of a moment with nanoseconds, as `%Y-%m-%d %H:%M:%S%.f`; nothing
/// where it is out of range.
pub uninterp spec fn timestamp_text_of(secs: i64, nanos: u32) -> Option<Seq<char>>;

/// The day (counted from 0001-01-01 as 1) and the second of that day of a
/// moment; nothing where it is out of range.
pub uninterp spec fn clock_of(secs: i64, nanos: u32) -> Option<(i32, u32)>;

/// The seconds from the Unix epoch to midnight of a day; nothing where the
/// day is out of range.
pub uninterp spec fn midnight_of(days: i32) -> Option<i64>;

/// The day and the second of that day of a moment that is in range: the
/// whole days since the Unix epoch, counted from 0001-01-01 as 1, and the
/// seconds left over.
pub open spec fn clock_at(secs: i64, nanos: u32) -> Option<(i32, u32)> {
    match clock_of(secs, nanos) {
        Some(_) => Some(
            ((secs as int / 86_400 + 719_163) as i32, (secs as int % 86_400) as u32),
        ),
        None => None,
    }
}

/// The seconds from the Unix epoch to midnight of a day that is in range:
/// 86400 for each day since 1970-01-01, which is day 719163.
pub open spec fn midnight_at(days: i32) -> Option<i64> {
    match midnight_of(days) {
        Some(_) => Some(((days - 719_163) * 86_400) as i64),
        None => None,
    }
}

/// The day that a text spells as `%Y-%m-%d`.
pub uninterp spec fn date_parsed(text: Seq<char>) -> Option<i32>;

/// The moment that a text spells as `%Y-%m-%d %H:%M:%S`, in seconds from
/// the Unix epoch.
pub uninterp spec fn datetime_parsed(text: Seq<char>) -> Option<i64>;

/// The second of the day and the nanoseconds that a text spells when read
/// by the format `format`.
pub uninterp spec fn time_parsed(text: Seq<char>, format: Seq<char>) -> Option<(u32, u32)>;

/// The moment that a text with a zone spells when read by the format
/// `format`, in seconds from the Unix epoch and nanoseconds.
pub uninterp spec fn zoned_parsed(text: Seq<char>, format: Seq<char>) -> Option<(i64, u32)>;

/// The format of a time of day, with a fraction of a second or without.
pub open spec fn time_format(fractional: bool) -> Seq<char> {
    if fractional {
        "%H:%M:%S%.f"@
    } else {
        "%H:%M:%S"@
    }
}

/// The format of a moment with a zone, with a fraction of a second or
/// without.
pub open spec fn zoned_format(fractional: bool) -> Seq<char> {
    if fractional {
        "%Y-%m-%d %H:%M:%S%.f%z"@
    } else {
        "%Y-%m-%d %H:%M:%S%z"@
    }
}

/// The format of a time of day.
pub fn time_format_of(fractional: bool) -> (r: &'static str)
    ensures
        r@ == time_format(fractional),
{
    if fractional {
        "%H:%M:%S%.f"
    } else {
        "%H:%M:%S"
    }
}

/// The format of a moment with a zone.
pub fn zoned_format_of(fractional: bool) -> (r: &'static str)
    ensures
        r@ == zoned_format(fractional),
{
    if fractional {
        "%Y-%m-%d %H:%M:%S%.f%z"
    } else {
        "%Y-%m-%d %H:%M:%S%z"
    }
}

/// `chrono::NaiveDate::from_num_days_from_ce_opt`, then `format` with
/// `%Y-%m-%d`.
#[verifier::external_body]
pub(crate) fn chrono_date_text(days: i32) -> (r: Option<String>)
    ensures
        r is Some <==> date_text_of(days) is Some,
        r matches Some(s) ==> s@ == date_text_of(days)->0,
{
    chrono::NaiveDate::from_num_days_from_ce_opt(days).map(|d| d.format("%Y-%m-%d").to_string())
}

/// `chrono::DateTime::from_timestamp`, then `format` with
/// `%Y-%m-%d %H:%M:%S`.
#[verifier::external_body]
pub(crate) fn chrono_datetime_text(secs: i64) -> (r: Option<String>)
    ensures
        r is Some <==> datetime_text_of(secs) is Some,
        r matches Some(s) ==> s@ == datetime_text_of(secs)->0,
{
    chrono::DateTime::from_timestamp(secs, 0).map(|d| d.format("%Y-%m-%d %H:%M:%S").to_string())
}

/// `chrono::NaiveTime::from_num_seconds_from_midnight_opt`, then `format`
/// with `%H:%M:%S%.f`.
#[verifier::external_body]
pub(crate) fn chrono_time_text(secs: u32, nanos: u32) -> (r: Option<String>)
    ensures
        r is Some <==> time_text_of(secs, nanos) is Some,
        r matches Some(s) ==> s@ == time_text_of(secs, nanos)->0,
{
    chrono::NaiveTime::from_num_seconds_from_midnight_opt(secs, nanos).map(
        |t| t.format("%H:%M:%S%.f").to_string(),
    )
}

/// `chrono::DateTime::from_timestamp`, then `format` with
/// `%Y-%m-%d %H:%M:%S%.f`.
#[verifier::external_body]
pub(crate) fn chrono_timestamp_text(secs: i64, nanos: u32) -> (r: Option<String>)
    ensures
        r is Some <==> timestamp_text_of(secs, nanos) is Some,
        r matches Some(s) ==> s@ == timestamp_text_of(secs, nanos)->0,
{
    chrono::DateTime::from_timestamp(secs, nanos).map(
        |d| d.format("%Y-%m-%d %H:%M:%S%.f").to_string(),
    )
}

/// `chrono::DateTime::from_timestamp`, read through `num_days_from_ce` of
/// its date and `num_seconds_from_midnight` of its time: where the moment
/// is in range, the day is the quotient of the seconds by 86400, counted
/// from day 719163, and the second of the day is the remainder.
#[verifier::external_body]
pub(crate) fn chrono_clock(secs: i64, nanos: u32) -> (r: Option<(i32, u32)>)
    ensures
        r == clock_of(secs, nanos),
        r == clock_at(secs, nanos),
{
    chrono::DateTime::from_timestamp(secs, nanos).map(
        |d|
            (
                chrono::Datelike::num_days_from_ce(&d.naive_utc().date()),
                chrono::Timelike::num_seconds_from_midnight(&d.time()),
            ),
    )
}

/// `chrono::NaiveDate::from_num_days_from_ce_opt`, then `and_hms_opt(0, 0,
/// 0)` and the timestamp of that moment in UTC: where the day is in range,
/// 86400 seconds for each day since day 719163.
#[verifier::external_body]
pub(crate) fn chrono_midnight(days: i32) -> (r: Option<i64>)
    ensures
        r == midnight_of(days),
        r == midnight_at(days),
{
    chrono::NaiveDate::from_num_days_from_ce_opt(days).and_then(|d| d.and_hms_opt(0, 0, 0)).map(
        |d| d.and_utc().timestamp(),
    )
}

/// `chrono::NaiveDate::parse_from_str` with `%Y-%m-%d`, read through
/// `num_days_from_ce`.
#[verifier::external_body]
pub(crate) fn chrono_parse_date(text: &str) -> (r: Option<i32>)
    ensures
        r == date_parsed(text@),
{
    chrono::NaiveDate::parse_from_str(text, "%Y-%m-%d").ok().map(
        |d| chrono::Datelike::num_days_from_ce(&d),
    )
}

/// `chrono::NaiveDateTime::parse_from_str` with `%Y-%m-%d %H:%M:%S`, read
/// through the timestamp of that moment in UTC.
#[verifier::external_body]
pub(crate) fn chrono_parse_datetime(text: &str) -> (r: Option<i64>)
    ensures
        r == datetime_parsed(text@),
{
    chrono::NaiveDateTime::parse_from_str(text, "%Y-%m-%d %H:%M:%S").ok().map(
        |d| d.and_utc().timestamp(),
    )
}

/// `chrono::NaiveTime::parse_from_str` with the given format, read through
/// `num_seconds_from_midnight` and `nanosecond`; nothing where the text
/// does not follow the format.
#[verifier::external_body]
pub(crate) fn chrono_parse_time(text: &str, format: &str) -> (r: Option<(u32, u32)>)
    ensures
        r == time_parsed(text@, format@),
{
    chrono::NaiveTime::parse_from_str(text, format).ok().map(
        |t| (chrono::Timelike::num_seconds_from_midnight(&t), chrono::Timelike::nanosecond(&t)),
    )
}

/// `chrono::DateTime::parse_from_str` with the given format, read through
/// `timestamp` and `timestamp_subsec_nanos`; nothing where the text does
/// not follow the format.
#[verifier::external_body]
pub(crate) fn chrono_parse_zoned(text: &str, format: &str) -> (r: Option<(i64, u32)>)
    ensures
        r == zoned_parsed(text@, format@),
{
    chrono::DateTime::parse_from_str(text, format).ok().map(
        |d| (d.timestamp(), d.timestamp_subsec_nanos()),
    )
}

/// 10 to the power `p`, for `p` up to 9.
pub open spec fn ten_to(p: u64) -> int {
    if p == 0 {
        1
    } else if p == 1 {
        10
    } else if p == 2 {
        100
    } else if p == 3 {
        1_000
    } else if p == 4 {
        10_000
    } else if p == 5 {
        100_000
    } else if p == 6 {
        1_000_000
    } else if p == 7 {
        10_000_000
    } else if p == 8 {
        100_000_000
    } else {
        1_000_000_000
    }
}

/// The weight of the fraction inside a packed time of day: 2 to the power
/// 28, 25, 22 or 18 for the precisions 1 to 4, and 2 to the power 31 for
/// every other.
pub open spec fn fraction_weight(precision: u64) -> int {
    if precision == 1 {
        0x1000_0000
    } else if precision == 2 {
        0x200_0000
    } else if precision == 3 {
        0x40_0000
    } else if precision == 4 {
        0x4_0000
    } else {
        0x8000_0000
    }
}

/// A time of day in one number: the second of the day in the low bits, and
/// above them the fraction of the second in units of the precision, as far
/// as it fits into 32 bits.
pub open spec fn packed(a: u32, b: u32, precision: u64) -> int {
    ((b as int / (1_000_000_000int / ten_to(precision))) * fraction_weight(precision))
        % 0x1_0000_0000 + a
}

/// The second of the day and the nanoseconds of a packed time of day.
pub open spec fn unpacked(combined: u32, precision: u64) -> (int, int) {
    (
        combined as int % fraction_weight(precision),
        (combined as int / fraction_weight(precision)) * (1_000_000_000int / ten_to(precision)),
    )
}

/// The seconds and nanoseconds of a timestamp of precision 0, 3, 6 or 9:
/// whole seconds, milli-, micro- or nanoseconds from the Unix epoch.
pub open spec fn timestamp_parts(v: i64, precision: u64) -> Option<(int, int)> {
    if precision == 0 {
        Some((v as int, 0int))
    } else if precision == 3 {
        Some((v as int / 1_000, (v as int % 1_000) * 1_000_000))
    } else if precision == 6 {
        Some((v as int / 1_000_000, (v as int % 1_000_000) * 1_000))
    } else if precision == 9 {
        Some((v as int / 1_000_000_000, v as int % 1_000_000_000))
    } else {
        None
    }
}

fn fraction_unit(precision: u64) -> (r: (u32, u64))
    requires
        precision <= 9,
    ensures
        r.0 == 1_000_000_000int / ten_to(precision),
        r.1 == fraction_weight(precision),
        r.0 >= 1,
{
    let unit: u32 = if precision == 0 {
        1_000_000_000
    } else if precision == 1 {
        100_000_000
    } else if precision == 2 {
        10_000_000
    } else if precision == 3 {
        1_000_000
    } else if precision == 4 {
        100_000
    } else if precision == 5 {
        10_000
    } else if precision == 6 {
        1_000
    } else if precision == 7 {
        100
    } else if precision == 8 {
        10
    } else {
        1
    };
    let weight: u64 = if precision == 1 {
        0x1000_0000
    } else if precision == 2 {
        0x200_0000
    } else if precision == 3 {
        0x40_0000
    } else if precision == 4 {
        0x4_0000
    } else {
        0x8000_0000
    };
    (unit, weight)
}

impl DataValue {
    /// Packs the second of the day `a` and the nanoseconds `b` into one number.
    pub fn pack(a: u32, b: u32, precision: u64) -> (r: u32)
        requires
            b <= ONE_SEC_TO_NANO,
            a <= ONE_DAY_TO_SEC,
            precision <= 9,
        ensures
            r == packed(a, b, precision),
    {
        let (unit, weight) = fraction_unit(precision);
        let scaled_b: u64 = (b / unit) as u64;
        let high: u64 = (scaled_b * weight) % 0x1_0000_0000;
        assert(high % weight == 0) by (nonlinear_arith)
            requires
                high == (scaled_b * weight) % 0x1_0000_0000,
                weight == 0x1000_0000 || weight == 0x200_0000 || weight == 0x40_0000 || weight
                    == 0x4_0000 || weight == 0x8000_0000,
        ;
        assert(high <= 0x1_0000_0000 - weight);
        (high + a as u64) as u32
    }

    /// The second of the day and the nanoseconds of a packed time of day.
    pub fn unpack(combined: u32, precision: u64) -> (r: (u32, u32))
        requires
            precision <= 9,
        ensures
            r.0 == unpacked(combined, precision).0,
            r.1 == unpacked(combined, precision).1,
    {
        let (unit, weight) = fraction_unit(precision);
        let scaled_a: u64 = combined as u64 / weight;
        let b: u64 = combined as u64 % weight;
        assert(scaled_a * (unit as u64) <= 0xFFFF_FFFF) by (nonlinear_arith)
            requires
                scaled_a == combined as u64 / weight,
                combined <= 0xFFFF_FFFF,
                (weight == 0x1000_0000 && unit == 100_000_000) || (weight == 0x200_0000 && unit
                    == 10_000_000) || (weight == 0x40_0000 && unit == 1_000_000) || (weight == 0x4_0000
                    && unit == 100_000) || (weight == 0x8000_0000 && unit <= 1_000_000_000),
        ;
        (b as u32, (scaled_a * unit as u64) as u32)
    }

    /// The seconds and nanoseconds of a timestamp of precision 0, 3, 6 or 9.
    pub fn from_timestamp_precision(v: i64, precision: u64) -> (r: Option<(i64, u32)>)
        ensures
            match timestamp_parts(v, precision) {
                Some(p) => r matches Some(x) && x.0 == p.0 && x.1 == p.1,
                None => r is None,
            },
    {
        if precision == 0 {
            Some((v, 0))
        } else if precision == 3 {
            Some(split(v, 1_000, 1_000_000))
        } else if precision == 6 {
            Some(split(v, 1_000_000, 1_000))
        } else if precision == 9 {
            Some(split(v, 1_000_000_000, 1))
        } else {
            None
        }
    }
}

/// `v` in whole units of `per` and the rest in units of `per / scale`:
/// division that rounds down, so that the rest is never negative.
fn split(v: i64, per: i64, scale: u32) -> (r: (i64, u32))
    requires
        (per == 1_000 && scale == 1_000_000) || (per == 1_000_000 && scale == 1_000) || (per
            == 1_000_000_000 && scale == 1),
    ensures
        r.0 == v as int / per as int,
        r.1 == (v as int % per as int) * scale,
{
    let (q, m): (i64, i64) = if v >= 0 {
        (v / per, v % per)
    } else {
        let n: i64 = -(v + 1);
        (-(n / per) - 1, per - 1 - n % per)
    };
    assert(0 <= m < per);
    if per == 1_000 {
        (q, (m as u32) * 1_000_000)
    } else if per == 1_000_000 {
        (q, (m as u32) * 1_000)
    } else {
        (q, m as u32)
    }
}

} // verus!
