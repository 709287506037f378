//! UTC hours: the buckets that the stream is cut into, their keys, the
//! names derived from them, and the hours to catch up on at startup.

use crate::text::{
    digit_byte, ends_with_seq, lemma_lex_common_prefix, lemma_padded_len, lemma_two_digits,
    lex_le, lit, occurs_at, push_text, push_zero_padded, zero_padded,
};
use chrono::{Datelike, NaiveDate};
use vstd::prelude::*;
use vstd::string::*;

verus! {

/// Seconds in an hour.
pub const SECONDS_PER_HOUR: i64 = 3600;

/// Seconds in a day.
pub const SECONDS_PER_DAY: i64 = 86400;

/// The earliest time, in seconds since 1970, that the hour arithmetic
/// accepts. The bounds leave room for every shift that the settings can ask
/// for.
pub const MIN_TIME: i64 = -0x4000_0000_0000_0000;

/// The latest time that the hour arithmetic accepts.
pub const MAX_TIME: i64 = 0x4000_0000_0000_0000;

/// The start of the UTC hour that holds the second `t`.
pub open spec fn hour_start(t: int) -> int {
    t - t % 3600
}

/// The day, counted from 1970-01-01, that holds the second `t`.
pub open spec fn epoch_day(t: int) -> int {
    t / 86400
}

/// The remainder of `t` by a positive `d`, never negative.
fn floor_mod(t: i64, d: i64) -> (r: i64)
    requires
        d > 0,
    ensures
        r == t as int % d as int,
        0 <= r < d,
{
    if t >= 0 {
        t % d
    } else {
        let m: i64 = (-(t + 1)) % d;
        proof {
            let q = -(t as int + 1);
            assert(q == d * (q / d as int) + m) by (nonlinear_arith)
                requires
                    d > 0,
                    q >= 0,
                    m == q % d as int,
            ;
            let k = q / d as int;
            assert(t as int == d * (-k - 1) + (d - 1 - m)) by (nonlinear_arith)
                requires
                    q == d * k + m,
                    q == -(t as int + 1),
            ;
            vstd::arithmetic::div_mod::lemma_fundamental_div_mod_converse(
                t as int,
                d as int,
                -k - 1,
                d - 1 - m,
            );
        }
        d - 1 - m
    }
}

/// Cuts a time down to the start of its UTC hour.
pub fn floor_to_hour(secs: i64) -> (r: i64)
    requires
        MIN_TIME <= secs <= MAX_TIME,
    ensures
        r == hour_start(secs as int),
        r % 3600 == 0,
        r <= secs < r + 3600,
{
    let rem = floor_mod(secs, SECONDS_PER_HOUR);
    proof {
        let t = secs as int;
        assert((t - t % 3600) % 3600 == 0) by {
            vstd::arithmetic::div_mod::lemma_fundamental_div_mod(t, 3600);
            vstd::arithmetic::div_mod::lemma_mod_multiples_basic(t / 3600, 3600);
            assert(t - t % 3600 == 3600 * (t / 3600));
            assert(3600 * (t / 3600) == (t / 3600) * 3600) by (nonlinear_arith);
        }
    }
    secs - rem
}

/// One closed hour to convert: the start of the hour, in seconds since 1970.
#[derive(Clone, Copy, Debug, PartialEq, Eq, Structural)]
pub struct ConversionJob {
    pub hour_start: i64,
}

/// The hours to catch up on: `24 * max_days_back` of them, the newest
/// first, each an hour before the last. The newest is the hour that held
/// the moment `shift_hours` before `now`.
pub open spec fn catchup_hours(now: int, shift_hours: int, max_days_back: int) -> Seq<int> {
    let anchor = hour_start(now - 3600 * shift_hours);
    Seq::new((24 * max_days_back) as nat, |k: int| anchor - 3600 * k)
}

/// A list of jobs as the starts of their hours.
pub open spec fn job_hours(jobs: Seq<ConversionJob>) -> Seq<int> {
    Seq::new(jobs.len(), |i: int| jobs[i].hour_start as int)
}

/// Plans the hours to catch up on at startup, the newest first.
pub fn enqueue_startup_catchup_hours(now: i64, shift_hours: u32, max_days_back: u32) -> (r: Vec<
    ConversionJob,
>)
    requires
        MIN_TIME <= now <= MAX_TIME,
    ensures
        job_hours(r@) == catchup_hours(now as int, shift_hours as int, max_days_back as int),
{
    let total: u64 = (max_days_back as u64) * 24;
    let shifted: i64 = now - (shift_hours as i64) * SECONDS_PER_HOUR;
    let rem = floor_mod(shifted, SECONDS_PER_HOUR);
    let anchor: i64 = shifted - rem;
    let mut jobs: Vec<ConversionJob> = Vec::new();
    let mut k: u64 = 0;
    while k < total
        invariant
            k <= total,
            total == max_days_back as int * 24,
            anchor == hour_start(now as int - 3600 * shift_hours as int),
            MIN_TIME - 0x4000_0000_0000 <= anchor <= MAX_TIME,
            jobs@.len() == k,
            forall|i: int| 0 <= i < k ==> (#[trigger] jobs@[i]).hour_start == anchor - 3600 * i,
        decreases total - k,
    {
        let hour: i64 = anchor - (k as i64) * SECONDS_PER_HOUR;
        jobs.push(ConversionJob { hour_start: hour });
        k += 1;
    }
    proof {
        assert(job_hours(jobs@) =~= catchup_hours(
            now as int,
            shift_hours as int,
            max_days_back as int,
        ));
    }
    jobs
}

/// The catch-up law: the plan holds `24 * max_days_back` hours; its first
/// is the hour of the moment `shift_hours` before now; every entry is the
/// start of an hour, and each is exactly one hour before the one before it,
/// so that all are distinct and strictly decreasing.
pub proof fn lemma_catchup_plan(now: int, shift_hours: int, max_days_back: int)
    requires
        0 <= shift_hours,
        0 <= max_days_back,
    ensures
        ({
            let plan = catchup_hours(now, shift_hours, max_days_back);
            &&& plan.len() == 24 * max_days_back
            &&& max_days_back > 0 ==> plan[0] == hour_start(now - 3600 * shift_hours)
            &&& forall|i: int| 0 <= i < plan.len() ==> (#[trigger] plan[i]) % 3600 == 0
            &&& forall|i: int| 0 <= i < plan.len() - 1 ==> #[trigger] plan[i + 1] == plan[i] - 3600
            &&& forall|i: int, j: int| 0 <= i < j < plan.len() ==> #[trigger] plan[i] > #[trigger] plan[j]
        }),
{
    let plan = catchup_hours(now, shift_hours, max_days_back);
    let t = now - 3600 * shift_hours;
    let anchor = hour_start(t);
    assert(anchor % 3600 == 0) by {
        vstd::arithmetic::div_mod::lemma_fundamental_div_mod(t, 3600);
        vstd::arithmetic::div_mod::lemma_mod_multiples_basic(t / 3600, 3600);
        assert(t - t % 3600 == 3600 * (t / 3600));
        assert(3600 * (t / 3600) == (t / 3600) * 3600) by (nonlinear_arith);
    }
    assert forall|i: int| 0 <= i < plan.len() implies (#[trigger] plan[i]) % 3600 == 0 by {
        assert(plan[i] == anchor - 3600 * i);
        let q = anchor / 3600;
        vstd::arithmetic::div_mod::lemma_fundamental_div_mod(anchor, 3600);
        assert(anchor - 3600 * i == (q - i) * 3600) by (nonlinear_arith)
            requires
                anchor == 3600 * q + anchor % 3600,
                anchor % 3600 == 0,
        ;
        vstd::arithmetic::div_mod::lemma_mod_multiples_basic(q - i, 3600);
    }
}

/// The date of a day in the proleptic Gregorian calendar, as the calendar
/// crate works it out: year, month, day of the month and day of the year of
/// the day that lies `epoch_day` days after 1970-01-01; none for a day
/// outside the calendar's range.
pub uninterp spec fn gregorian_date(epoch_day: int) -> Option<(int, int, int, int)>;

/// A date as plain numbers.
pub open spec fn date_view(d: Option<(i32, u32, u32, u32)>) -> Option<(int, int, int, int)> {
    match d {
        Some(d) => Some((d.0 as int, d.1 as int, d.2 as int, d.3 as int)),
        None => None,
    }
}

/// Calls `NaiveDate::from_epoch_days` of the calendar crate and reads the
/// date it gives with `Datelike::year`, `month`, `day` and `ordinal`. The
/// month is from 1 to 12, the day of the month from 1 to 31 and the day of
/// the year from 1 to 366, as that crate documents.
#[verifier::external_body]
fn date_of_epoch_day(days: i32) -> (r: Option<(i32, u32, u32, u32)>)
    ensures
        date_view(r) == gregorian_date(days as int),
        match r {
            Some(d) => 1 <= d.1 <= 12 && 1 <= d.2 <= 31 && 1 <= d.3 <= 366,
            None => true,
        },
{
    match NaiveDate::from_epoch_days(days) {
        Some(date) => Some((date.year(), date.month(), date.day(), date.ordinal())),
        None => None,
    }
}

/// A moment in UTC, taken apart.
#[derive(Clone, Copy, Debug, PartialEq, Eq, Structural)]
pub struct UtcTime {
    pub year: i32,
    pub month: u32,
    pub day: u32,
    /// The day of the year, from one.
    pub ordinal: u32,
    pub hour: u32,
    pub minute: u32,
    pub second: u32,
}

/// The date of a moment with its time of day: a day has 86400 seconds, of
/// which the hours, minutes and seconds are counted from midnight. There is
/// none where the calendar has no date for the day.
pub open spec fn utc_of(secs: int) -> Option<UtcTime> {
    let day = epoch_day(secs);
    let rem = secs % 86400;
    if -0x8000_0000 <= day <= 0x7FFF_FFFF {
        match gregorian_date(day) {
            Some(d) => Some(
                UtcTime {
                    year: d.0 as i32,
                    month: d.1 as u32,
                    day: d.2 as u32,
                    ordinal: d.3 as u32,
                    hour: (rem / 3600) as u32,
                    minute: (rem % 3600 / 60) as u32,
                    second: (rem % 60) as u32,
                },
            ),
            None => None,
        }
    } else {
        None
    }
}

/// The fields of a moment are in their ranges.
pub open spec fn utc_in_range(t: UtcTime) -> bool {
    &&& 1 <= t.month <= 12
    &&& 1 <= t.day <= 31
    &&& 1 <= t.ordinal <= 366
    &&& t.hour <= 23
    &&& t.minute <= 59
    &&& t.second <= 59
}

/// Takes a moment, given in seconds since 1970, apart.
pub fn utc_time(secs: i64) -> (r: Option<UtcTime>)
    ensures
        r == utc_of(secs as int),
        match r {
            Some(t) => utc_in_range(t),
            None => true,
        },
{
    if secs < MIN_TIME || secs > MAX_TIME {
        proof {
            let t = secs as int;
            vstd::arithmetic::div_mod::lemma_fundamental_div_mod(t, 86400);
        }
        return None;
    }
    let rem: i64 = floor_mod(secs, SECONDS_PER_DAY);
    let day: i64 = (secs - rem) / SECONDS_PER_DAY;
    proof {
        let t = secs as int;
        vstd::arithmetic::div_mod::lemma_fundamental_div_mod(t, 86400);
        assert(t - t % 86400 == 86400 * (t / 86400));
        vstd::arithmetic::div_mod::lemma_div_multiples_vanish(t / 86400, 86400);
        assert(86400 * (t / 86400) == (t / 86400) * 86400) by (nonlinear_arith);
        if t - t % 86400 < 0 {
            // The quotient of an exact division does not depend on how negative numbers round.
            assert((secs - rem) as int == (t / 86400) * 86400);
        }
    }
    if day < -0x8000_0000 || day > 0x7FFF_FFFF {
        return None;
    }
    match date_of_epoch_day(day as i32) {
        None => None,
        Some(d) => Some(
            UtcTime {
                year: d.0,
                month: d.1,
                day: d.2,
                ordinal: d.3,
                hour: (rem / 3600) as u32,
                minute: (rem % 3600 / 60) as u32,
                second: (rem % 60) as u32,
            },
        ),
    }
}

/// The years that names are written for: those of four digits.
pub open spec fn nameable(t: UtcTime) -> bool {
    0 <= t.year <= 9999
}

/// The key of an hour: `YYYYMMDD_HH`.
pub open spec fn key_of(t: UtcTime) -> Seq<u8> {
    zero_padded(t.year as nat, 4) + zero_padded(t.month as nat, 2) + zero_padded(t.day as nat, 2)
        + seq![0x5fu8] + zero_padded(t.hour as nat, 2)
}

/// The stamp of a second: `YYYYMMDD_HHMMSS`.
pub open spec fn stamp_of(t: UtcTime) -> Seq<u8> {
    key_of(t) + zero_padded(t.minute as nat, 2) + zero_padded(t.second as nat, 2)
}

/// The name of the segment file opened at a moment: the stamp, then `.ubx`.
pub open spec fn segment_name_of(t: UtcTime) -> Seq<u8> {
    stamp_of(t) + lit(".ubx"@)
}

/// How messages name an hour: `YYYY-MM-DD HH:00`.
pub open spec fn label_of(t: UtcTime) -> Seq<u8> {
    zero_padded(t.year as nat, 4) + seq![0x2du8] + zero_padded(t.month as nat, 2) + seq![0x2du8]
        + zero_padded(t.day as nat, 2) + seq![0x20u8] + zero_padded(t.hour as nat, 2) + lit(
        ":00"@,
    )
}

/// The archive's directory of a year: `YYYY`.
pub open spec fn year_dir_of(t: UtcTime) -> Seq<u8> {
    zero_padded(t.year as nat, 4)
}

/// The archive's directory of a day: the day of the year in three digits.
pub open spec fn day_dir_of(t: UtcTime) -> Seq<u8> {
    zero_padded(t.ordinal as nat, 3)
}

/// The epoch of an hour as long product names write it: year, day of the
/// year, hour, and two zeros for the minute.
pub open spec fn epoch_token_of(t: UtcTime) -> Seq<u8> {
    zero_padded(t.year as nat, 4) + zero_padded(t.ordinal as nat, 3) + zero_padded(
        t.hour as nat,
        2,
    ) + lit("00"@)
}

/// Takes a moment apart if names can be written for it.
pub fn nameable_time(secs: i64) -> (r: Option<UtcTime>)
    ensures
        match r {
            Some(t) => utc_of(secs as int) == Some(t) && nameable(t) && utc_in_range(t),
            None => match utc_of(secs as int) {
                Some(t) => !nameable(t),
                None => true,
            },
        },
{
    match utc_time(secs) {
        Some(t) => if 0 <= t.year && t.year <= 9999 {
            Some(t)
        } else {
            None
        },
        None => None,
    }
}

/// Appends the key of an hour.
fn push_key(out: &mut Vec<u8>, t: &UtcTime)
    requires
        nameable(*t),
    ensures
        final(out)@ == old(out)@ + key_of(*t),
{
    push_zero_padded(out, t.year as u64, 4);
    push_zero_padded(out, t.month as u64, 2);
    push_zero_padded(out, t.day as u64, 2);
    out.push(0x5f);
    push_zero_padded(out, t.hour as u64, 2);
    proof {
        assert(out@ =~= old(out)@ + key_of(*t));
    }
}

/// Writes the key of the hour of a moment.
pub fn hour_key(t: &UtcTime) -> (r: Vec<u8>)
    requires
        nameable(*t),
    ensures
        r@ == key_of(*t),
{
    let mut out: Vec<u8> = Vec::new();
    push_key(&mut out, t);
    proof {
        assert(out@ =~= key_of(*t));
    }
    out
}

/// Writes the name of the segment file opened at a moment.
pub fn segment_file_name(t: &UtcTime) -> (r: Vec<u8>)
    requires
        nameable(*t),
    ensures
        r@ == segment_name_of(*t),
{
    proof {
        reveal_strlit(".ubx");
    }
    let mut out: Vec<u8> = Vec::new();
    push_key(&mut out, t);
    push_zero_padded(&mut out, t.minute as u64, 2);
    push_zero_padded(&mut out, t.second as u64, 2);
    push_text(&mut out, ".ubx");
    proof {
        assert(out@ =~= segment_name_of(*t));
    }
    out
}

/// Writes the name of an hour for messages.
pub fn hour_label(t: &UtcTime) -> (r: Vec<u8>)
    requires
        nameable(*t),
    ensures
        r@ == label_of(*t),
{
    proof {
        reveal_strlit(":00");
    }
    let mut out: Vec<u8> = Vec::new();
    push_zero_padded(&mut out, t.year as u64, 4);
    out.push(0x2d);
    push_zero_padded(&mut out, t.month as u64, 2);
    out.push(0x2d);
    push_zero_padded(&mut out, t.day as u64, 2);
    out.push(0x20);
    push_zero_padded(&mut out, t.hour as u64, 2);
    push_text(&mut out, ":00");
    proof {
        assert(out@ =~= label_of(*t));
    }
    out
}

/// Writes the archive's directory of a year.
pub fn year_dir(t: &UtcTime) -> (r: Vec<u8>)
    requires
        nameable(*t),
    ensures
        r@ == year_dir_of(*t),
{
    let mut out: Vec<u8> = Vec::new();
    push_zero_padded(&mut out, t.year as u64, 4);
    proof {
        assert(out@ =~= year_dir_of(*t));
    }
    out
}

/// Writes the archive's directory of a day.
pub fn day_dir(t: &UtcTime) -> (r: Vec<u8>)
    ensures
        r@ == day_dir_of(*t),
{
    let mut out: Vec<u8> = Vec::new();
    push_zero_padded(&mut out, t.ordinal as u64, 3);
    proof {
        assert(out@ =~= day_dir_of(*t));
    }
    out
}

/// Writes the epoch of an hour as long product names write it.
pub fn epoch_token(t: &UtcTime) -> (r: Vec<u8>)
    requires
        nameable(*t),
    ensures
        r@ == epoch_token_of(*t),
{
    proof {
        reveal_strlit("00");
    }
    let mut out: Vec<u8> = Vec::new();
    push_zero_padded(&mut out, t.year as u64, 4);
    push_zero_padded(&mut out, t.ordinal as u64, 3);
    push_zero_padded(&mut out, t.hour as u64, 2);
    push_text(&mut out, "00");
    proof {
        assert(out@ =~= epoch_token_of(*t));
    }
    out
}

/// A key has eleven bytes, a stamp fifteen and an epoch eleven.
pub proof fn lemma_name_lengths(t: UtcTime)
    requires
        nameable(t),
        utc_in_range(t),
    ensures
        key_of(t).len() == 11,
        stamp_of(t).len() == 15,
        segment_name_of(t).len() == 19,
        epoch_token_of(t).len() == 11,
        label_of(t).len() == 16,
{
    lemma_padded_len(t.year as nat);
    lemma_padded_len(t.month as nat);
    lemma_padded_len(t.day as nat);
    lemma_padded_len(t.ordinal as nat);
    lemma_padded_len(t.hour as nat);
    lemma_padded_len(t.minute as nat);
    lemma_padded_len(t.second as nat);
    reveal_strlit(".ubx");
    reveal_strlit("00");
    reveal_strlit(":00");
}

/// The start of an hour lies on the same day and in the same hour as every
/// moment of the hour, at minute and second zero.
pub proof fn lemma_hour_start_time(secs: int)
    ensures
        epoch_day(hour_start(secs)) == epoch_day(secs),
        match (utc_of(secs), utc_of(hour_start(secs))) {
            (Some(t), Some(h)) => h == (UtcTime { minute: 0, second: 0, ..t }),
            (None, None) => true,
            _ => false,
        },
{
    let h = hour_start(secs);
    assert(h / 86400 == secs / 86400 && h % 86400 == secs % 86400 - secs % 3600 && (h % 86400)
        / 3600 == (secs % 86400) / 3600 && (h % 86400) % 3600 == 0 && (h % 86400) % 60 == 0) by {
        vstd::arithmetic::div_mod::lemma_fundamental_div_mod(secs, 86400);
        vstd::arithmetic::div_mod::lemma_fundamental_div_mod(secs, 3600);
        vstd::arithmetic::div_mod::lemma_fundamental_div_mod(secs % 86400, 3600);
        let d = secs / 86400;
        let r = secs % 86400;
        let k = r / 3600;
        // secs = 86400 d + 3600 k + (r % 3600), so its remainder by 3600 is r % 3600.
        vstd::arithmetic::div_mod::lemma_fundamental_div_mod_converse(
            secs,
            3600,
            24 * d + k,
            r % 3600,
        );
        vstd::arithmetic::div_mod::lemma_fundamental_div_mod_converse(h, 86400, d, 3600 * k);
        vstd::arithmetic::div_mod::lemma_fundamental_div_mod_converse(3600 * k, 3600, k, 0);
        vstd::arithmetic::div_mod::lemma_fundamental_div_mod_converse(3600 * k, 60, 60 * k, 0);
    }
}

/// The segment file opened at any moment of an hour is found again under
/// the hour's key: its name begins with the key and has the extension
/// `ubx`.
pub proof fn lemma_segment_found_by_key(secs: int)
    requires
        utc_of(secs).is_some(),
        nameable(utc_of(secs).unwrap()),
    ensures
        utc_of(hour_start(secs)).is_some(),
        occurs_at(
            segment_name_of(utc_of(secs).unwrap()),
            key_of(utc_of(hour_start(secs)).unwrap()),
            0,
        ),
        ends_with_seq(segment_name_of(utc_of(secs).unwrap()), lit(".ubx"@)),
        segment_name_of(utc_of(secs).unwrap()).len() > 4,
{
    lemma_hour_start_time(secs);
    let t = utc_of(secs).unwrap();
    let h = utc_of(hour_start(secs)).unwrap();
    assert(key_of(h) == key_of(t));
    let name = segment_name_of(t);
    assert(name.subrange(0, key_of(t).len() as int) =~= key_of(t));
    reveal_strlit(".ubx");
    assert(name.subrange(name.len() - 4, name.len() as int) =~= lit(".ubx"@));
    lemma_padded_len(t.year as nat);
}

/// Why no hours can be planned.
#[derive(Clone, Copy, Debug, PartialEq, Eq, Structural)]
pub enum PlanError {
    /// The window reaches back zero days.
    NoDays,
}

/// Plans the hours that a conversion run goes through, the newest first:
/// the same hours as the catch-up at startup, but a window of zero days is
/// refused.
pub fn convert_recent_hours(now: i64, shift_hours: u32, max_days_back: u32) -> (r: Result<
    Vec<ConversionJob>,
    PlanError,
>)
    requires
        MIN_TIME <= now <= MAX_TIME,
    ensures
        match r {
            Ok(jobs) => max_days_back > 0 && job_hours(jobs@) == catchup_hours(
                now as int,
                shift_hours as int,
                max_days_back as int,
            ),
            Err(e) => max_days_back == 0 && e == PlanError::NoDays,
        },
{
    if max_days_back == 0 {
        return Err(PlanError::NoDays);
    }
    Ok(enqueue_startup_catchup_hours(now, shift_hours, max_days_back))
}

/// The minute and second of a stamp, as four digits.
pub open spec fn clock_digits(t: UtcTime) -> Seq<u8> {
    zero_padded(t.minute as nat, 2) + zero_padded(t.second as nat, 2)
}

/// Within an hour, segment files opened later have later names: no two
/// moments of an hour share a name, and the names come in the order of the
/// moments.
pub proof fn lemma_segment_names_increase(a: int, b: int)
    requires
        a < b,
        hour_start(a) == hour_start(b),
        utc_of(a).is_some(),
    ensures
        utc_of(b).is_some(),
        key_of(utc_of(a).unwrap()) == key_of(utc_of(b).unwrap()),
        segment_name_of(utc_of(a).unwrap()) != segment_name_of(utc_of(b).unwrap()),
        lex_le(segment_name_of(utc_of(a).unwrap()), segment_name_of(utc_of(b).unwrap())),
        !lex_le(segment_name_of(utc_of(b).unwrap()), segment_name_of(utc_of(a).unwrap())),
{
    lemma_hour_start_time(a);
    lemma_hour_start_time(b);
    let ta = utc_of(a).unwrap();
    let tb = utc_of(b).unwrap();
    assert(utc_of(b).is_some());
    assert(ta.year == tb.year && ta.month == tb.month && ta.day == tb.day && ta.hour == tb.hour);
    // Within the hour the moments differ by their seconds past the hour.
    let ra = a % 86400;
    let rb = b % 86400;
    assert(a - hour_start(a) == a % 3600);
    assert(b - hour_start(b) == b % 3600);
    assert(ra % 3600 == a % 3600 && rb % 3600 == b % 3600) by {
        vstd::arithmetic::div_mod::lemma_fundamental_div_mod(a, 86400);
        vstd::arithmetic::div_mod::lemma_fundamental_div_mod(ra, 3600);
        vstd::arithmetic::div_mod::lemma_fundamental_div_mod_converse(
            a,
            3600,
            24 * (a / 86400) + ra / 3600,
            ra % 3600,
        );
        vstd::arithmetic::div_mod::lemma_fundamental_div_mod(b, 86400);
        vstd::arithmetic::div_mod::lemma_fundamental_div_mod(rb, 3600);
        vstd::arithmetic::div_mod::lemma_fundamental_div_mod_converse(
            b,
            3600,
            24 * (b / 86400) + rb / 3600,
            rb % 3600,
        );
    }
    let pa = a % 3600;
    let pb = b % 3600;
    assert(pa < pb);
    assert(ta.minute == pa / 60 && ta.second == pa % 60);
    assert(tb.minute == pb / 60 && tb.second == pb % 60);
    assert(ra % 60 == pa % 60 && rb % 60 == pb % 60) by {
        vstd::arithmetic::div_mod::lemma_fundamental_div_mod(ra, 3600);
        vstd::arithmetic::div_mod::lemma_fundamental_div_mod(pa, 60);
        vstd::arithmetic::div_mod::lemma_fundamental_div_mod_converse(
            ra,
            60,
            60 * (ra / 3600) + pa / 60,
            pa % 60,
        );
        vstd::arithmetic::div_mod::lemma_fundamental_div_mod(rb, 3600);
        vstd::arithmetic::div_mod::lemma_fundamental_div_mod(pb, 60);
        vstd::arithmetic::div_mod::lemma_fundamental_div_mod_converse(
            rb,
            60,
            60 * (rb / 3600) + pb / 60,
            pb % 60,
        );
    }
    let (ma, sa) = (ta.minute as nat, ta.second as nat);
    let (mb, sb) = (tb.minute as nat, tb.second as nat);
    assert(ma < mb || (ma == mb && sa < sb));
    lemma_two_digits(ma);
    lemma_two_digits(sa);
    lemma_two_digits(mb);
    lemma_two_digits(sb);
    let ext = lit(".ubx"@);
    let xa = clock_digits(ta) + ext;
    let xb = clock_digits(tb) + ext;
    let da = seq![
        digit_byte((ma / 10) as int),
        digit_byte((ma % 10) as int),
        digit_byte((sa / 10) as int),
        digit_byte((sa % 10) as int),
    ];
    let db = seq![
        digit_byte((mb / 10) as int),
        digit_byte((mb % 10) as int),
        digit_byte((sb / 10) as int),
        digit_byte((sb % 10) as int),
    ];
    assert(clock_digits(ta) =~= da);
    assert(clock_digits(tb) =~= db);
    lemma_digits_order(da, db, ext);
    assert(segment_name_of(ta) =~= key_of(ta) + xa);
    assert(segment_name_of(tb) =~= key_of(ta) + xb);
    lemma_lex_common_prefix(key_of(ta), xa, xb);
    lemma_lex_common_prefix(key_of(ta), xb, xa);
    if segment_name_of(ta) == segment_name_of(tb) {
        assert(xa =~= (key_of(ta) + xa).subrange(key_of(ta).len() as int, (key_of(ta) + xa).len() as int));
        assert(xb =~= (key_of(ta) + xb).subrange(key_of(ta).len() as int, (key_of(ta) + xb).len() as int));
    }
}

/// Of two runs of four bytes that differ, the one with the smaller byte at
/// the first difference comes first, whatever follows the runs.
proof fn lemma_digits_order(da: Seq<u8>, db: Seq<u8>, rest: Seq<u8>)
    requires
        da.len() == 4,
        db.len() == 4,
        exists|k: int|
            0 <= k < 4 && da[k] < db[k] && forall|j: int| 0 <= j < k ==> da[j] == db[j],
    ensures
        lex_le(da + rest, db + rest),
        !lex_le(db + rest, da + rest),
        da + rest != db + rest,
{
    let k = choose|k: int|
        0 <= k < 4 && da[k] < db[k] && forall|j: int| 0 <= j < k ==> da[j] == db[j];
    let x = da + rest;
    let y = db + rest;
    assert(x[k] == da[k] && y[k] == db[k]);
    lemma_first_difference(x, y, k);
}

/// Where two texts agree up to a place and differ there, the one with the
/// smaller byte at the place comes first.
proof fn lemma_first_difference(x: Seq<u8>, y: Seq<u8>, k: int)
    requires
        0 <= k < x.len(),
        k < y.len(),
        x[k] < y[k],
        forall|j: int| 0 <= j < k ==> x[j] == y[j],
    ensures
        lex_le(x, y),
        !lex_le(y, x),
    decreases k,
{
    if k > 0 {
        assert(x[0] == y[0]);
        assert forall|j: int| 0 <= j < k - 1 implies x.drop_first()[j] == y.drop_first()[j] by {
            assert(x[j + 1] == y[j + 1]);
        }
        lemma_first_difference(x.drop_first(), y.drop_first(), k - 1);
    }
}

} // verus!
