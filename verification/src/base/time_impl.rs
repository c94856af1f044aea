//! Time helpers: the current Unix time in microseconds, conversions between
//! epoch microseconds and date-times, parsing of RFC 3339 / ISO 8601 text,
//! and weekday names.

use std::time::{Duration, SystemTime, UNIX_EPOCH};
use time::format_description::well_known::{Iso8601, Rfc3339};
use time::{Date, OffsetDateTime, PrimitiveDateTime, Time, UtcOffset};
use vstd::prelude::*;

use crate::base::chars::{chars_of, has_prefix, push_chars, push_str};
use crate::base::number_text::decimal;
use crate::base::text::{trim_spec, trimmed_chars};
use crate::error::{is_custom_error, Error, Result};

verus! {

// region:    --- Outside calls

/// std's system time type.
#[verifier::external_type_specification]
#[verifier::external_body]
pub struct ExSystemTime(SystemTime);

/// std's `SystemTime::now`: the current time, of which nothing is stated.
#[verifier::external_body]
fn system_time_now() -> SystemTime {
    SystemTime::now()
}

/// std's `SystemTime::duration_since(UNIX_EPOCH)`, `None` when the time is
/// before the epoch; nothing is stated of the duration.
#[verifier::external_body]
fn since_unix_epoch(t: &SystemTime) -> Option<Duration> {
    t.duration_since(UNIX_EPOCH).ok()
}

/// std's `Duration::as_micros`; nothing is stated of the value.
#[verifier::external_body]
fn duration_micros(d: &Duration) -> u128 {
    d.as_micros()
}

// endregion: --- Outside calls

/// Microseconds since the epoch as an `i64`: capped at `i64::MAX`, and zero
/// when the clock reads before the epoch.
pub fn micros_to_i64(micros: Option<u128>) -> (r: i64)
    ensures
        r == match micros {
            Some(m) => if m <= i64::MAX {
                m as int
            } else {
                i64::MAX as int
            },
            None => 0,
        },
{
    match micros {
        Some(m) => if m <= i64::MAX as u128 {
            m as i64
        } else {
            i64::MAX
        },
        None => 0,
    }
}

/// The current Unix time in microseconds; zero if the clock reads before
/// the epoch (the largest `i64` is some 292,000 years away).
pub fn now_micro() -> (r: i64)
    ensures
        r >= 0,
{
    let now = system_time_now();
    let micros = match since_unix_epoch(&now) {
        Some(d) => Some(duration_micros(&d)),
        None => None,
    };
    micros_to_i64(micros)
}

// region:    --- Date-times

/// The date-time type of the `time` crate.
#[verifier::external_type_specification]
#[verifier::external_body]
pub struct ExOffsetDateTime(OffsetDateTime);

/// Nanoseconds in a day.
pub open spec fn nanos_per_day() -> int {
    86_400_000_000_000
}

/// Whether an instant (Unix nanoseconds) and an offset (seconds) are within
/// what the `time` crate holds: local dates of the years -9999 to 9999, so
/// Unix times within 4 * 10^20 nanoseconds of the epoch, and offsets within
/// ±25:59:59.
pub open spec fn held(p: (int, int)) -> bool {
    -400_000_000_000_000_000_000 < p.0 < 400_000_000_000_000_000_000 && -93_599 <= p.1 <= 93_599
}

/// A date-time of the `time` crate together with what it is: its Unix time
/// in nanoseconds and its UTC offset in seconds (which fix it). Values come
/// only from the calls into `time` below, which fill both parts.
#[derive(Debug, Clone, Copy)]
pub struct EpochDateTime {
    dt: OffsetDateTime,
    unix_nanos: i128,
    offset_seconds: i32,
}

impl View for EpochDateTime {
    type V = (int, int);

    /// The Unix time in nanoseconds and the UTC offset in seconds.
    closed spec fn view(&self) -> (int, int) {
        (self.unix_nanos as int, self.offset_seconds as int)
    }
}

impl EpochDateTime {
    /// The Unix time in nanoseconds.
    pub fn unix_nanos(&self) -> (r: i128)
        ensures
            r == self@.0,
    {
        self.unix_nanos
    }

    /// The UTC offset in seconds.
    pub fn offset_seconds(&self) -> (r: i32)
        ensures
            r == self@.1,
    {
        self.offset_seconds
    }

    /// The `time` crate's date-time (for its calendar fields).
    pub fn offset_datetime(&self) -> OffsetDateTime {
        self.dt
    }
}

/// The views of an optional date-time.
pub open spec fn opt_model(o: Option<EpochDateTime>) -> Option<(int, int)> {
    match o {
        Some(d) => Some(d@),
        None => None,
    }
}

/// Whether the `time` crate holds a date-time at `nanos` nanoseconds after
/// the Unix epoch: its whole seconds (rounded down) lie from -9999-01-01
/// 00:00:00 UTC to 9999-12-31 23:59:59 UTC.
pub open spec fn unix_nanos_valid(nanos: int) -> bool {
    -377_705_116_800 <= nanos / 1_000_000_000 <= 253_402_300_799
}

/// The text of the `time` crate's error for an instant it cannot hold.
pub uninterp spec fn timestamp_error_text(nanos: int) -> Seq<char>;

/// time's `OffsetDateTime::from_unix_timestamp_nanos`, its error given as
/// its text. Claimed: it succeeds exactly on the instants `time` holds
/// (`unix_nanos_valid`), and the date-time is that instant in UTC (`unix_timestamp_nanos`
/// gives back `nanos`, the offset is zero).
#[verifier::external_body]
fn datetime_from_unix_nanos(nanos: i128) -> (r: core::result::Result<EpochDateTime, String>)
    ensures
        r is Ok <==> unix_nanos_valid(nanos as int),
        r matches Ok(d) ==> d@ == (nanos as int, 0int) && held(d@),
        r matches Err(m) ==> m@ == timestamp_error_text(nanos as int),
{
    let dt = OffsetDateTime::from_unix_timestamp_nanos(nanos).map_err(|e| e.to_string())?;
    Ok(EpochDateTime { dt, unix_nanos: dt.unix_timestamp_nanos(), offset_seconds: dt.offset().whole_seconds() })
}

/// Nanoseconds of an epoch time given in microseconds.
pub fn micro_to_nanos(epoch_micro: i64) -> (r: i128)
    ensures
        r == epoch_micro * 1000,
{
    (epoch_micro as i128) * 1000
}

/// `n / 1000`, rounded toward zero.
pub open spec fn micros_of_nanos(n: int) -> int {
    if n >= 0 {
        n / 1000
    } else {
        -((-n) / 1000)
    }
}

/// Whole microseconds of an epoch time given in nanoseconds (rounded toward
/// zero), cast to an `i64` (which wraps beyond its range, as `as` does).
pub fn nanos_to_micro(nanos: i128) -> (r: i64)
    ensures
        r == micros_of_nanos(nanos as int) as i64,
{
    if nanos >= 0 {
        (nanos / 1000) as i64
    } else {
        // -nanos = m + 1 cannot overflow through m.
        let m: i128 = 0 - (nanos + 1);
        let k: i128 = m / 1000 + if m % 1000 == 999 {
            1
        } else {
            0
        };
        assert(k == (-(nanos as int)) / 1000) by (nonlinear_arith)
            requires
                m == -(nanos + 1),
                m >= 0,
                k == m / 1000 + if m % 1000 == 999 { 1int } else { 0int },
        ;
        (0 - k) as i64
    }
}

/// Law: going from microseconds to nanoseconds and back gives the same
/// microseconds.
pub proof fn law_micro_nanos_roundtrip(epoch_micro: i64)
    ensures
        micros_of_nanos(epoch_micro * 1000) == epoch_micro,
{
    if epoch_micro < 0 {
        assert((-(epoch_micro * 1000)) / 1000 == -epoch_micro) by (nonlinear_arith);
    } else {
        assert((epoch_micro * 1000) / 1000 == epoch_micro) by (nonlinear_arith);
    }
}

/// The message for epoch microseconds that make no date-time.
pub open spec fn invalid_epoch_message(epoch_micro: int) -> Seq<char> {
    "Invalid epoch microseconds: "@ + signed_decimal(epoch_micro) + ", cause: "@ + timestamp_error_text(epoch_micro * 1000)
}

/// The decimal text of an integer, with `-` when negative.
pub open spec fn signed_decimal(n: int) -> Seq<char> {
    if n < 0 {
        seq!['-'] + decimal((-n) as nat)
    } else {
        decimal(n as nat)
    }
}

/// The decimal text of an `i64`.
fn signed_decimal_chars(n: i64) -> (r: Vec<char>)
    ensures
        r@ == signed_decimal(n as int),
{
    if n < 0 {
        let magnitude: u64 = if n == i64::MIN {
            9_223_372_036_854_775_808u64
        } else {
            (0 - n) as u64
        };
        let digits = crate::base::number_text::decimal_chars(magnitude);
        let mut r: Vec<char> = Vec::new();
        r.push('-');
        crate::base::chars::append_chars(&mut r, digits.as_slice());
        assert(r@ =~= seq!['-'] + decimal((-n) as nat));
        r
    } else {
        crate::base::number_text::decimal_chars(n as u64)
    }
}

/// Converts epoch microseconds to a date-time in UTC.
pub fn epoch_micro_to_utc_datetime(epoch_micro: i64) -> (r: Result<EpochDateTime>)
    ensures
        r is Ok <==> unix_nanos_valid(epoch_micro * 1000),
        r matches Ok(d) ==> d@ == (epoch_micro * 1000, 0int) && held(d@),
        r matches Err(e) ==> is_custom_error(e, invalid_epoch_message(epoch_micro as int)),
{
    let nanos = micro_to_nanos(epoch_micro);
    match datetime_from_unix_nanos(nanos) {
        Ok(dt) => Ok(dt),
        Err(cause) => {
            let mut m = String::new();
            push_str(&mut m, "Invalid epoch microseconds: ");
            let digits = signed_decimal_chars(epoch_micro);
            push_chars(&mut m, digits.as_slice());
            push_str(&mut m, ", cause: ");
            push_str(&mut m, cause.as_str());
            Err(Error::Custom(m))
        },
    }
}

/// The message for a date-time that cannot be moved to an offset.
pub open spec fn offset_unavailable_message(epoch_micro: int, offset_seconds: int) -> Seq<char> {
    "Cannot express epoch microseconds "@ + signed_decimal(epoch_micro) + " in the UTC offset of "@ + signed_decimal(
        offset_seconds,
    ) + " seconds"@
}

/// Whether a date-time (Unix nanoseconds, offset seconds) can be moved to
/// the UTC offset of `seconds` seconds: the offset is within ±25:59:59, and
/// it is the date-time's own offset or the local date-time there (the
/// instant shifted by the offset) lies within the years -9999 to 9999.
pub open spec fn offset_reachable(p: (int, int), seconds: int) -> bool {
    &&& -93_599 <= seconds <= 93_599
    &&& (seconds == p.1 || unix_nanos_valid(p.0 + seconds * 1_000_000_000))
}

/// Converts epoch microseconds to a date-time in the UTC offset of
/// `offset_seconds` seconds. Fails when the epoch value makes no date-time,
/// or when the date-time cannot be held in that offset.
pub fn epoch_micro_to_offset_datetime(epoch_micro: i64, offset_seconds: i32) -> (r: Result<EpochDateTime>)
    ensures
        r is Ok <==> unix_nanos_valid(epoch_micro * 1000) && offset_reachable(
            (epoch_micro * 1000, 0int),
            offset_seconds as int,
        ),
        r matches Ok(d) ==> d@ == (epoch_micro * 1000, offset_seconds as int) && held(d@),
        !unix_nanos_valid(epoch_micro * 1000) ==> (r matches Err(e) && is_custom_error(
            e,
            invalid_epoch_message(epoch_micro as int),
        )),
        unix_nanos_valid(epoch_micro * 1000) && !offset_reachable((epoch_micro * 1000, 0int), offset_seconds as int)
            ==> (r matches Err(e) && is_custom_error(
            e,
            offset_unavailable_message(epoch_micro as int, offset_seconds as int),
        )),
{
    let utc = epoch_micro_to_utc_datetime(epoch_micro)?;
    match datetime_in_offset(&utc, offset_seconds) {
        Some(d) => Ok(d),
        None => Err(offset_unavailable_error(epoch_micro, offset_seconds)),
    }
}

/// The error for a date-time that cannot be moved to an offset.
fn offset_unavailable_error(epoch_micro: i64, offset_seconds: i32) -> (r: Error)
    ensures
        is_custom_error(r, offset_unavailable_message(epoch_micro as int, offset_seconds as int)),
{
    let mut m = String::new();
    push_str(&mut m, "Cannot express epoch microseconds ");
    let digits = signed_decimal_chars(epoch_micro);
    push_chars(&mut m, digits.as_slice());
    push_str(&mut m, " in the UTC offset of ");
    let off = signed_decimal_chars(offset_seconds as i64);
    push_chars(&mut m, off.as_slice());
    push_str(&mut m, " seconds");
    Error::Custom(m)
}

/// Converts epoch microseconds to a date-time in the machine's local
/// offset. Fails when the epoch value makes no date-time, when the local
/// offset cannot be found, or when the date-time cannot be held in it. The
/// offset found goes to `epoch_micro_to_offset_datetime`.
pub fn epoch_micro_to_local_datetime(epoch_micro: i64) -> (r: Result<EpochDateTime>)
    ensures
        !unix_nanos_valid(epoch_micro * 1000) ==> (r matches Err(e) && is_custom_error(
            e,
            invalid_epoch_message(epoch_micro as int),
        )),
        r matches Ok(d) ==> unix_nanos_valid(epoch_micro * 1000) && d@.0 == epoch_micro * 1000
            && offset_reachable((epoch_micro * 1000, 0int), d@.1) && held(d@),
        r matches Err(e) ==> (unix_nanos_valid(epoch_micro * 1000) ==> (e matches Error::Custom(m) && (
        has_prefix(m@, "Cannot get local offset for "@) || has_prefix(m@, "Cannot express epoch microseconds "@)))),
{
    let utc = epoch_micro_to_utc_datetime(epoch_micro)?;
    let seconds = match local_offset_seconds() {
        Ok(s) => s,
        Err(cause) => {
            let mut m = String::new();
            push_str(&mut m, "Cannot get local offset for ");
            let ghost head = m@;
            push_str(&mut m, datetime_text(&utc).as_str());
            push_str(&mut m, ", cause: ");
            push_str(&mut m, cause.as_str());
            assert(m@.subrange(0, head.len() as int) =~= head);
            return Err(Error::Custom(m));
        },
    };
    let r = epoch_micro_to_offset_datetime(epoch_micro, seconds);
    proof {
        reveal_strlit("Cannot express epoch microseconds ");
        let lit = "Cannot express epoch microseconds "@;
        let msg = offset_unavailable_message(epoch_micro as int, seconds as int);
        assert(msg.subrange(0, lit.len() as int) =~= lit);
    }
    r
}

/// Converts a date-time to epoch microseconds (rounded toward zero, cast to
/// an `i64`).
pub fn datetime_to_epoch_micro(dt: &EpochDateTime) -> (r: i64)
    ensures
        r == micros_of_nanos(dt@.0) as i64,
{
    nanos_to_micro(dt.unix_nanos)
}

// endregion: --- Date-times

// region:    --- Now and local offset

/// The instant `midnight` of the day of an instant in an offset: its local
/// time moved back to 00:00 in that offset.
pub open spec fn midnight_nanos(nanos: int, offset_seconds: int) -> int {
    let local = nanos + offset_seconds * 1_000_000_000;
    local - local % nanos_per_day() - offset_seconds * 1_000_000_000
}

/// time's `OffsetDateTime::now_utc`: the current time. Claimed: it is in
/// UTC; of the instant nothing is stated (the clock).
#[verifier::external_body]
fn now_utc() -> (r: EpochDateTime)
    ensures
        r@.1 == 0,
        held(r@),
{
    let dt = OffsetDateTime::now_utc();
    EpochDateTime { dt, unix_nanos: dt.unix_timestamp_nanos(), offset_seconds: dt.offset().whole_seconds() }
}

/// time's `OffsetDateTime::replace_time(Time::MIDNIGHT)`. Claimed, as its
/// documentation says: the date and offset stay, the time becomes 00:00,
/// so the instant is the local midnight of that day.
#[verifier::external_body]
fn at_midnight(dt: &EpochDateTime) -> (r: EpochDateTime)
    ensures
        r@ == (midnight_nanos(dt@.0, dt@.1), dt@.1),
        held(r@),
{
    let m = dt.dt.replace_time(Time::MIDNIGHT);
    EpochDateTime { dt: m, unix_nanos: m.unix_timestamp_nanos(), offset_seconds: m.offset().whole_seconds() }
}

/// time's `UtcOffset::current_local_offset`, read as whole seconds, its
/// error given as its text. Claimed: an offset is within ±25:59:59 (the
/// range of `UtcOffset`); whether one is found, and which, depend on the
/// machine.
#[verifier::external_body]
fn local_offset_seconds() -> (r: core::result::Result<i32, String>)
    ensures
        r matches Ok(s) ==> -93_599 <= s <= 93_599,
{
    UtcOffset::current_local_offset().map(|o| o.whole_seconds()).map_err(|e| e.to_string())
}

/// time's `UtcOffset::from_whole_seconds` and
/// `OffsetDateTime::checked_to_offset`. Claimed, per their source: the first
/// refuses seconds outside ±25:59:59; the second gives the date-time back
/// for its own offset, and otherwise `None` exactly when the local date in
/// the new offset falls outside the years -9999 to 9999. A result is the
/// same instant in that offset.
#[verifier::external_body]
fn datetime_in_offset(dt: &EpochDateTime, seconds: i32) -> (r: Option<EpochDateTime>)
    ensures
        r is Some <==> offset_reachable(dt@, seconds as int),
        r matches Some(d) ==> d@ == (dt@.0, seconds as int) && held(d@),
{
    let offset = UtcOffset::from_whole_seconds(seconds).ok()?;
    let d = dt.dt.checked_to_offset(offset)?;
    Some(EpochDateTime { dt: d, unix_nanos: d.unix_timestamp_nanos(), offset_seconds: d.offset().whole_seconds() })
}

/// The text (`Display`) of a date-time; nothing is stated of it.
#[verifier::external_body]
fn datetime_text(dt: &EpochDateTime) -> String {
    dt.dt.to_string()
}

/// The current local UTC offset in seconds, or the message of why it cannot
/// be found. Whether it is found, and the offset, depend on the machine.
pub fn current_local_offset_seconds() -> (r: Result<i32>)
    ensures
        r matches Ok(s) ==> -93_599 <= s <= 93_599,
        r matches Err(e) ==> e matches Error::Custom(m) && has_prefix(m@, "Cannot get local offset, cause: "@),
{
    match local_offset_seconds() {
        Ok(s) => Ok(s),
        Err(cause) => {
            let mut m = String::new();
            push_str(&mut m, "Cannot get local offset, cause: ");
            let ghost head = m@;
            push_str(&mut m, cause.as_str());
            assert(m@.subrange(0, head.len() as int) =~= head);
            Err(Error::Custom(m))
        },
    }
}

/// Whether `m` Unix microseconds is a midnight in the UTC offset of `off`
/// seconds.
pub open spec fn is_midnight_in(m: int, off: int) -> bool {
    (m + off * 1_000_000) % micros_per_day() == 0
}

/// Microseconds in a day.
pub open spec fn micros_per_day() -> int {
    86_400_000_000
}

/// A local midnight in nanoseconds gives, in microseconds, a whole number
/// of days after moving by the offset.
proof fn lemma_midnight_micros(nanos: int, off: int)
    requires
        held((nanos, off)),
    ensures
        ({
            let m = midnight_nanos(nanos, off);
            &&& m % 1000 == 0
            &&& micros_of_nanos(m) == m / 1000
            &&& (m / 1000 + off * 1_000_000) % micros_per_day() == 0
            &&& i64::MIN <= m / 1000 <= i64::MAX
        }),
{
    let local = nanos + off * 1_000_000_000;
    let d = nanos_per_day();
    let k = local / d;
    assert(local - local % d == k * d && k * d <= local < k * d + d) by (nonlinear_arith)
        requires
            d > 0,
            k == local / d,
    ;
    let m = k * d - off * 1_000_000_000;
    assert(m == midnight_nanos(nanos, off));
    assert(m == (k * 86_400_000_000 - off * 1_000_000) * 1000) by (nonlinear_arith)
        requires
            m == k * d - off * 1_000_000_000,
            d == 86_400_000_000_000,
    ;
    let q = k * 86_400_000_000 - off * 1_000_000;
    assert(m % 1000 == 0 && m / 1000 == q) by (nonlinear_arith)
        requires
            m == q * 1000,
    ;
    assert((q + off * 1_000_000) % micros_per_day() == 0) by (nonlinear_arith)
        requires
            q + off * 1_000_000 == k * 86_400_000_000,
    ;
    if m < 0 {
        assert((-m) / 1000 == -q) by (nonlinear_arith)
            requires
                m == q * 1000,
        ;
    }
}

/// The Unix time in microseconds of the UTC midnight that starts the day of
/// `now`, a date-time in UTC.
pub fn utc_midnight_micro(now: &EpochDateTime) -> (r: i64)
    requires
        now@.1 == 0,
    ensures
        r == micros_of_nanos(midnight_nanos(now@.0, 0)) as i64,
{
    let midnight = at_midnight(now);
    datetime_to_epoch_micro(&midnight)
}

/// The Unix time in microseconds of the local midnight, in the UTC offset
/// of `seconds` seconds, that starts the local day of `now`; `None` when
/// `now` cannot be held in that offset.
pub fn local_midnight_micro(now: &EpochDateTime, seconds: i32) -> (r: Option<i64>)
    ensures
        r is Some <==> offset_reachable(now@, seconds as int),
        r matches Some(m) ==> m == micros_of_nanos(midnight_nanos(now@.0, seconds as int)) as i64,
{
    match datetime_in_offset(now, seconds) {
        Some(local) => {
            let midnight = at_midnight(&local);
            Some(datetime_to_epoch_micro(&midnight))
        },
        None => None,
    }
}

/// The Unix time in microseconds of today's UTC midnight
/// (`utc_midnight_micro` of the clock's reading): a whole number of days;
/// which day depends on the clock.
pub fn today_utc_midnight_micro() -> (r: Result<i64>)
    ensures
        r matches Ok(m) && m % 86_400_000_000 == 0,
        r matches Ok(m) ==> exists|n: int|
            held((n, 0)) && m == micros_of_nanos(#[trigger] midnight_nanos(n, 0)) as i64,
{
    let now = now_utc();
    let micros = utc_midnight_micro(&now);
    proof {
        lemma_midnight_micros(now@.0, 0);
        assert(held((now@.0, 0)) && micros == micros_of_nanos(midnight_nanos(now@.0, 0)) as i64);
    }
    Ok(micros)
}

/// The Unix time in microseconds of today's local midnight
/// (`local_midnight_micro` of the clock's reading and the machine's
/// offset): a whole number of days after moving by that offset; which day
/// and offset depend on the clock and the machine. Fails when the local
/// offset cannot be found or cannot hold the current date-time.
pub fn today_local_midnight_micro() -> (r: Result<i64>)
    ensures
        r matches Ok(m) ==> exists|n: int, off: int|
            held((n, 0)) && offset_reachable((n, 0), off) && is_midnight_in(m as int, off)
                && m == micros_of_nanos(#[trigger] midnight_nanos(n, off)) as i64,
        r matches Err(e) ==> e matches Error::Custom(m) && has_prefix(m@, "Cannot get local offset for "@),
{
    let now = now_utc();
    let seconds = match local_offset_seconds() {
        Ok(s) => s,
        Err(cause) => {
            let mut m = String::new();
            push_str(&mut m, "Cannot get local offset for ");
            let ghost head = m@;
            push_str(&mut m, datetime_text(&now).as_str());
            push_str(&mut m, ", cause: ");
            push_str(&mut m, cause.as_str());
            assert(m@.subrange(0, head.len() as int) =~= head);
            return Err(Error::Custom(m));
        },
    };
    match local_midnight_micro(&now, seconds) {
        Some(micros) => {
            proof {
                let n = now@.0;
                let off = seconds as int;
                lemma_midnight_micros(n, off);
                assert(now@ == (n, 0int));
                assert(held((n, 0)) && offset_reachable((n, 0), off) && is_midnight_in(micros as int, off)
                    && micros == micros_of_nanos(midnight_nanos(n, off)) as i64);
            }
            Ok(micros)
        },
        None => {
            let mut m = String::new();
            push_str(&mut m, "Cannot get local offset for ");
            let ghost head = m@;
            push_str(&mut m, datetime_text(&now).as_str());
            assert(m@.subrange(0, head.len() as int) =~= head);
            Err(Error::Custom(m))
        },
    }
}

// endregion: --- Now and local offset

// region:    --- Parsing

/// What time's RFC 3339 parser gives for `text`: the instant (Unix
/// nanoseconds) and offset (seconds), if it accepts the text.
pub uninterp spec fn rfc3339_parsed(text: Seq<char>) -> Option<(int, int)>;

/// What time's default ISO 8601 parser gives for `text`.
pub uninterp spec fn iso8601_parsed(text: Seq<char>) -> Option<(int, int)>;

/// What time's lenient ISO 8601 parser gives for `text`.
pub uninterp spec fn iso8601_lenient_parsed(text: Seq<char>) -> Option<(int, int)>;

/// The instant (Unix nanoseconds, read in UTC) that time reads in `text` as
/// a date and time without offset, in the format description
/// `description`, if it does.
pub uninterp spec fn plain_datetime_parsed(text: Seq<char>, description: Seq<char>) -> Option<int>;

/// The instant (Unix nanoseconds) of midnight UTC of the date that time
/// reads in `text` in the format description `description`, if it does.
pub uninterp spec fn plain_date_parsed(text: Seq<char>, description: Seq<char>) -> Option<int>;

/// time's `OffsetDateTime::parse` with `Rfc3339`; its result is named.
#[verifier::external_body]
fn parse_rfc3339(text: &str) -> (r: Option<EpochDateTime>)
    ensures
        opt_model(r) == rfc3339_parsed(text@),
        r matches Some(d) ==> held(d@),
{
    let dt = OffsetDateTime::parse(text, &Rfc3339).ok()?;
    Some(EpochDateTime { dt, unix_nanos: dt.unix_timestamp_nanos(), offset_seconds: dt.offset().whole_seconds() })
}

/// time's `OffsetDateTime::parse` with `Iso8601::DEFAULT`; its result is
/// named.
#[verifier::external_body]
fn parse_iso8601(text: &str) -> (r: Option<EpochDateTime>)
    ensures
        opt_model(r) == iso8601_parsed(text@),
        r matches Some(d) ==> held(d@),
{
    let dt = OffsetDateTime::parse(text, &Iso8601::DEFAULT).ok()?;
    Some(EpochDateTime { dt, unix_nanos: dt.unix_timestamp_nanos(), offset_seconds: dt.offset().whole_seconds() })
}

/// time's `OffsetDateTime::parse` with `Iso8601::PARSING`; its result is
/// named.
#[verifier::external_body]
fn parse_iso8601_lenient(text: &str) -> (r: Option<EpochDateTime>)
    ensures
        opt_model(r) == iso8601_lenient_parsed(text@),
        r matches Some(d) ==> held(d@),
{
    let dt = OffsetDateTime::parse(text, &Iso8601::PARSING).ok()?;
    Some(EpochDateTime { dt, unix_nanos: dt.unix_timestamp_nanos(), offset_seconds: dt.offset().whole_seconds() })
}

/// time's `format_description::parse_borrowed::<1>(description)` and
/// `PrimitiveDateTime::parse`, the result taken as UTC (`assume_utc`, so the
/// offset is zero); the instant is named.
#[verifier::external_body]
fn parse_plain_datetime_utc(text: &str, description: &str) -> (r: Option<EpochDateTime>)
    ensures
        match plain_datetime_parsed(text@, description@) {
            Some(n) => r matches Some(d) && d@ == (n, 0int) && held(d@),
            None => r is None,
        },
{
    let items = time::format_description::parse_borrowed::<1>(description).ok()?;
    let dt = PrimitiveDateTime::parse(text, &items).ok()?.assume_utc();
    Some(EpochDateTime { dt, unix_nanos: dt.unix_timestamp_nanos(), offset_seconds: dt.offset().whole_seconds() })
}

/// time's `format_description::parse_borrowed::<1>(description)` and
/// `Date::parse`, taken at midnight UTC (offset zero); the instant is named.
#[verifier::external_body]
fn parse_plain_date_utc(text: &str, description: &str) -> (r: Option<EpochDateTime>)
    ensures
        match plain_date_parsed(text@, description@) {
            Some(n) => r matches Some(d) && d@ == (n, 0int) && held(d@),
            None => r is None,
        },
{
    let items = time::format_description::parse_borrowed::<1>(description).ok()?;
    let dt = Date::parse(text, &items).ok()?.midnight().assume_utc();
    Some(EpochDateTime { dt, unix_nanos: dt.unix_timestamp_nanos(), offset_seconds: dt.offset().whole_seconds() })
}

/// The format description of a date and time without offset.
pub open spec fn plain_datetime_description() -> Seq<char> {
    "[year]-[month]-[day] [hour]:[minute]:[second]"@
}

/// The format description of a date.
pub open spec fn plain_date_description() -> Seq<char> {
    "[year]-[month]-[day]"@
}

/// What a trimmed text reads as: the first of RFC 3339, ISO 8601 (default,
/// then lenient), `YYYY-MM-DD hh:mm:ss` in UTC, or `YYYY-MM-DD` at midnight
/// UTC that accepts it, as (Unix nanoseconds, offset seconds).
pub open spec fn parsed_datetime(t: Seq<char>) -> Option<(int, int)> {
    if rfc3339_parsed(t) is Some {
        rfc3339_parsed(t)
    } else if iso8601_parsed(t) is Some {
        iso8601_parsed(t)
    } else if iso8601_lenient_parsed(t) is Some {
        iso8601_lenient_parsed(t)
    } else {
        match plain_datetime_parsed(t, plain_datetime_description()) {
            Some(n) => Some((n, 0int)),
            None => match plain_date_parsed(t, plain_date_description()) {
                Some(n) => Some((n, 0int)),
                None => None,
            },
        }
    }
}

/// The message for a text that reads as no date-time.
pub open spec fn unparsable_datetime_message(text: Seq<char>) -> Seq<char> {
    "Cannot parse date/time string '"@ + text + "' as RFC 3339 or ISO 8601"@
}

/// Parses an RFC 3339 or ISO 8601 text (surrounding white space ignored)
/// into a date-time (see `parsed_datetime`).
pub fn parse_rfc3339_or_iso8601(text: &str) -> (r: Result<EpochDateTime>)
    ensures
        match parsed_datetime(trim_spec(text@)) {
            Some(p) => r matches Ok(d) && d@ == p,
            None => r matches Err(e) && is_custom_error(e, unparsable_datetime_message(text@)),
        },
{
    let tv = chars_of(text);
    let trimmed_v = trimmed_chars(tv.as_slice());
    let trimmed = crate::base::chars::string_from_chars(trimmed_v.as_slice());
    let t = trimmed.as_str();
    if let Some(dt) = parse_rfc3339(t) {
        return Ok(dt);
    }
    if let Some(dt) = parse_iso8601(t) {
        return Ok(dt);
    }
    if let Some(dt) = parse_iso8601_lenient(t) {
        return Ok(dt);
    }
    proof {
        reveal_strlit("[year]-[month]-[day] [hour]:[minute]:[second]");
        reveal_strlit("[year]-[month]-[day]");
    }
    if let Some(dt) = parse_plain_datetime_utc(t, "[year]-[month]-[day] [hour]:[minute]:[second]") {
        return Ok(dt);
    }
    if let Some(dt) = parse_plain_date_utc(t, "[year]-[month]-[day]") {
        return Ok(dt);
    }
    let mut m = String::new();
    push_str(&mut m, "Cannot parse date/time string '");
    push_str(&mut m, text);
    push_str(&mut m, "' as RFC 3339 or ISO 8601");
    Err(Error::Custom(m))
}

// endregion: --- Parsing

// region:    --- Weekdays

/// A day of the week.
#[derive(Debug, Clone, Copy, PartialEq, Eq, Structural)]
pub enum Weekday {
    Monday,
    Tuesday,
    Wednesday,
    Thursday,
    Friday,
    Saturday,
    Sunday,
}

/// The ISO number of a weekday: 1 for Monday to 7 for Sunday.
pub open spec fn weekday_number_spec(w: Weekday) -> u8 {
    match w {
        Weekday::Monday => 1,
        Weekday::Tuesday => 2,
        Weekday::Wednesday => 3,
        Weekday::Thursday => 4,
        Weekday::Friday => 5,
        Weekday::Saturday => 6,
        Weekday::Sunday => 7,
    }
}

/// The English name of a weekday.
pub open spec fn weekday_name_spec(w: Weekday) -> Seq<char> {
    match w {
        Weekday::Monday => "Monday"@,
        Weekday::Tuesday => "Tuesday"@,
        Weekday::Wednesday => "Wednesday"@,
        Weekday::Thursday => "Thursday"@,
        Weekday::Friday => "Friday"@,
        Weekday::Saturday => "Saturday"@,
        Weekday::Sunday => "Sunday"@,
    }
}

/// The English name of a weekday.
pub fn weekday_name(weekday: Weekday) -> (r: &'static str)
    ensures
        r@ == weekday_name_spec(weekday),
{
    match weekday {
        Weekday::Monday => "Monday",
        Weekday::Tuesday => "Tuesday",
        Weekday::Wednesday => "Wednesday",
        Weekday::Thursday => "Thursday",
        Weekday::Friday => "Friday",
        Weekday::Saturday => "Saturday",
        Weekday::Sunday => "Sunday",
    }
}

/// The 1-based ISO weekday number (1 = Monday, 7 = Sunday).
pub fn weekday_number(weekday: Weekday) -> (r: u8)
    ensures
        r == weekday_number_spec(weekday),
        1 <= r <= 7,
{
    match weekday {
        Weekday::Monday => 1,
        Weekday::Tuesday => 2,
        Weekday::Wednesday => 3,
        Weekday::Thursday => 4,
        Weekday::Friday => 5,
        Weekday::Saturday => 6,
        Weekday::Sunday => 7,
    }
}

/// The day after a weekday, in the week that runs Monday to Sunday.
pub open spec fn next_weekday(w: Weekday) -> Weekday {
    match w {
        Weekday::Monday => Weekday::Tuesday,
        Weekday::Tuesday => Weekday::Wednesday,
        Weekday::Wednesday => Weekday::Thursday,
        Weekday::Thursday => Weekday::Friday,
        Weekday::Friday => Weekday::Saturday,
        Weekday::Saturday => Weekday::Sunday,
        Weekday::Sunday => Weekday::Monday,
    }
}

/// The English names of the days of the week, from Monday to Sunday.
pub open spec fn english_weekday_names() -> Seq<Seq<char>> {
    seq!["Monday"@, "Tuesday"@, "Wednesday"@, "Thursday"@, "Friday"@, "Saturday"@, "Sunday"@]
}

/// Law: weekday numbers count the days from Monday: Monday is 1, each
/// following day (through Sunday) is one more, and Sunday, 7, is followed
/// by Monday again. So every number lies in 1..=7 and no two days share one.
pub proof fn law_weekday_number_counts_from_monday()
    ensures
        weekday_number_spec(Weekday::Monday) == 1,
        forall|w: Weekday| w != Weekday::Sunday ==> #[trigger] weekday_number_spec(next_weekday(w))
            == weekday_number_spec(w) + 1,
        weekday_number_spec(Weekday::Sunday) == 7 && next_weekday(Weekday::Sunday) == Weekday::Monday,
        forall|w: Weekday| 1 <= #[trigger] weekday_number_spec(w) <= 7,
        forall|a: Weekday, b: Weekday| #[trigger] weekday_number_spec(a) == #[trigger] weekday_number_spec(b) ==> a == b,
{
}

/// Law: a weekday's name is its English name, the one at its place in the
/// week (`weekday_number` - 1) among the names from Monday to Sunday; the
/// seven names differ, so each name belongs to one day.
pub proof fn law_weekday_name_is_english()
    ensures
        forall|w: Weekday| #[trigger] weekday_name_spec(w) == english_weekday_names()[weekday_number_spec(w) - 1],
        forall|a: Weekday, b: Weekday| #[trigger] weekday_name_spec(a) == #[trigger] weekday_name_spec(b) ==> a == b,
{
    reveal_strlit("Monday");
    reveal_strlit("Tuesday");
    reveal_strlit("Wednesday");
    reveal_strlit("Thursday");
    reveal_strlit("Friday");
    reveal_strlit("Saturday");
    reveal_strlit("Sunday");
    assert forall|a: Weekday, b: Weekday| #[trigger] weekday_name_spec(a) == #[trigger] weekday_name_spec(b) implies a
        == b by {
        if a != b {
            let x = weekday_name_spec(a);
            let y = weekday_name_spec(b);
            assert(x.len() != y.len() || x[0] != y[0] || x[1] != y[1]);
        }
    }
}

// endregion: --- Weekdays

} // verus!
