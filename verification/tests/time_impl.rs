use aiprog::base::time_impl::{
    current_local_offset_seconds, datetime_to_epoch_micro, epoch_micro_to_local_datetime, epoch_micro_to_offset_datetime, today_local_midnight_micro, epoch_micro_to_utc_datetime, micros_to_i64,
    local_midnight_micro, nanos_to_micro, now_micro, parse_rfc3339_or_iso8601, today_utc_midnight_micro, utc_midnight_micro,
    weekday_name, weekday_number,
    Weekday,
};
use aiprog::Error;

type Result<T> = core::result::Result<T, Box<dyn std::error::Error>>;

fn plain(e: Error) -> String {
    match e {
        Error::Custom(m) => m,
        Error::CustomAndCause(c, k) => format!("{c}: {k}"),
    }
}

#[test]
fn test_epoch_micro_roundtrip() -> Result<()> {
    let micro = 1_787_421_612_123_456i64;
    let dt = epoch_micro_to_utc_datetime(micro).map_err(plain)?;
    let roundtrip = datetime_to_epoch_micro(&dt);
    assert_eq!(micro, roundtrip);
    Ok(())
}

#[test]
fn test_epoch_micro_roundtrip_negative() -> Result<()> {
    let micro = -1_234_567_890_123_456i64;
    let dt = epoch_micro_to_utc_datetime(micro).map_err(plain)?;
    assert_eq!(datetime_to_epoch_micro(&dt), micro);
    assert_eq!(dt.offset_datetime().year(), 1930);
    Ok(())
}

#[test]
fn test_epoch_micro_out_of_range() {
    let err = epoch_micro_to_utc_datetime(i64::MAX).unwrap_err();
    let m = plain(err);
    assert!(m.starts_with("Invalid epoch microseconds: 9223372036854775807, cause: "), "{m}");
    let err = epoch_micro_to_utc_datetime(i64::MIN).unwrap_err();
    assert!(plain(err).starts_with("Invalid epoch microseconds: -9223372036854775808, cause: "));
}

#[test]
fn test_nanos_to_micro_rounds_toward_zero() {
    assert_eq!(nanos_to_micro(1_999), 1);
    assert_eq!(nanos_to_micro(-1_999), -1);
    assert_eq!(nanos_to_micro(-1_000), -1);
    assert_eq!(nanos_to_micro(-999), 0);
    assert_eq!(nanos_to_micro(i128::MIN), (i128::MIN / 1000) as i64);
}

#[test]
fn test_micros_to_i64_caps() {
    assert_eq!(micros_to_i64(None), 0);
    assert_eq!(micros_to_i64(Some(42)), 42);
    assert_eq!(micros_to_i64(Some(u128::MAX)), i64::MAX);
    assert!(now_micro() > 1_600_000_000_000_000);
}

#[test]
fn test_parse_rfc3339_or_iso8601() -> Result<()> {
    let dt = parse_rfc3339_or_iso8601("2026-08-22T10:35:56.123456-07:00").map_err(plain)?;
    assert_eq!(dt.offset_datetime().year(), 2026);
    assert_eq!(dt.offset_datetime().month() as u8, 8);
    assert_eq!(dt.offset_datetime().day(), 22);
    assert_eq!(dt.offset_datetime().hour(), 10);
    assert_eq!(dt.offset_datetime().minute(), 35);
    assert_eq!(dt.offset_datetime().second(), 56);
    assert_eq!(dt.offset_datetime().microsecond(), 123456);
    assert_eq!(dt.offset_seconds(), -25200);

    let dt_utc = parse_rfc3339_or_iso8601("2026-08-22T17:35:56Z").map_err(plain)?;
    assert_eq!(dt_utc.offset_seconds(), 0);
    assert_eq!(dt_utc.offset_datetime().hour(), 17);

    let dt_date = parse_rfc3339_or_iso8601("2026-08-22").map_err(plain)?;
    assert_eq!(dt_date.offset_datetime().year(), 2026);
    assert_eq!(dt_date.offset_datetime().month() as u8, 8);
    assert_eq!(dt_date.offset_datetime().day(), 22);
    assert_eq!(dt_date.offset_datetime().hour(), 0);

    Ok(())
}

#[test]
fn test_parse_plain_forms_and_errors() -> Result<()> {
    let dt = parse_rfc3339_or_iso8601("  2026-08-22 17:35:56 ").map_err(plain)?;
    assert_eq!(dt.offset_datetime().hour(), 17);
    assert_eq!(dt.offset_seconds(), 0);
    let err = parse_rfc3339_or_iso8601(" not a date ").unwrap_err();
    assert_eq!(plain(err), "Cannot parse date/time string ' not a date ' as RFC 3339 or ISO 8601");
    Ok(())
}

#[test]
fn test_weekday_helpers() {
    assert_eq!(weekday_name(Weekday::Monday), "Monday");
    assert_eq!(weekday_number(Weekday::Monday), 1);
    assert_eq!(weekday_name(Weekday::Saturday), "Saturday");
    assert_eq!(weekday_number(Weekday::Saturday), 6);
    assert_eq!(weekday_name(Weekday::Sunday), "Sunday");
    assert_eq!(weekday_number(Weekday::Sunday), 7);
}

#[test]
fn test_midnight_and_offset() {
    let midnight = today_utc_midnight_micro().map_err(plain).unwrap();
    assert_eq!(midnight % 86_400_000_000, 0);
    assert!(midnight <= now_micro());
    if let Ok(seconds) = current_local_offset_seconds() {
        assert!(seconds.abs() < 26 * 3600);
        let local = today_local_midnight_micro().map_err(plain).unwrap();
        assert_eq!((local + i64::from(seconds) * 1_000_000).rem_euclid(86_400_000_000), 0);
    } else {
        assert!(today_local_midnight_micro().is_err());
    }
}

#[test]
fn test_current_local_offset_seconds() {
    let res = current_local_offset_seconds();
    assert!(res.is_ok());
}

#[test]
fn test_epoch_micro_to_offset_datetime() -> Result<()> {
    let micro = 1_787_421_612_123_456i64;
    let dt = epoch_micro_to_offset_datetime(micro, -18_000).map_err(plain)?;
    assert_eq!(dt.offset_seconds(), -18_000);
    assert_eq!(dt.offset_datetime().offset().whole_seconds(), -18_000);
    assert_eq!(dt.unix_nanos(), i128::from(micro) * 1000);
    assert_eq!(datetime_to_epoch_micro(&dt), micro);
    let err = epoch_micro_to_offset_datetime(micro, 100_000).unwrap_err();
    assert_eq!(
        plain(err),
        "Cannot express epoch microseconds 1787421612123456 in the UTC offset of 100000 seconds"
    );
    assert!(plain(epoch_micro_to_offset_datetime(i64::MAX, 0).unwrap_err()).starts_with("Invalid epoch microseconds: "));
    Ok(())
}

#[test]
fn test_epoch_micro_to_local_datetime() {
    let micro = 1_787_421_612_123_456i64;
    match epoch_micro_to_local_datetime(micro) {
        Ok(dt) => assert_eq!(datetime_to_epoch_micro(&dt), micro),
        Err(e) => assert!(plain(e).starts_with("Cannot get local offset for ")),
    }
}

#[test]
fn test_utc_model_of_epoch_and_parse() -> Result<()> {
    let dt = epoch_micro_to_utc_datetime(-1).map_err(plain)?;
    assert_eq!((dt.unix_nanos(), dt.offset_seconds()), (-1000, 0));
    let p = parse_rfc3339_or_iso8601("1970-01-02T01:00:00+01:00").map_err(plain)?;
    assert_eq!((p.unix_nanos(), p.offset_seconds()), (86_400_000_000_000, 3600));
    Ok(())
}

#[test]
fn test_epoch_micro_bounds() {
    assert!(epoch_micro_to_utc_datetime(253_402_300_799_999_999).is_ok());
    assert!(epoch_micro_to_utc_datetime(253_402_300_800_000_000).is_err());
    assert!(epoch_micro_to_utc_datetime(-377_705_116_800_000_000).is_ok());
    assert!(epoch_micro_to_utc_datetime(-377_705_116_800_000_001).is_err());
}

#[test]
fn test_utc_and_local_midnight_of_instant() -> Result<()> {
    let dt = epoch_micro_to_utc_datetime(86_400_000_001).map_err(plain)?;
    assert_eq!(utc_midnight_micro(&dt), 86_400_000_000);
    assert_eq!(local_midnight_micro(&dt, 0), Some(86_400_000_000));
    assert_eq!(local_midnight_micro(&dt, 3600), Some(82_800_000_000));
    assert_eq!(local_midnight_micro(&dt, -3600), Some(3_600_000_000));
    assert_eq!(local_midnight_micro(&dt, 93_600), None);
    let before = epoch_micro_to_utc_datetime(-1).map_err(plain)?;
    assert_eq!(utc_midnight_micro(&before), -86_400_000_000);
    Ok(())
}

#[test]
fn test_offset_datetime_at_the_last_year() -> Result<()> {
    let last = 253_402_300_799_000_000i64;
    assert!(epoch_micro_to_offset_datetime(last, 0).is_ok());
    assert!(epoch_micro_to_offset_datetime(last, -3600).is_ok());
    let err = epoch_micro_to_offset_datetime(last, 3600).unwrap_err();
    assert_eq!(
        plain(err),
        "Cannot express epoch microseconds 253402300799000000 in the UTC offset of 3600 seconds"
    );
    Ok(())
}
