use sitebuild::date::{DateError, PrecisionDate};
use sitebuild::reviews::{Released, ReleasedError};

#[test]
fn dates_parse_at_each_precision() {
    assert_eq!(PrecisionDate::from_str("2038-01-19"), Ok(PrecisionDate::Day(2038, 1, 19)));
    assert_eq!(PrecisionDate::from_str("2020"), Ok(PrecisionDate::Year(2020)));
    assert_eq!(PrecisionDate::from_str("0999-07"), Ok(PrecisionDate::Month(999, 7)));
    assert_eq!(PrecisionDate::from_str("2020-02-29"), Ok(PrecisionDate::Day(2020, 2, 29)));
    assert_eq!(PrecisionDate::from_str("2000-02-29"), Ok(PrecisionDate::Day(2000, 2, 29)));
}

#[test]
fn dates_refused() {
    assert_eq!(PrecisionDate::from_str("20"), Err(DateError::YearDigits));
    assert_eq!(PrecisionDate::from_str("20x0"), Err(DateError::YearDigits));
    assert_eq!(PrecisionDate::from_str("2020-1"), Err(DateError::MonthDigits));
    assert_eq!(PrecisionDate::from_str("2020-13"), Err(DateError::MonthRange(13)));
    assert_eq!(PrecisionDate::from_str("2020-00"), Err(DateError::MonthRange(0)));
    assert_eq!(PrecisionDate::from_str("2020-01-1"), Err(DateError::DayDigits));
    assert_eq!(PrecisionDate::from_str("2020-01-01-5"), Err(DateError::DayDigits));
    assert_eq!(PrecisionDate::from_str("2021-02-29"), Err(DateError::NotReal(2021, 2, 29)));
    assert_eq!(PrecisionDate::from_str("1900-02-29"), Err(DateError::NotReal(1900, 2, 29)));
    assert_eq!(PrecisionDate::from_str("2021-04-31"), Err(DateError::NotReal(2021, 4, 31)));
}

#[test]
fn dates_written() {
    assert_eq!(PrecisionDate::Day(2038, 1, 19).to_text(false), "2038-01-19");
    assert_eq!(PrecisionDate::Month(999, 7).to_text(false), "0999-07");
    assert_eq!(PrecisionDate::Year(5).to_text(false), "0005");
    assert_eq!(PrecisionDate::Day(2038, 1, 19).to_text(true), "2038");
    assert_eq!(PrecisionDate::Year(12345).to_text(false), "12345");
    assert_eq!(PrecisionDate::Month(2001, 12).year(), 2001);
}

#[test]
fn release_spans() {
    let one = Released::from_str("2020").unwrap();
    assert_eq!(one, Released { start: PrecisionDate::Year(2020), end: Some(PrecisionDate::Year(2020)) });
    assert_eq!(one.to_text(), "2020");
    let open = Released::from_str("2019-03\u{2013}").unwrap();
    assert_eq!(open.end, None);
    assert_eq!(open.to_text(), "2019-03\u{2013}");
    let span = Released::from_str("2001\u{2013}2004-05-06").unwrap();
    assert_eq!(span.end, Some(PrecisionDate::Day(2004, 5, 6)));
    assert_eq!(span.to_text(), "2001\u{2013}2004-05-06");
    assert_eq!(Released::from_str("x\u{2013}2004"), Err(ReleasedError::Start(DateError::YearDigits)));
    assert_eq!(Released::from_str("2001\u{2013}2004-13"), Err(ReleasedError::End(DateError::MonthRange(13))));
}
