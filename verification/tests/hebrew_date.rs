use hdate::error::HebrewDateErrors;
use hdate::hebrew::{days_in_month, days_in_year, elapsed_days, is_leap_year};
use hdate::hebrew_date::HebrewDate;
use hdate::month::HebrewMonth;

#[test]
fn hebrew_date_test_elapsed_days() {
    assert_eq!(elapsed_days(5780), 2110760);
    assert_eq!(elapsed_days(5708), 2084447);
    assert_eq!(elapsed_days(3762), 1373677);
    assert_eq!(elapsed_days(3671), 1340455);
    assert_eq!(elapsed_days(1234), 450344);
    assert_eq!(elapsed_days(123), 44563);
    assert_eq!(elapsed_days(2), 356);
    assert_eq!(elapsed_days(1), 1);
    assert_eq!(elapsed_days(5762), 2104174);
    assert_eq!(elapsed_days(5763), 2104528);
    assert_eq!(elapsed_days(5764), 2104913);
    assert_eq!(elapsed_days(5765), 2105268);
    assert_eq!(elapsed_days(5766), 2105651);
}

#[test]
fn hebrew_date_test_is_leap_year() {
    assert!(is_leap_year(5779));
    assert!(is_leap_year(5782));
    assert!(is_leap_year(5784));
    assert!(!is_leap_year(5780));
    assert!(!is_leap_year(5781));
    assert!(!is_leap_year(5783));
    assert!(!is_leap_year(5778));
    assert!(is_leap_year(5749));
    assert!(!is_leap_year(5511));
    assert!(is_leap_year(5252));
    assert!(is_leap_year(4528));
    assert!(!is_leap_year(4527));
}

#[test]
fn hebrew_date_test_days_in_year() {
    assert_eq!(days_in_year(5779), 385);
    assert_eq!(days_in_year(5780), 355);
    assert_eq!(days_in_year(5781), 353);
    assert_eq!(days_in_year(5782), 384);
    assert_eq!(days_in_year(5783), 355);
    assert_eq!(days_in_year(5784), 383);
    assert_eq!(days_in_year(5785), 355);
    assert_eq!(days_in_year(5786), 354);
    assert_eq!(days_in_year(5787), 385);
    assert_eq!(days_in_year(5788), 355);
    assert_eq!(days_in_year(5789), 354);
    assert_eq!(days_in_year(3762), 383);
    assert_eq!(days_in_year(3671), 354);
    assert_eq!(days_in_year(1234), 353);
    assert_eq!(days_in_year(123), 355);
    assert_eq!(days_in_year(2), 355);
    assert_eq!(days_in_year(1), 355);
    assert_eq!(days_in_year(5761), 353);
    assert_eq!(days_in_year(5762), 354);
    assert_eq!(days_in_year(5763), 385);
    assert_eq!(days_in_year(5764), 355);
    assert_eq!(days_in_year(5765), 383);
    assert_eq!(days_in_year(5766), 354);
}

#[test]
fn hebrew_date_test_days_in_month() {
    assert_eq!(days_in_month(HebrewMonth::Iyyar, 5780), 29);
    assert_eq!(days_in_month(HebrewMonth::Sivan, 5780), 30);
    assert_eq!(days_in_month(HebrewMonth::Cheshvan, 5782), 29);
    assert_eq!(days_in_month(HebrewMonth::Cheshvan, 5783), 30);
    assert_eq!(days_in_month(HebrewMonth::Kislev, 5783), 30);
    assert_eq!(days_in_month(HebrewMonth::Kislev, 5784), 29);
    assert_eq!(days_in_month(HebrewMonth::Tishrei, 5765), 30);
    assert_eq!(days_in_month(HebrewMonth::Cheshvan, 5765), 29);
    assert_eq!(days_in_month(HebrewMonth::Kislev, 5765), 29);
    assert_eq!(days_in_month(HebrewMonth::Tevet, 5765), 29);
}

#[test]
fn hebrew_date_test_hebrew_to_absolute() {
    assert_eq!(
        HebrewDate::new(5769, HebrewMonth::Cheshvan, 15).into_absolute(),
        733359
    );
    assert_eq!(
        HebrewDate::new(5708, HebrewMonth::Iyyar, 6).into_absolute(),
        711262
    );
    assert_eq!(
        HebrewDate::new(3762, HebrewMonth::Tishrei, 1).into_absolute(),
        249
    );
    assert_eq!(
        HebrewDate::new(3761, HebrewMonth::Nisan, 1).into_absolute(),
        72
    );
    assert_eq!(
        HebrewDate::new(3761, HebrewMonth::Tevet, 18).into_absolute(),
        1
    );
    assert_eq!(
        HebrewDate::new(3761, HebrewMonth::Tevet, 17).into_absolute(),
        0
    );
    assert_eq!(
        HebrewDate::new(3761, HebrewMonth::Tevet, 16).into_absolute(),
        -1
    );
    assert_eq!(
        HebrewDate::new(3761, HebrewMonth::Tevet, 1).into_absolute(),
        -16
    );
    assert_eq!(
        HebrewDate::new(5765, HebrewMonth::Tishrei, 1).into_absolute(),
        731840
    );
    assert_eq!(
        HebrewDate::new(5765, HebrewMonth::Shvat, 1).into_absolute(),
        731957
    );
    assert_eq!(
        HebrewDate::new(5765, HebrewMonth::AdarI, 1).into_absolute(),
        731987
    );
    assert_eq!(
        HebrewDate::new(5765, HebrewMonth::AdarII, 22).into_absolute(),
        732038
    );
    assert_eq!(
        HebrewDate::new(5765, HebrewMonth::AdarII, 1).into_absolute(),
        732017
    );
    assert_eq!(
        HebrewDate::new(5765, HebrewMonth::Nisan, 1).into_absolute(),
        732046
    );
}

#[test]
fn hebrew_date_test_hebrew_to_absolute_1752_reformation() {
    // 14 September 1752
    assert_eq!(
        HebrewDate::new(5513, HebrewMonth::Tishrei, 6).into_absolute(),
        639797
    );
    // 2 September 1752
    assert_eq!(
        HebrewDate::new(5513, HebrewMonth::Tishrei, 5).into_absolute(),
        639796
    );
}

#[test]
fn hebrew_date_test_try_from_absolute() {
    assert_eq!(
        HebrewDate::try_from_absolute(733359).unwrap(),
        HebrewDate::new(5769, HebrewMonth::Cheshvan, 15)
    );
    assert_eq!(
        HebrewDate::try_from_absolute(711262).unwrap(),
        HebrewDate::new(5708, HebrewMonth::Iyyar, 6)
    );
    assert_eq!(
        HebrewDate::try_from_absolute(249).unwrap(),
        HebrewDate::new(3762, HebrewMonth::Tishrei, 1)
    );
    assert_eq!(
        HebrewDate::try_from_absolute(1).unwrap(),
        HebrewDate::new(3761, HebrewMonth::Tevet, 18)
    );
    assert_eq!(
        HebrewDate::try_from_absolute(0).unwrap(),
        HebrewDate::new(3761, HebrewMonth::Tevet, 17)
    );
    assert_eq!(
        HebrewDate::try_from_absolute(-16).unwrap(),
        HebrewDate::new(3761, HebrewMonth::Tevet, 1)
    );
    assert_eq!(
        HebrewDate::try_from_absolute(736685).unwrap(),
        HebrewDate::new(5778, HebrewMonth::Tevet, 4)
    );
    assert_eq!(
        HebrewDate::try_from_absolute(737485).unwrap(),
        HebrewDate::new(5780, HebrewMonth::AdarI, 5)
    );
    assert_eq!(
        HebrewDate::try_from_absolute(737885).unwrap(),
        HebrewDate::new(5781, HebrewMonth::Nisan, 23)
    );
    assert_eq!(
        HebrewDate::try_from_absolute(738285).unwrap(),
        HebrewDate::new(5782, HebrewMonth::Iyyar, 9)
    );
    assert_eq!(
        HebrewDate::try_from_absolute(732038).unwrap(),
        HebrewDate::new(5765, HebrewMonth::AdarII, 22)
    );
    assert_eq!(
        HebrewDate::try_from_absolute(32141).unwrap(),
        HebrewDate::new(3849, HebrewMonth::Shvat, 1)
    );
    assert_eq!(
        HebrewDate::try_from_absolute(32142).unwrap(),
        HebrewDate::new(3849, HebrewMonth::Shvat, 2)
    );
}

#[test]
fn hebrew_date_test_try_from_absolute_error() {
    assert_eq!(
        HebrewDate::try_from_absolute(-1373429),
        Err(HebrewDateErrors::BeforeEpochError(
            "-1373429 is before creation of time".to_string()
        ))
    );
}

#[test]
fn hebrew_date_test_try_from_ym() {
    assert_eq!(
        HebrewMonth::try_from_ym(HebrewMonth::AdarI.to_number(), 5763).unwrap(),
        HebrewMonth::AdarI
    );
    assert_eq!(
        HebrewMonth::try_from_ym(HebrewMonth::AdarII.to_number(), 5763).unwrap(),
        HebrewMonth::AdarII
    );
    assert_eq!(
        HebrewMonth::try_from_ym(14, 5763).unwrap(),
        HebrewMonth::Nisan
    );
    assert_eq!(
        HebrewMonth::try_from_ym(HebrewMonth::AdarI.to_number(), 5764).unwrap(),
        HebrewMonth::AdarI
    );
    assert_eq!(
        HebrewMonth::try_from_ym(HebrewMonth::AdarII.to_number(), 5764).unwrap(),
        HebrewMonth::Nisan
    );
    assert_eq!(
        HebrewMonth::try_from_ym(HebrewMonth::Tamuz.to_number(), 5780).unwrap(),
        HebrewMonth::Tamuz
    );
    assert_eq!(
        HebrewMonth::try_from_ym(HebrewMonth::Nisan.to_number(), 5763).unwrap(),
        HebrewMonth::Nisan
    );
    assert_eq!(
        HebrewMonth::try_from_ym(HebrewMonth::Elul.to_number(), 5763).unwrap(),
        HebrewMonth::Elul
    );
    assert_eq!(
        HebrewMonth::try_from_ym(HebrewMonth::Tishrei.to_number(), 5763).unwrap(),
        HebrewMonth::Tishrei
    );
}

#[test]
fn test_try_from_ym_error() {
    assert_eq!(
        HebrewMonth::try_from_ym(0, 5780),
        Err(HebrewDateErrors::BadMonthArgument)
    );
    assert_eq!(
        HebrewMonth::try_from_ym(20, 5780),
        Err(HebrewDateErrors::BadMonthArgument)
    );
    assert_eq!(
        HebrewMonth::try_from_ym(14, 5764),
        Err(HebrewDateErrors::BadMonthArgument)
    );
}
