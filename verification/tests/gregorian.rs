use hdate::gregorian::{
    absolute_to_gregorian, days_in_month, gregorian_to_absolute, is_leap_year, to_fixed,
    GregorianDate,
};

#[test]
fn gregorian_test_to_fixed() {
    assert_eq!(to_fixed(-1, 3, 1), -671);
}

#[test]
fn test_to_fixed() {
    assert_eq!(to_fixed(-1, 3, 1), -671);
}

#[test]
fn gregorian_test_gregorian_to_absolute() {
    assert_eq!(
        gregorian_to_absolute(GregorianDate::new(1995, 12, 17)),
        728644
    );
    assert_eq!(
        gregorian_to_absolute(GregorianDate::new(1888, 12, 31)),
        689578
    );
    assert_eq!(
        gregorian_to_absolute(GregorianDate::new(2005, 4, 2)),
        732038
    );
}

#[test]
fn gregorian_test_gregorian_to_absolute_early_ce() {
    assert_eq!(
        gregorian_to_absolute(GregorianDate::new(88, 12, 30)),
        32141
    );
    assert_eq!(
        gregorian_to_absolute(GregorianDate::new(1, 1, 1)),
        1
    );
}

#[test]
fn gregorian_test_gregorian_to_absolute_negative() {
    assert_eq!(
        gregorian_to_absolute(GregorianDate::new(-1, 1, 1)),
        -730
    );
    assert_eq!(
        gregorian_to_absolute(GregorianDate::new(-100, 12, 20)),
        -36536
    );
    assert_eq!(
        gregorian_to_absolute(GregorianDate::new(-1000, 6, 15)),
        -365442
    );
}

#[test]
fn gregorian_test_absolute_to_gregorian() {
    assert_eq!(
        absolute_to_gregorian(737553).unwrap(),
        GregorianDate::new(2020, 5, 8)
    );
    assert_eq!(
        absolute_to_gregorian(689578).unwrap(),
        GregorianDate::new(1888, 12, 31)
    );
    assert_eq!(
        absolute_to_gregorian(732038).unwrap(),
        GregorianDate::new(2005, 4, 2)
    );
}

#[test]
fn gregorian_test_absolute_to_gregorian_88ce() {
    assert_eq!(
        absolute_to_gregorian(32141).unwrap(),
        GregorianDate::new(88, 12, 30)
    );
    assert_eq!(
        absolute_to_gregorian(32142).unwrap(),
        GregorianDate::new(88, 12, 31)
    );
    assert_eq!(
        absolute_to_gregorian(32143).unwrap(),
        GregorianDate::new(89, 1, 1)
    );
}

#[test]
fn gregorian_test_absolute_to_gregorian_1ce() {
    assert_eq!(
        absolute_to_gregorian(1).unwrap(),
        GregorianDate::new(1, 1, 1)
    );
}

#[test]
fn gregorian_test_absolute_to_gregorian_negative() {
    assert_eq!(
        absolute_to_gregorian(-730).unwrap(),
        GregorianDate::new(-1, 1, 1)
    );
    assert_eq!(
        absolute_to_gregorian(-36536).unwrap(),
        GregorianDate::new(-100, 12, 20)
    );
    assert_eq!(
        absolute_to_gregorian(0).unwrap(),
        GregorianDate::new(0, 12, 31)
    );
    assert_eq!(
        absolute_to_gregorian(-1).unwrap(),
        GregorianDate::new(0, 12, 30)
    );
}

#[test]
fn gregorian_test_days_in_month() {
    assert_eq!(days_in_month(2, 2020), 29);
    assert_eq!(days_in_month(2, 2019), 28);
    assert_eq!(days_in_month(5, 2020), 31);
    assert_eq!(days_in_month(2, 2100), 28);
}

#[test]
fn gregorian_test_is_leap_year() {
    assert!(is_leap_year(2020));
    assert!(!is_leap_year(2019));
    assert!(!is_leap_year(2018));
    assert!(!is_leap_year(2017));
    assert!(is_leap_year(2016));
    assert!(is_leap_year(2000));
    assert!(!is_leap_year(2100));
    assert!(is_leap_year(1980));
}
