use hdate::event::Event;
use hdate::flags::{
    Flags, CHAG, CHUL_ONLY, HEBREW_DATE, ISRAEL_ONLY, MOLAD, ROSH_CHODESH, SHABBAT_MEVARCHIM,
    SPECIAL_SHABBAT,
};
use hdate::gregorian::GregorianDate;
use hdate::hdate::Hdate;
use hdate::hebrew::ElapsedDaysCache;
use hdate::hebrew_date::{
    before_epoch_text, hebrew_to_absolute_with, month_of_absolute, try_from_absolute_with,
    year_of_absolute, HebrewDate,
};
use hdate::hebrew_date_event::HebrewDateEvent;
use hdate::holyday_event::{
    AsaraBTevetEvent, Emoji, HolidayEvent, RoshChodeshEvent, ShabbatMevarchimEvent,
};
use hdate::molad::Molad;
use hdate::molad_event::MoladEvent;
use hdate::month::HebrewMonth;

#[test]
fn molad_of_tevet_5769() {
    let molad = Molad::new(5769, HebrewMonth::Tevet);
    assert_eq!(molad.year, 5769);
    assert_eq!(molad.month, HebrewMonth::Tevet);
    assert_eq!(molad.day_of_week, 6);
    assert_eq!(molad.hour, 16);
    assert_eq!(molad.minute, 10);
    assert_eq!(molad.parts, 16);
}

#[test]
fn molad_of_other_months() {
    let tishrei = Molad::new(5769, HebrewMonth::Tishrei);
    assert_eq!(
        (tishrei.day_of_week, tishrei.hour, tishrei.minute, tishrei.parts),
        (2, 1, 58, 13)
    );
    let nisan = Molad::new(5784, HebrewMonth::Nisan);
    assert_eq!((nisan.day_of_week, nisan.hour, nisan.minute, nisan.parts), (1, 22, 57, 7));
    let adar = Molad::new(5784, HebrewMonth::AdarII);
    assert_eq!((adar.day_of_week, adar.hour, adar.minute, adar.parts), (0, 10, 13, 6));
    let next = Molad::new(5785, HebrewMonth::Tishrei);
    assert_eq!((next.day_of_week, next.hour, next.minute, next.parts), (4, 3, 21, 13));
}

#[test]
fn the_first_molad_is_set_back_into_the_day_before() {
    let first = Molad::new(1, HebrewMonth::Tishrei);
    assert_eq!((first.day_of_week, first.hour, first.minute, first.parts), (0, 23, 11, 6));
    assert_eq!(
        first.to_string(),
        "Molad Tishrei 1: Sun, 11 minutes and 6 chalakim after 23:00"
    );
}

#[test]
fn month_names_and_numbers() {
    let names = [
        "Nisan", "Iyyar", "Sivan", "Tamuz", "Av", "Elul", "Tishrei", "Cheshvan", "Kislev",
        "Tevet", "Shvat", "AdarI", "AdarII",
    ];
    for number in 1..=13u8 {
        let month = HebrewMonth::from(number);
        assert_eq!(month.to_number(), number);
        assert_eq!(month.name(), names[number as usize - 1]);
        assert_eq!(month.to_string(), names[number as usize - 1]);
    }
    assert!(HebrewMonth::Nisan < HebrewMonth::Tishrei);
    assert_eq!(HebrewDate::from_ymd(5769, 8, 15), HebrewDate::new(5769, HebrewMonth::Cheshvan, 15));
}

#[test]
fn texts_are_built_from_their_pieces() {
    assert_eq!(before_epoch_text(-1373429), "-1373429 is before creation of time");
    assert_eq!(before_epoch_text(0), "0 is before creation of time");
    assert_eq!(before_epoch_text(1050), "1050 is before creation of time");
    let date = Hdate::from_ymd(5769, HebrewMonth::Kislev, 23);
    assert_eq!(date.to_string(), "23 Kislev 5769");
    let mut text = String::from("day ");
    hdate::text::push_decimal(&mut text, -90210);
    hdate::text::push_decimal_nat(&mut text, 0);
    hdate::text::push_decimal_nat(&mut text, 18446744073709551615);
    hdate::text::push_decimal(&mut text, i64::MIN);
    assert_eq!(text, "day -90210018446744073709551615-9223372036854775808");
}

#[test]
fn hdate_moves_by_days() {
    let date = Hdate::from_ymd(5784, HebrewMonth::Elul, 29);
    let next = date.add(1);
    assert_eq!((next.year, next.month, next.day), (5785, HebrewMonth::Tishrei, 1));
    assert_eq!(next.delta_days(date), 1);
    let back = next.sub(1);
    assert_eq!(back, date);
    assert_eq!((back.year, back.month, back.day), (5784, HebrewMonth::Elul, 29));
    let later = date.sub(-30);
    assert_eq!((later.year, later.month, later.day), (5785, HebrewMonth::Tishrei, 30));
    assert!(date < next);
    assert!(date.is_leap_year());
    assert!(!next.is_leap_year());
    assert_eq!(date.days_in_month(), 29);
    assert_eq!(next.days_in_month(), 30);
}

#[test]
fn hdate_from_other_calendars() {
    let date = Hdate::try_from(GregorianDate::new(2005, 4, 2)).unwrap();
    assert_eq!((date.year, date.month, date.day), (5765, HebrewMonth::AdarII, 22));
    assert_eq!(date.rd, 732038);
    assert_eq!(date.to_gregorian(), GregorianDate::new(2005, 4, 2));
    assert_eq!(date.get_week_day(), 6);
    assert!(Hdate::try_from(GregorianDate::new(-3761, 1, 1)).is_err());
    assert_eq!(Hdate::from_absolute(0).unwrap(), Hdate::from_ymd(3761, HebrewMonth::Tevet, 17));
    assert!(Hdate::from_absolute(-1373429).is_err());
    let eve = Hdate::from_absolute(-1373428).unwrap();
    assert_eq!((eve.year, eve.month, eve.day), (0, HebrewMonth::Elul, 29));
    assert_eq!(eve.add(1), Hdate::from_ymd(1, HebrewMonth::Tishrei, 1));
    let early = Hdate::from_absolute(-1373427).unwrap();
    assert_eq!((early.year, early.month, early.day), (1, HebrewMonth::Tishrei, 1));
    assert_eq!(early.get_week_day(), 1);
}

#[test]
fn flags_are_sets_of_bits() {
    let both = Flags::from_bits_retain(CHAG).union(Flags::from_bits_retain(CHUL_ONLY));
    assert_eq!(both.bits(), 9);
    assert!(both.intersects(Flags::from_bits_retain(CHUL_ONLY)));
    assert!(!both.intersects(Flags::from_bits_retain(ISRAEL_ONLY)));
    assert!(both.contains(Flags::from_bits_retain(CHAG)));
    assert!(!Flags::from_bits_retain(CHAG).contains(both));
    assert!(Flags::empty().is_empty());
    assert!(!both.is_empty());
    assert!(!Flags::empty().intersects(both));
    assert_eq!(Flags::from_bits_retain(CHAG | CHUL_ONLY), both);
}

#[test]
fn events_are_observed_where_their_kinds_say() {
    let abroad = Event::new(
        Hdate::from_ymd(5749, HebrewMonth::Sivan, 7),
        "Shavuot II".to_string(),
        Flags::from_bits_retain(CHAG | CHUL_ONLY),
    );
    assert!(!abroad.observed_in_israel());
    assert!(abroad.observed_in_diaspora());
    let everywhere = Event::new(
        Hdate::from_ymd(5749, HebrewMonth::Kislev, 26),
        "Chanukah: 3 Candles".to_string(),
        Flags::empty(),
    );
    assert!(everywhere.observed_in_israel());
    assert!(everywhere.observed_in_diaspora());
    let at_home = Event::new(
        Hdate::from_ymd(5749, HebrewMonth::Sivan, 7),
        "Israel only".to_string(),
        Flags::from_bits_retain(ISRAEL_ONLY),
    );
    assert!(at_home.observed_in_israel());
    assert!(!at_home.observed_in_diaspora());
    assert_eq!(at_home.description, "Israel only");
    assert_eq!(everywhere.clone(), everywhere);
}

#[test]
fn events_name_themselves() {
    let date = Hdate::from_ymd(5784, HebrewMonth::AdarII, 26);
    let daily = HebrewDateEvent::new(date);
    assert_eq!(daily.0.description, "26 AdarII 5784");
    assert_eq!(daily.0.mask.bits(), HEBREW_DATE);
    assert_eq!(daily.0.date, date);
    assert_eq!(daily.0.get_gregorian_date(), GregorianDate::new(2024, 4, 5));

    let new_month = RoshChodeshEvent::new(Hdate::from_ymd(5784, HebrewMonth::Nisan, 1));
    assert_eq!(new_month.0.0.description, "Rosh Chodesh Nisan");
    assert_eq!(new_month.0.0.mask.bits(), ROSH_CHODESH);
    assert_eq!(new_month.get_emoji(), "\u{1F312}");

    let fast = AsaraBTevetEvent::new(
        Hdate::from_ymd(5784, HebrewMonth::Tevet, 10),
        Flags::from_bits_retain(hdate::flags::MINOR_FAST),
    );
    assert_eq!(fast.0.0.description, "Asara B Tevet 5784");
    assert_eq!(fast.0.0.mask.bits(), 0x100);

    let announced = ShabbatMevarchimEvent::new(date, HebrewMonth::Nisan, None);
    assert_eq!(announced.holyday_event.0.description, "Shabbat Mevarchim Nisan");
    assert_eq!(announced.holyday_event.0.mask.bits(), SHABBAT_MEVARCHIM);
    assert_eq!(announced.memo, "");
    let with_memo =
        ShabbatMevarchimEvent::new(date, HebrewMonth::Nisan, Some("Molad Nisan".to_string()));
    assert_eq!(with_memo.memo, "Molad Nisan");

    let holiday = HolidayEvent::new(date, "Purim".to_string(), Flags::from_bits_retain(CHAG));
    assert_eq!(holiday.get_emoji(), "\u{2721}\u{FE0F}");
    assert_eq!(holiday.get_gregorian_date(), GregorianDate::new(2024, 4, 5));
    let shabbat = HolidayEvent::new(
        date,
        "Shabbat Zachor".to_string(),
        Flags::from_bits_retain(SPECIAL_SHABBAT),
    );
    assert_eq!(shabbat.get_emoji(), "\u{1F54D}");

    let molad = MoladEvent::new(date, HebrewMonth::Nisan, 5784);
    assert_eq!(molad.event.description, "Molad Nisan 5784");
    assert_eq!(molad.event.mask.bits(), MOLAD);
    assert_eq!(molad.to_string(), "Molad Nisan 5784: Mon, 57 minutes and 7 chalakim after 22:00");
    assert_eq!(molad.molad.to_string(), molad.to_string());
}

#[test]
fn the_cache_keeps_what_it_computed() {
    let mut cache = ElapsedDaysCache::new();
    assert_eq!(cache.len(), 0);
    assert_eq!(cache.get(5765), None);
    assert_eq!(cache.elapsed_days(5765), 2105268);
    assert_eq!(cache.len(), 1);
    assert_eq!(cache.get(5765), Some(2105268));
    assert_eq!(cache.elapsed_days(5765), 2105268);
    assert_eq!(cache.len(), 1);
    assert_eq!(cache.days_in_year(5765), 383);
    assert_eq!(cache.get(5766), Some(2105651));
    assert_eq!(cache.len(), 2);
    assert_eq!(cache.days_in_month(HebrewMonth::Kislev, 5765), 29);
    assert_eq!(cache.days_in_month(HebrewMonth::Cheshvan, 5783), 30);
    assert_eq!(cache.len(), 4);
}

#[test]
fn conversions_share_a_cache() {
    let mut cache = ElapsedDaysCache::new();
    assert_eq!(hebrew_to_absolute_with(&mut cache, 5765, HebrewMonth::AdarII, 22), 732038);
    assert_eq!(
        try_from_absolute_with(&mut cache, 732038),
        Ok(HebrewDate::new(5765, HebrewMonth::AdarII, 22))
    );
    assert_eq!(year_of_absolute(&mut cache, 732038), 5765);
    assert_eq!(month_of_absolute(&mut cache, 5765, 732038), 13);
    assert_eq!(year_of_absolute(&mut cache, 731840), 5765);
    assert_eq!(year_of_absolute(&mut cache, 731839), 5764);
    assert_eq!(month_of_absolute(&mut cache, 5764, 731839), 6);
    assert_eq!(cache.get(5764), Some(2104913));
    assert_eq!(cache.get(5765), Some(2105268));
    assert_eq!(cache.get(5766), Some(2105651));
    assert_eq!(cache.get(5767), None);
    assert!(try_from_absolute_with(&mut cache, -1373429).is_err());
}
