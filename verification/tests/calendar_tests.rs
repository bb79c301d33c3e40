use quex::calender::eth::{
    days_in_month_e, eth_from_jdn, is_leap_year_e, month_next_e, werh_from_quex, EthiopianDate,
};
use quex::calender::gre::{
    days_in_month_g, gre_from_jdn, is_leap_year_g, month_from_quex, month_next_g, GregorianDate,
};

#[test]
fn gregorian_day_counts_match_time() {
    let samples = [
        (1970, 1, 1),
        (2000, 1, 1),
        (2002, 1, 1),
        (2024, 2, 29),
        (2024, 12, 31),
        (1, 1, 1),
        (9999, 12, 31),
    ];
    for (y, m, d) in samples {
        let mine = GregorianDate::from_calendar(y, m, d).unwrap().julian_day();
        let theirs = time::Date::from_calendar_date(y, time::Month::try_from(m).unwrap(), d)
            .unwrap()
            .to_julian_day();
        assert_eq!(mine, theirs, "disagreement at {}-{}-{}", y, m, d);
    }
    assert_eq!(
        GregorianDate::from_calendar(2000, 1, 1).unwrap().julian_day(),
        2_451_545
    );
}

#[test]
fn gregorian_round_trip() {
    let samples = [(1970, 1, 1), (2024, 2, 29), (1, 1, 1), (9999, 12, 31), (1900, 3, 1)];
    for (y, m, d) in samples {
        let date = GregorianDate::from_calendar(y, m, d).unwrap();
        let back = gre_from_jdn(date.julian_day()).unwrap();
        assert_eq!(back, date);
    }
    assert!(gre_from_jdn(0).is_none());
}

#[test]
fn ethiopian_day_counts_match_zemen() {
    let samples = [(1992, 4, 22), (2011, 4, 23), (2012, 4, 21), (2015, 13, 6), (2016, 1, 1)];
    for (y, m, d) in samples {
        let mine = EthiopianDate::from_eth_cal(y, m, d).unwrap().julian_day();
        let theirs = zemen::Zemen::from_eth_cal(y, zemen::Werh::try_from(m).unwrap(), d)
            .unwrap()
            .to_jdn();
        assert_eq!(mine, theirs, "disagreement at {}-{}-{}", y, m, d);
    }
    assert_eq!(
        EthiopianDate::from_eth_cal(1992, 4, 22).unwrap().julian_day(),
        2_451_545
    );
}

#[test]
fn ethiopian_round_trip() {
    let samples = [(1992, 4, 22), (2015, 13, 6), (1, 1, 1), (9999, 13, 6)];
    for (y, m, d) in samples {
        let date = EthiopianDate::from_eth_cal(y, m, d).unwrap();
        let back = eth_from_jdn(date.julian_day()).unwrap();
        assert_eq!(back, date);
    }
    let z = zemen::Zemen::from_jdn(2_451_545).unwrap();
    let mine = eth_from_jdn(2_451_545).unwrap();
    assert_eq!((mine.year, mine.month, mine.day), (z.year(), z.month() as u8, z.day()));
}

#[test]
fn leap_year_rules() {
    assert!(is_leap_year_g(2024));
    assert!(is_leap_year_g(2000));
    assert!(!is_leap_year_g(1900));
    assert!(!is_leap_year_g(2023));

    assert!(is_leap_year_e(2015));
    assert!(is_leap_year_e(2003));
    assert!(!is_leap_year_e(2016));
}

#[test]
fn days_in_months() {
    assert_eq!(days_in_month_g(2024, 2), 29);
    assert_eq!(days_in_month_g(2023, 2), 28);
    assert_eq!(days_in_month_g(2023, 4), 30);
    assert_eq!(days_in_month_g(2023, 12), 31);

    assert_eq!(days_in_month_e(2015, 13), 6);
    assert_eq!(days_in_month_e(2016, 13), 5);
    assert_eq!(days_in_month_e(2016, 7), 30);
}

#[test]
fn invalid_components_are_rejected() {
    assert!(GregorianDate::from_calendar(2023, 2, 29).is_none());
    assert!(GregorianDate::from_calendar(2023, 13, 1).is_none());
    assert!(GregorianDate::from_calendar(0, 1, 1).is_none());
    assert!(GregorianDate::from_calendar(10000, 1, 1).is_none());

    assert!(EthiopianDate::from_eth_cal(2016, 13, 6).is_none());
    assert!(EthiopianDate::from_eth_cal(2016, 14, 1).is_none());
    assert!(EthiopianDate::from_eth_cal(2016, 1, 31).is_none());
}

#[test]
fn month_successors_wrap() {
    assert_eq!(month_next_g(1), 2);
    assert_eq!(month_next_g(12), 1);
    assert_eq!(month_next_e(12), 13);
    assert_eq!(month_next_e(13), 1);
}

#[test]
fn month_vocabularies() {
    assert_eq!(month_from_quex("jan"), Some(1));
    assert_eq!(month_from_quex("dec"), Some(12));
    assert_eq!(month_from_quex("january"), None);
    assert_eq!(month_from_quex("mes"), None);

    assert_eq!(werh_from_quex("mes"), Some(1));
    assert_eq!(werh_from_quex("pua"), Some(13));
    assert_eq!(werh_from_quex("jan"), None);
}

#[test]
fn pretty_rendering() {
    let g = GregorianDate::from_calendar(2024, 3, 1).unwrap();
    assert_eq!(g.pretty(), "March 1, 2024");
    let e = EthiopianDate::from_eth_cal(2016, 12, 1).unwrap();
    assert_eq!(e.pretty(), "ነሐሴ 1, 2016");
}

#[test]
fn todays_date_is_the_clock_date() {
    let today = quex::calender::today_date().unwrap();
    let d = time::OffsetDateTime::now_utc().date();
    assert_eq!(
        (today.year, today.month, today.day),
        (d.year(), u8::from(d.month()), d.day())
    );
    assert_eq!(today.julian_day(), d.to_julian_day());
}
