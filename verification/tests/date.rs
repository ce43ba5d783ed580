use chrono::Datelike;
use death::date::{Date, ParseError};

#[test]
fn build_date() {
    assert_eq!(Date::build(0, 1, 1), Err(ParseError::InvalidYear));
    assert_eq!(Date::build(2015, 0, 0), Err(ParseError::InvalidMonth));
    assert_eq!(Date::build(2015, 13, 1), Err(ParseError::InvalidMonth));
    assert_eq!(Date::build(2015, 1, 32), Err(ParseError::InvalidDay));
    assert_eq!(Date::build(2015, 1, 0), Err(ParseError::InvalidDay));
    assert_eq!(Date::build(2015, 2, 29), Err(ParseError::InvalidDay));
    assert_eq!(Date::build(2016, 2, 30), Err(ParseError::InvalidDay));
}

#[test]
fn date_build_date() {
    assert_eq!(Date::build(2015, 0, 0), Err(ParseError::InvalidMonth));
    assert_eq!(Date::build(2015, 13, 1), Err(ParseError::InvalidMonth));
    assert_eq!(Date::build(2015, 1, 32), Err(ParseError::InvalidDay));
    assert_eq!(Date::build(2015, 2, 29), Err(ParseError::InvalidDay));
    assert_eq!(Date::build(2016, 2, 30), Err(ParseError::InvalidDay));
}

#[test]
fn parse_date() {
    // Success
    assert_eq!(
        Date::parse(&String::from("23.10.2015")), Date::build(2015, 10, 23)
    );
    assert_eq!(
        Date::parse(&String::from("23/10/2015")), Date::build(2015, 10, 23)
    );
    assert_eq!(
        Date::parse(&String::from("23-10-2015")), Date::build(2015, 10, 23)
    );
    assert_eq!(
        Date::parse(&String::from("23 10 2015")), Date::build(2015, 10, 23)
    );

    // Fail
    assert_eq!(
        Date::parse(&String::from("23\\09\\2015")),
        Err(ParseError::SeparatorNotFound)
    );
    assert_eq!(
        Date::parse(&String::from("23_09_2015")),
        Err(ParseError::SeparatorNotFound)
    );
    assert_eq!(
        Date::parse(&String::from("23092015")),
        Err(ParseError::SeparatorNotFound)
    );
    assert_eq!(
        Date::parse(&String::from("23.09.20.15")),
        Err(ParseError::InvalidPartsCount)
    );
    assert_eq!(
        Date::parse(&String::from("qwerty/asdfg.zxcvb")),
        Err(ParseError::InvalidPartsCount)
    );
    assert_eq!(
        Date::parse(&String::from("23.092015")),
        Err(ParseError::InvalidPartsCount)
    );
    assert_eq!(
        Date::parse(&String::from("20/10/-2015")),
        Err(ParseError::NumberConversionError)
    );
    assert_eq!(
        Date::parse(&String::from("32/10/2015")),
        Err(ParseError::InvalidDay)
    );
    assert_eq!(
        Date::parse(&String::from("20/13/2015")),
        Err(ParseError::InvalidMonth)
    );
    assert_eq!(
        Date::parse(&String::from("29/2/2015")),
        Err(ParseError::InvalidDay)
    );
    assert_eq!(
        Date::parse(&String::from("1/2/0")),
        Err(ParseError::InvalidYear)
    );
}

#[test]
fn date_parse_date() {
    // Success
    assert_eq!(
        Date::parse(&String::from("23.10.2015")), Date::build(2015, 10, 23)
    );
    assert_eq!(
        Date::parse(&String::from("23/10/2015")), Date::build(2015, 10, 23)
    );
    assert_eq!(
        Date::parse(&String::from("23-10-2015")), Date::build(2015, 10, 23)
    );
    assert_eq!(
        Date::parse(&String::from("23 10 2015")), Date::build(2015, 10, 23)
    );

    // Fail
    assert_eq!(
        Date::parse(&String::from("23\\09\\2015")),
        Err(ParseError::SeparatorNotFound)
    );
    assert_eq!(
        Date::parse(&String::from("23_09_2015")),
        Err(ParseError::SeparatorNotFound)
    );
    assert_eq!(
        Date::parse(&String::from("23092015")),
        Err(ParseError::SeparatorNotFound)
    );
    assert_eq!(
        Date::parse(&String::from("23.09.20.15")),
        Err(ParseError::InvalidPartsCount)
    );
    assert_eq!(
        Date::parse(&String::from("qwerty/asdfg.zxcvb")),
        Err(ParseError::InvalidPartsCount)
    );
    assert_eq!(
        Date::parse(&String::from("23.092015")),
        Err(ParseError::InvalidPartsCount)
    );
    assert_eq!(
        Date::parse(&String::from("20/10/-2015")),
        Err(ParseError::NumberConversionError)
    );
    assert_eq!(
        Date::parse(&String::from("32/10/2015")),
        Err(ParseError::InvalidDay)
    );
    assert_eq!(
        Date::parse(&String::from("20/13/2015")),
        Err(ParseError::InvalidMonth)
    );
    assert_eq!(
        Date::parse(&String::from("29/2/2015")),
        Err(ParseError::InvalidDay)
    );
}

#[test]
fn max_day() {
    assert_eq!(Date::build(2015, 1, 1).unwrap().get_max_day(), 31);
    assert_eq!(Date::build(2015, 2, 1).unwrap().get_max_day(), 28);
    assert_eq!(Date::build(2016, 2, 1).unwrap().get_max_day(), 29);
    assert_eq!(Date::build(2015, 3, 1).unwrap().get_max_day(), 31);
    assert_eq!(Date::build(2015, 4, 1).unwrap().get_max_day(), 30);
    assert_eq!(Date::build(2015, 5, 1).unwrap().get_max_day(), 31);
    assert_eq!(Date::build(2015, 6, 1).unwrap().get_max_day(), 30);
    assert_eq!(Date::build(2015, 7, 1).unwrap().get_max_day(), 31);
    assert_eq!(Date::build(2015, 8, 1).unwrap().get_max_day(), 31);
    assert_eq!(Date::build(2015, 9, 1).unwrap().get_max_day(), 30);
    assert_eq!(Date::build(2015, 10, 1).unwrap().get_max_day(), 31);
    assert_eq!(Date::build(2015, 11, 1).unwrap().get_max_day(), 30);
    assert_eq!(Date::build(2015, 12, 1).unwrap().get_max_day(), 31);

    assert_eq!(Date::max_day_of(2015, 1), 31);
    assert_eq!(Date::max_day_of(2015, 2), 28);
    assert_eq!(Date::max_day_of(2016, 2), 29);
    assert_eq!(Date::max_day_of(2015, 3), 31);
    assert_eq!(Date::max_day_of(2015, 4), 30);
    assert_eq!(Date::max_day_of(2015, 5), 31);
    assert_eq!(Date::max_day_of(2015, 6), 30);
    assert_eq!(Date::max_day_of(2015, 7), 31);
    assert_eq!(Date::max_day_of(2015, 8), 31);
    assert_eq!(Date::max_day_of(2015, 9), 30);
    assert_eq!(Date::max_day_of(2015, 10), 31);
    assert_eq!(Date::max_day_of(2015, 11), 30);
    assert_eq!(Date::max_day_of(2015, 12), 31);
}

#[test]
fn date_max_day() {
    assert_eq!(Date::build(2015, 1, 1).unwrap().get_max_day(), 31);
    assert_eq!(Date::build(2015, 2, 1).unwrap().get_max_day(), 28);
    assert_eq!(Date::build(2016, 2, 1).unwrap().get_max_day(), 29);
    assert_eq!(Date::build(2015, 3, 1).unwrap().get_max_day(), 31);
    assert_eq!(Date::build(2015, 4, 1).unwrap().get_max_day(), 30);
    assert_eq!(Date::build(2015, 5, 1).unwrap().get_max_day(), 31);
    assert_eq!(Date::build(2015, 6, 1).unwrap().get_max_day(), 30);
    assert_eq!(Date::build(2015, 7, 1).unwrap().get_max_day(), 31);
    assert_eq!(Date::build(2015, 8, 1).unwrap().get_max_day(), 31);
    assert_eq!(Date::build(2015, 9, 1).unwrap().get_max_day(), 30);
    assert_eq!(Date::build(2015, 10, 1).unwrap().get_max_day(), 31);
    assert_eq!(Date::build(2015, 11, 1).unwrap().get_max_day(), 30);
    assert_eq!(Date::build(2015, 12, 1).unwrap().get_max_day(), 31);
}

#[test]
fn build_keeps_the_three_numbers() {
    let date = Date::build(2023, 10, 27).unwrap();
    assert_eq!(date.year(), 2023);
    assert_eq!(date.month(), 10);
    assert_eq!(date.day(), 27);
    assert!(Date::build(1, 1, 1).is_ok());
    assert!(Date::build(65535, 12, 31).is_ok());
    assert!(Date::build(2016, 2, 29).is_ok());
}

#[test]
fn build_judges_year_then_month_then_day() {
    assert_eq!(Date::build(0, 13, 32), Err(ParseError::InvalidYear));
    assert_eq!(Date::build(2015, 13, 32), Err(ParseError::InvalidMonth));
    assert_eq!(Date::build(2015, 4, 31), Err(ParseError::InvalidDay));
}

#[test]
fn from_civil_checks_wide_numbers() {
    assert_eq!(Date::from_civil(2015, 10, 23), Date::build(2015, 10, 23));
    assert_eq!(Date::from_civil(0, 1, 1), Err(ParseError::InvalidYear));
    assert_eq!(Date::from_civil(-44, 3, 15), Err(ParseError::InvalidYear));
    assert_eq!(Date::from_civil(65536, 1, 1), Err(ParseError::InvalidYear));
    assert_eq!(Date::from_civil(2015, 257, 1), Err(ParseError::InvalidMonth));
    assert_eq!(Date::from_civil(2015, 1, 257), Err(ParseError::InvalidDay));
    assert_eq!(Date::from_civil(2015, 1, 0), Err(ParseError::InvalidDay));
}

#[test]
fn leap_years() {
    assert!(Date::is_leap_year(2000));
    assert!(Date::is_leap_year(2016));
    assert!(!Date::is_leap_year(1900));
    assert!(!Date::is_leap_year(2015));
    assert!(!Date::is_leap_year(2021));
    assert!(Date::build(2016, 3, 7).unwrap().leap_year());
    assert!(!Date::build(2015, 3, 7).unwrap().leap_year());
    assert!(Date::build(2000, 3, 7).unwrap().leap_year());
    assert!(!Date::build(1900, 3, 7).unwrap().leap_year());
}

#[test]
fn max_day_of_a_month_out_of_range() {
    assert_eq!(Date::max_day_of(2015, 0), 30);
    assert_eq!(Date::max_day_of(2015, 13), 30);
}

#[test]
fn parse_takes_the_first_separator_of_the_list() {
    // '.' comes before '/' in the list, wherever they stand in the text
    assert_eq!(
        Date::parse(&String::from("1/2.3.2015")),
        Err(ParseError::NumberConversionError)
    );
    assert_eq!(
        Date::parse(&String::from("23.10/2015")),
        Err(ParseError::InvalidPartsCount)
    );
    assert_eq!(
        Date::parse(&String::from("1.2 3")),
        Err(ParseError::InvalidPartsCount)
    );
    assert_eq!(Date::parse(&String::from("1 2 3")), Date::build(3, 2, 1));
}

#[test]
fn parse_counts_the_pieces_before_it_reads_them() {
    assert_eq!(
        Date::parse(&String::from("1.2.3.x")),
        Err(ParseError::InvalidPartsCount)
    );
    assert_eq!(Date::parse(&String::from("x.y")), Err(ParseError::InvalidPartsCount));
    assert_eq!(Date::parse(&String::from("1.2")), Err(ParseError::InvalidPartsCount));
    assert_eq!(Date::parse(&String::from(".")), Err(ParseError::InvalidPartsCount));
    assert_eq!(Date::parse(&String::from("1.2.")), Err(ParseError::NumberConversionError));
    assert_eq!(Date::parse(&String::from("..")), Err(ParseError::NumberConversionError));
    assert_eq!(Date::parse(&String::from("a.b.c")), Err(ParseError::NumberConversionError));
    assert_eq!(Date::parse(&String::from("1.2.x")), Err(ParseError::NumberConversionError));
    assert_eq!(Date::parse(&String::from("")), Err(ParseError::SeparatorNotFound));
}

#[test]
fn parse_reads_sixteen_bit_numbers() {
    assert_eq!(Date::parse(&String::from("+7/+3/+2015")), Date::build(2015, 3, 7));
    assert_eq!(Date::parse(&String::from("007/03/02015")), Date::build(2015, 3, 7));
    assert_eq!(Date::parse(&String::from("31/12/65535")), Date::build(65535, 12, 31));
    assert_eq!(
        Date::parse(&String::from("31/12/65536")),
        Err(ParseError::NumberConversionError)
    );
    assert_eq!(Date::parse(&String::from("+/1/1")), Err(ParseError::NumberConversionError));
    assert_eq!(Date::parse(&String::from("++1/1/1")), Err(ParseError::NumberConversionError));
    assert_eq!(Date::parse(&String::from("1 /1/1")), Err(ParseError::NumberConversionError));
    assert_eq!(
        Date::parse(&String::from("\u{661}/1/2015")),
        Err(ParseError::NumberConversionError)
    );
}

#[test]
fn parse_does_not_wrap_large_days_and_months() {
    assert_eq!(Date::parse(&String::from("257/10/2015")), Err(ParseError::InvalidDay));
    assert_eq!(Date::parse(&String::from("1/257/2015")), Err(ParseError::InvalidMonth));
    assert_eq!(Date::parse(&String::from("300/300/0")), Err(ParseError::InvalidYear));
}

#[test]
fn parse_reads_back_a_written_date() {
    let dates = [(2015, 10, 23), (1, 1, 1), (65535, 12, 31), (2016, 2, 29), (1998, 5, 12)];
    for (year, month, day) in dates {
        for separator in ['.', '/', '-', ' '] {
            let text = format!("{day:02}{separator}{month:02}{separator}{year:04}");
            assert_eq!(Date::parse(&text), Date::build(year, month, day));
            let text = format!("{day}{separator}{month}{separator}{year}");
            assert_eq!(Date::parse(&text), Date::build(year, month, day));
        }
    }
}

#[test]
fn month_names() {
    let names = [
        "January", "February", "March", "April", "May", "June", "July",
        "August", "September", "October", "November", "December",
    ];
    for month in 1..=12u8 {
        let date = Date::build(2012, month, 12).unwrap();
        assert_eq!(date.get_month_name(), names[month as usize - 1]);
    }
}

#[test]
fn next_month_steps_and_clamps() {
    assert_eq!(
        Date::build(2015, 3, 7).unwrap().next_month(),
        Date::build(2015, 4, 7).unwrap()
    );
    assert_eq!(
        Date::build(2015, 1, 31).unwrap().next_month(),
        Date::build(2015, 2, 28).unwrap()
    );
    assert_eq!(
        Date::build(2016, 1, 31).unwrap().next_month(),
        Date::build(2016, 2, 29).unwrap()
    );
    assert_eq!(
        Date::build(2015, 12, 7).unwrap().next_month(),
        Date::build(2016, 1, 7).unwrap()
    );
    assert_eq!(
        Date::build(2015, 5, 31).unwrap().next_month(),
        Date::build(2015, 6, 30).unwrap()
    );
    assert_eq!(
        Date::build(65535, 11, 30).unwrap().next_month(),
        Date::build(65535, 12, 30).unwrap()
    );
}

#[test]
fn next_day_steps_and_rolls_over() {
    assert_eq!(
        Date::build(2015, 3, 7).unwrap().next_day(),
        Date::build(2015, 3, 8).unwrap()
    );
    assert_eq!(
        Date::build(2015, 2, 28).unwrap().next_day(),
        Date::build(2015, 3, 1).unwrap()
    );
    assert_eq!(
        Date::build(2016, 2, 28).unwrap().next_day(),
        Date::build(2016, 2, 29).unwrap()
    );
    assert_eq!(
        Date::build(2015, 12, 31).unwrap().next_day(),
        Date::build(2016, 1, 1).unwrap()
    );
    assert_eq!(
        Date::build(65535, 12, 30).unwrap().next_day(),
        Date::build(65535, 12, 31).unwrap()
    );
}

#[test]
fn years_from_counts_full_years_both_ways() {
    let a = Date::build(1998, 5, 12).unwrap();
    let b = Date::build(2015, 4, 2).unwrap();
    let c = Date::build(2015, 5, 13).unwrap();
    let d = Date::build(2015, 5, 12).unwrap();
    let e = Date::build(2015, 5, 11).unwrap();
    assert_eq!(a.years_from(b), 16);
    assert_eq!(a.years_from(c), 17);
    assert_eq!(b.years_from(a), 16);
    assert_eq!(c.years_from(a), 17);
    assert_eq!(a.years_from(d), 17);
    assert_eq!(a.years_from(e), 16);
    assert_eq!(a.years_from(a), 0);
    assert_eq!(b.years_from(c), 0);
    assert_eq!(
        Date::build(1, 1, 1).unwrap().years_from(Date::build(65535, 12, 31).unwrap()),
        65534
    );
}

#[test]
fn dates_are_ordered_by_year_month_day() {
    let a = Date::build(2015, 12, 31).unwrap();
    let b = Date::build(2016, 1, 1).unwrap();
    let c = Date::build(2016, 1, 2).unwrap();
    let d = Date::build(2016, 2, 1).unwrap();
    assert!(a < b && b < c && c < d);
    assert!(a.is_before(&b) && !b.is_before(&a) && !a.is_before(&a));
    assert!(d > a && a <= a && a >= a);
    assert_eq!(a.partial_cmp(&b), Some(std::cmp::Ordering::Less));
    assert_eq!(b.partial_cmp(&a), Some(std::cmp::Ordering::Greater));
    assert_eq!(a.partial_cmp(&a), Some(std::cmp::Ordering::Equal));
    assert_eq!(a.cmp(&b), std::cmp::Ordering::Less);
    assert_eq!(std::cmp::max(a, d), d);
    assert_eq!(std::cmp::min(c, b), b);
}

#[test]
fn a_date_is_shown_with_its_month_name() {
    assert_eq!(Date::build(2015, 3, 7).unwrap().to_string(), "7 March 2015");
    assert_eq!(Date::build(65535, 12, 31).unwrap().to_string(), "31 December 65535");
    assert_eq!(Date::build(1, 1, 1).unwrap().to_string(), "1 January 1");
    assert_eq!(Date::build(100, 10, 10).unwrap().to_string(), "10 October 100");
}

#[test]
fn the_clock_gives_a_date() {
    let now = chrono::Local::now().date_naive();
    let today = Date::from_civil(now.year(), now.month(), now.day()).unwrap();
    assert!(today.year() >= 2024);
    assert_eq!(today.year() as i32, now.year());
    assert_eq!(today.month() as u32, now.month());
    assert_eq!(today.day() as u32, now.day());
    assert!(today.day() <= today.get_max_day());
}
