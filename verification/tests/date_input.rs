use chrono::{NaiveDate, NaiveDateTime, NaiveTime};
use packet_replay::config::{
    parse_datetime_input, ConfigError, DateField, DateTimeInput, DateTimePrompt,
};

fn by_chrono(year: i32, month: u32, day: u32, hour: u32, minute: u32, second: u32) -> i64 {
    NaiveDate::from_ymd_opt(year, month, day)
        .expect("a day of the calendar")
        .and_hms_opt(hour, minute, second)
        .expect("a time of day")
        .and_utc()
        .timestamp_micros()
}

/// Reads an entry of ASCII characters with the parsers of std and the calendar of chrono.
fn by_std_and_chrono(entry: &str) -> Result<i64, ConfigError> {
    if entry.len() != 14 {
        return Err(ConfigError::InvalidInputLength(entry.len()));
    }
    let year = entry[0..4].parse::<i32>().map_err(|_| ConfigError::ParseError(DateField::Year))?;
    let month = entry[4..6].parse::<u32>().map_err(|_| ConfigError::ParseError(DateField::Month))?;
    let day = entry[6..8].parse::<u32>().map_err(|_| ConfigError::ParseError(DateField::Day))?;
    let hour = entry[8..10].parse::<u32>().map_err(|_| ConfigError::ParseError(DateField::Hour))?;
    let minute =
        entry[10..12].parse::<u32>().map_err(|_| ConfigError::ParseError(DateField::Minute))?;
    let second =
        entry[12..14].parse::<u32>().map_err(|_| ConfigError::ParseError(DateField::Second))?;
    let date = NaiveDate::from_ymd_opt(year, month, day)
        .ok_or(ConfigError::ParseError(DateField::Date))?;
    let time = NaiveTime::from_hms_opt(hour, minute, second)
        .ok_or(ConfigError::ParseError(DateField::Time))?;
    Ok(NaiveDateTime::new(date, time).and_utc().timestamp_micros())
}

#[test]
fn agrees_with_std_on_every_two_byte_field() {
    let bytes: Vec<u8> = (0u8..128).collect();
    for first in &bytes {
        for second in &bytes {
            let field = String::from_utf8(vec![*first, *second]).expect("ASCII");
            for entry in [
                format!("2024{}01000000", field),
                format!("202401{}000000", field),
                format!("20240101{}0000", field),
                format!("2024010100{}00", field),
                format!("202401010000{}", field),
            ] {
                assert_eq!(parse_datetime_input(&entry), by_std_and_chrono(&entry), "{:?}", entry);
            }
        }
    }
}

#[test]
fn agrees_with_std_on_signs_and_blanks_in_the_year() {
    let marks = ['+', '-', ' ', '0', '1', '9', '_', 'a', '/', ':'];
    for a in marks {
        for b in marks {
            for c in marks {
                for d in marks {
                    let entry = format!("{}{}{}{}0229120000", a, b, c, d);
                    assert_eq!(
                        parse_datetime_input(&entry),
                        by_std_and_chrono(&entry),
                        "{:?}",
                        entry
                    );
                }
            }
        }
    }
}

#[test]
fn agrees_with_chrono_on_every_day_of_some_years() {
    for year in [-4, 0, 1, 1582, 1900, 1970, 2000, 2023, 2024, 9999] {
        for month in 0..=13u32 {
            for day in 0..=32u32 {
                let entry = if year < 0 {
                    format!("-{:03}{:02}{:02}235959", -year, month, day)
                } else {
                    format!("{:04}{:02}{:02}235959", year, month, day)
                };
                assert_eq!(parse_datetime_input(&entry), by_std_and_chrono(&entry), "{}", entry);
            }
        }
    }
}

#[test]
fn agrees_with_chrono_on_every_time_of_day() {
    for hour in 0..=25u32 {
        for minute in 0..=61u32 {
            for second in [0u32, 1, 30, 59, 60, 61, 99] {
                let entry = format!("20240229{:02}{:02}{:02}", hour, minute, second);
                assert_eq!(parse_datetime_input(&entry), by_std_and_chrono(&entry), "{}", entry);
            }
        }
    }
}

#[test]
fn epoch_is_zero() {
    assert_eq!(parse_datetime_input("19700101000000"), Ok(0));
}

#[test]
fn second_before_the_epoch_is_negative() {
    assert_eq!(parse_datetime_input("19691231235959"), Ok(-1_000_000));
}

#[test]
fn leap_day_with_time() {
    assert_eq!(parse_datetime_input("20240229123456"), Ok(1_709_210_096_000_000));
}

#[test]
fn known_instants() {
    assert_eq!(parse_datetime_input("20000301000000"), Ok(951_868_800_000_000));
    assert_eq!(parse_datetime_input("19991231235959"), Ok(946_684_799_000_000));
    assert_eq!(parse_datetime_input("20150515000000"), Ok(1_431_648_000_000_000));
    assert_eq!(parse_datetime_input("99991231235959"), Ok(253_402_300_799_000_000));
    assert_eq!(parse_datetime_input("00010101000000"), Ok(-62_135_596_800_000_000));
}

#[test]
fn agrees_with_the_calendar_on_every_month() {
    for year in [1600, 1900, 1999, 2000, 2023, 2024, 2100] {
        for month in 1..=12u32 {
            for day in [1u32, 15, 28] {
                let entry = format!("{:04}{:02}{:02}{:02}{:02}{:02}", year, month, day, 23, 59, 58);
                assert_eq!(
                    parse_datetime_input(&entry),
                    Ok(by_chrono(year, month, day, 23, 59, 58)),
                    "{}",
                    entry
                );
            }
        }
    }
}

#[test]
fn last_day_of_each_month() {
    let lengths = [31u32, 28, 31, 30, 31, 30, 31, 31, 30, 31, 30, 31];
    for (index, length) in lengths.iter().enumerate() {
        let month = index as u32 + 1;
        let last = format!("2023{:02}{:02}000000", month, length);
        assert_eq!(parse_datetime_input(&last), Ok(by_chrono(2023, month, *length, 0, 0, 0)));
        let beyond = format!("2023{:02}{:02}000000", month, length + 1);
        assert_eq!(
            parse_datetime_input(&beyond),
            Err(ConfigError::ParseError(DateField::Date)),
            "{}",
            beyond
        );
    }
}

#[test]
fn leap_years_follow_the_gregorian_rule() {
    assert!(parse_datetime_input("20240229000000").is_ok());
    assert!(parse_datetime_input("20000229000000").is_ok());
    assert!(parse_datetime_input("16000229000000").is_ok());
    let no_such_day = Err(ConfigError::ParseError(DateField::Date));
    assert_eq!(parse_datetime_input("20230229000000"), no_such_day);
    assert_eq!(parse_datetime_input("19000229000000"), no_such_day);
    assert_eq!(parse_datetime_input("21000229000000"), no_such_day);
    assert_eq!(parse_datetime_input("20240230000000"), no_such_day);
}

#[test]
fn signed_year_is_read_as_a_number() {
    assert_eq!(parse_datetime_input("+1230101000000"), Ok(by_chrono(123, 1, 1, 0, 0, 0)));
    assert_eq!(parse_datetime_input("+1230101000000"), Ok(-58_285_699_200_000_000));
    assert_eq!(parse_datetime_input("-1230101000000"), Ok(by_chrono(-123, 1, 1, 0, 0, 0)));
    assert_eq!(parse_datetime_input("-1230101000000"), Ok(-66_048_652_800_000_000));
    assert_eq!(parse_datetime_input("-0040229000000"), Ok(by_chrono(-4, 2, 29, 0, 0, 0)));
    assert_eq!(parse_datetime_input("00000229000000"), Ok(by_chrono(0, 2, 29, 0, 0, 0)));
}

#[test]
fn plus_sign_is_accepted_in_every_field() {
    assert_eq!(parse_datetime_input("2024+1+1+1+1+1"), Ok(by_chrono(2024, 1, 1, 1, 1, 1)));
}

#[test]
fn minus_sign_is_refused_outside_the_year() {
    assert_eq!(
        parse_datetime_input("2024-1+1+1+1+1"),
        Err(ConfigError::ParseError(DateField::Month))
    );
    assert_eq!(
        parse_datetime_input("202401-1000000"),
        Err(ConfigError::ParseError(DateField::Day))
    );
}

#[test]
fn sign_without_digits_is_no_number() {
    assert_eq!(
        parse_datetime_input("202401010000+ "),
        Err(ConfigError::ParseError(DateField::Second))
    );
    assert_eq!(
        parse_datetime_input("+-120101000000"),
        Err(ConfigError::ParseError(DateField::Year))
    );
}

#[test]
fn entry_of_another_length_is_refused_with_its_length() {
    assert_eq!(parse_datetime_input(""), Err(ConfigError::InvalidInputLength(0)));
    assert_eq!(parse_datetime_input("2024010112000"), Err(ConfigError::InvalidInputLength(13)));
    assert_eq!(parse_datetime_input("202401011200000"), Err(ConfigError::InvalidInputLength(15)));
    assert_eq!(parse_datetime_input("2024-01-01 12:00:00"), Err(ConfigError::InvalidInputLength(19)));
}

#[test]
fn length_is_counted_in_bytes() {
    assert_eq!(parse_datetime_input("２０２４０１０１１２００００"), Err(ConfigError::InvalidInputLength(42)));
    assert_eq!(
        parse_datetime_input("é0240101120000"),
        Err(ConfigError::InvalidInputLength(15))
    );
}

#[test]
fn bytes_that_are_no_digits_are_refused_in_their_field() {
    assert_eq!(
        parse_datetime_input("éé0101120000"),
        Err(ConfigError::ParseError(DateField::Year))
    );
    assert_eq!(
        parse_datetime_input("2024é01120000"),
        Err(ConfigError::ParseError(DateField::Month))
    );
}

#[test]
fn character_across_two_fields_is_refused_in_the_first() {
    assert_eq!("202é101120000".len(), 14);
    assert_eq!(
        parse_datetime_input("202é101120000"),
        Err(ConfigError::ParseError(DateField::Year))
    );
}

#[test]
fn first_field_that_is_no_number_is_reported() {
    let cases = [
        ("2O240101120000", DateField::Year),
        ("2024 1011200 0", DateField::Month),
        ("202401x1120000", DateField::Day),
        ("20240101 20000", DateField::Hour),
        ("2024010112.000", DateField::Minute),
        ("2024010112000_", DateField::Second),
        ("abcdefghijklmn", DateField::Year),
    ];
    for (entry, field) in cases {
        assert_eq!(parse_datetime_input(entry), Err(ConfigError::ParseError(field)), "{}", entry);
    }
}

#[test]
fn numbers_that_name_no_day_are_refused() {
    let no_such_day = Err(ConfigError::ParseError(DateField::Date));
    assert_eq!(parse_datetime_input("20240001120000"), no_such_day);
    assert_eq!(parse_datetime_input("20241301120000"), no_such_day);
    assert_eq!(parse_datetime_input("20240100120000"), no_such_day);
    assert_eq!(parse_datetime_input("20240132120000"), no_such_day);
    assert_eq!(parse_datetime_input("20230431120000"), no_such_day);
    assert_eq!(parse_datetime_input("20249999120000"), no_such_day);
}

#[test]
fn numbers_that_name_no_time_are_refused() {
    let no_such_time = Err(ConfigError::ParseError(DateField::Time));
    assert_eq!(parse_datetime_input("20240101240000"), no_such_time);
    assert_eq!(parse_datetime_input("20240101236000"), no_such_time);
    assert_eq!(parse_datetime_input("20240101235960"), no_such_time);
    assert_eq!(parse_datetime_input("20240101999999"), no_such_time);
}

#[test]
fn day_is_checked_before_time() {
    assert_eq!(
        parse_datetime_input("20240230250000"),
        Err(ConfigError::ParseError(DateField::Date))
    );
}

#[test]
fn line_is_trimmed_before_it_is_read() {
    assert_eq!(DateTimeInput::parse_line("20240229123456\n"), Ok(1_709_210_096_000_000));
    assert_eq!(DateTimeInput::parse_line("  \t20240229123456 \r\n"), Ok(1_709_210_096_000_000));
    assert_eq!(DateTimeInput::parse_line("20240229123456"), Ok(1_709_210_096_000_000));
    assert_eq!(parse_datetime_input("20240229123456\n"), Err(ConfigError::InvalidInputLength(15)));
}

#[test]
fn line_is_not_trimmed_inside() {
    assert_eq!(
        DateTimeInput::parse_line(" 2024 229123456 "),
        Err(ConfigError::ParseError(DateField::Month))
    );
    assert_eq!(DateTimeInput::parse_line("   \n"), Err(ConfigError::InvalidInputLength(0)));
}

#[test]
fn input_needs_its_end_after_its_start() {
    assert_eq!(DateTimeInput::new(10, 10), Err(ConfigError::InvalidDateOrder(10, 10)));
    assert_eq!(DateTimeInput::new(10, 9), Err(ConfigError::InvalidDateOrder(10, 9)));
    let input = DateTimeInput::new(10, 11).expect("the end is after the start");
    assert_eq!(input.start_datetime(), 10);
    assert_eq!(input.end_datetime(), 11);
    assert_eq!(input.range().start(), 10);
    assert_eq!(input.range().end(), 11);
}

#[test]
fn prompt_asks_for_start_then_end() {
    let (prompt, complaint) = DateTimePrompt::Start.answer("20240101000000\n");
    assert_eq!(prompt, DateTimePrompt::End { start: 1_704_067_200_000_000 });
    assert_eq!(complaint, None);
    let (prompt, complaint) = prompt.answer("20240101000001\n");
    assert_eq!(complaint, None);
    match prompt {
        DateTimePrompt::Done(input) => {
            assert_eq!(input.start_datetime(), 1_704_067_200_000_000);
            assert_eq!(input.end_datetime(), 1_704_067_201_000_000);
        },
        other => panic!("the entry is not complete: {:?}", other),
    }
}

#[test]
fn prompt_asks_again_for_a_start_that_is_refused() {
    let (prompt, complaint) = DateTimePrompt::Start.answer("yesterday\n");
    assert_eq!(prompt, DateTimePrompt::Start);
    assert_eq!(complaint, Some(ConfigError::InvalidInputLength(9)));
    let (prompt, complaint) = prompt.answer("20241301000000\n");
    assert_eq!(prompt, DateTimePrompt::Start);
    assert_eq!(complaint, Some(ConfigError::ParseError(DateField::Date)));
}

#[test]
fn prompt_asks_again_for_an_end_that_is_refused() {
    let asked = DateTimePrompt::End { start: 1_704_067_200_000_000 };
    let (prompt, complaint) = asked.answer("2024010100000x\n");
    assert_eq!(prompt, DateTimePrompt::End { start: 1_704_067_200_000_000 });
    assert_eq!(complaint, Some(ConfigError::ParseError(DateField::Second)));
}

#[test]
fn prompt_asks_again_for_an_end_that_is_not_after_the_start() {
    let asked = DateTimePrompt::End { start: 1_704_067_200_000_000 };
    let (prompt, complaint) = asked.answer("20240101000000\n");
    assert_eq!(prompt, DateTimePrompt::End { start: 1_704_067_200_000_000 });
    assert_eq!(
        complaint,
        Some(ConfigError::InvalidDateOrder(1_704_067_200_000_000, 1_704_067_200_000_000))
    );
    let (prompt, complaint) = prompt.answer("20231231235959\n");
    assert_eq!(prompt, DateTimePrompt::End { start: 1_704_067_200_000_000 });
    assert_eq!(
        complaint,
        Some(ConfigError::InvalidDateOrder(1_704_067_200_000_000, 1_704_067_199_000_000))
    );
}

#[test]
fn prompt_that_is_done_stays_done() {
    let input = DateTimeInput::new(1, 2).expect("the end is after the start");
    let (prompt, complaint) = DateTimePrompt::Done(input).answer("20240101000000\n");
    assert_eq!(prompt, DateTimePrompt::Done(input));
    assert_eq!(complaint, None);
}
