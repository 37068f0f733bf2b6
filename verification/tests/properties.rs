use std::str::FromStr;

use httpdate::calendar::{is_leap_year, DAYS_END, SECS_END, SECS_PER_DAY};
use httpdate::format::{ascii_string, imf_fixdate_bytes};
use httpdate::parse::{
    bytes_eq, full_year, is_ascii, month_number, month_str, parse_asctime, parse_date,
    parse_imf_fixdate, parse_rfc850_date, toint_1, toint_2, toint_4, trim, weekday_number,
    weekday_str,
};
use httpdate::{fmt_http_date, parse_http_date, DateTime, HttpDate};

/// Instants spread over the whole range, with the ends of months, years and
/// centuries among them.
fn samples() -> Vec<u64> {
    let mut v: Vec<u64> = vec![
        0,
        1,
        59,
        60,
        3599,
        3600,
        86399,
        86400,
        5097600 - 1,
        5097600,
        68169600 - 1,
        68169600,
        68256000,
        784111777,
        951782400 - 1,
        951782400,
        951868800,
        1456704000 - 1,
        1456704000,
        1456790400,
        1475419451,
        4107542400 - 1,
        4107542400,
        4107628800,
        13574563200,
        253402300799 - 86400,
        253402300799,
    ];
    let mut t: u64 = 7;
    while t < SECS_END {
        v.push(t);
        t += 86400 * 365 * 3 + 86400 * 17 + 3607;
    }
    v
}

#[test]
fn round_trip_of_instants() {
    for t in samples() {
        let text = fmt_http_date(t);
        assert_eq!(parse_http_date(&text).expect("the formatter's text"), t, "{}", text);
    }
}

#[test]
fn round_trip_of_texts() {
    let texts = [
        "Thu, 01 Jan 1970 00:00:00 GMT",
        "Tue, 29 Feb 2000 23:59:59 GMT",
        "Mon, 29 Feb 2016 12:00:00 GMT",
        "Fri, 31 Dec 9999 23:59:59 GMT",
    ];
    for text in texts {
        let t = parse_http_date(text).expect(text);
        assert_eq!(fmt_http_date(t), text);
    }
}

#[test]
fn format_is_29_ascii_bytes() {
    for t in samples() {
        let text = fmt_http_date(t);
        let b = text.as_bytes();
        assert_eq!(b.len(), 29);
        assert!(text.is_ascii());
        assert_eq!(&b[3..5], b", ");
        assert_eq!(b[7], b' ');
        assert_eq!(b[11], b' ');
        assert_eq!(b[16], b' ');
        assert_eq!(b[19], b':');
        assert_eq!(b[22], b':');
        assert_eq!(&b[25..], b" GMT");
        for i in [5, 6, 12, 13, 14, 15, 17, 18, 20, 21, 23, 24] {
            assert!(b[i].is_ascii_digit());
        }
        for i in [0, 1, 2, 8, 9, 10] {
            assert!(b[i].is_ascii_alphabetic());
        }
    }
}

#[test]
fn boundary_dates_format_exactly() {
    assert_eq!(fmt_http_date(0), "Thu, 01 Jan 1970 00:00:00 GMT");
    assert_eq!(fmt_http_date(86400), "Fri, 02 Jan 1970 00:00:00 GMT");
    assert_eq!(fmt_http_date(951782399), "Mon, 28 Feb 2000 23:59:59 GMT");
    assert_eq!(fmt_http_date(951782400), "Tue, 29 Feb 2000 00:00:00 GMT");
    assert_eq!(fmt_http_date(951868800), "Wed, 01 Mar 2000 00:00:00 GMT");
    assert_eq!(fmt_http_date(4107542400), "Mon, 01 Mar 2100 00:00:00 GMT");
    assert_eq!(fmt_http_date(4107542399), "Sun, 28 Feb 2100 23:59:59 GMT");
    assert_eq!(fmt_http_date(1431704061), "Fri, 15 May 2015 15:34:21 GMT");
    assert_eq!(fmt_http_date(SECS_END - 1), "Fri, 31 Dec 9999 23:59:59 GMT");
    assert_eq!(HttpDate::from_secs(SECS_END - 1).to_string(), "Fri, 31 Dec 9999 23:59:59 GMT");
}

#[test]
fn one_more_day_is_86400_seconds() {
    for t in samples() {
        if t + 86400 >= SECS_END {
            continue;
        }
        let a = HttpDate::from_secs(t).datetime();
        let b = HttpDate::from_secs(t + 86400).datetime();
        assert_eq!(b.wday, a.wday % 7 + 1);
        assert_eq!((b.hour, b.min, b.sec), (a.hour, a.min, a.sec));
        let next = if a.day < 28 || b.day != 1 {
            (a.year, a.mon, a.day + 1)
        } else if a.mon < 12 {
            (a.year, a.mon + 1, 1)
        } else {
            (a.year + 1, 1, 1)
        };
        assert_eq!((b.year, b.mon, b.day), next);
    }
    let a = HttpDate::from_secs(0).datetime();
    let b = HttpDate::from_secs(86400).datetime();
    assert_eq!((a.year, a.mon, a.day, a.wday), (1970, 1, 1, 4));
    assert_eq!((b.year, b.mon, b.day, b.wday), (1970, 1, 2, 5));
}

#[test]
fn order_is_chronological() {
    let v = {
        let mut v = samples();
        v.sort();
        v.dedup();
        v
    };
    for w in v.windows(2) {
        let (a, b) = (HttpDate::from_secs(w[0]), HttpDate::from_secs(w[1]));
        assert!(a < b);
        assert!(a <= b);
        assert!(b > a);
        assert!(a != b);
        assert_eq!(a.partial_cmp(&b), Some(std::cmp::Ordering::Less));
        assert_eq!(b.partial_cmp(&a), Some(std::cmp::Ordering::Greater));
        assert_eq!(a.partial_cmp(&a), Some(std::cmp::Ordering::Equal));
        assert_eq!(a.cmp(&b), std::cmp::Ordering::Less);
        assert_eq!(a.cmp(&a), std::cmp::Ordering::Equal);
        assert!(a.datetime() < b.datetime());
    }
    // across the leap day of 2016
    let feb28 = HttpDate::from_secs(1456704000 - 1);
    let feb29 = HttpDate::from_secs(1456704000);
    let mar01 = HttpDate::from_secs(1456790400);
    assert!(feb28 < feb29 && feb29 < mar01);
    assert_eq!((feb29.datetime().mon, feb29.datetime().day), (2, 29));
    // equal instants compare equal whichever format they came in
    let x = HttpDate::from_str("Sun, 06 Nov 1994 08:49:37 GMT").unwrap();
    let y = HttpDate::from_str("Sunday, 06-Nov-94 08:49:37 GMT").unwrap();
    let z = HttpDate::from_str("Sun Nov  6 08:49:37 1994").unwrap();
    assert_eq!(x, y);
    assert_eq!(y, z);
    assert_eq!(x.partial_cmp(&z), Some(std::cmp::Ordering::Equal));
}

#[test]
fn two_digit_years() {
    assert_eq!(full_year(94), 1994);
    assert_eq!(full_year(5), 2005);
    assert_eq!(full_year(0), 2000);
    assert_eq!(full_year(69), 2069);
    assert_eq!(full_year(70), 1970);
    assert_eq!(full_year(99), 1999);
    let t = parse_rfc850_date(b"Sunday, 06-Nov-94 08:49:37 GMT").unwrap();
    assert_eq!(t.year, 1994);
    let t = parse_rfc850_date(b"Sunday, 06-Nov-05 08:49:37 GMT").unwrap();
    assert_eq!(t.year, 2005);
    assert_eq!(parse_http_date("Sunday, 06-Nov-05 08:49:37 GMT").unwrap(), 1131266977);
    assert_eq!(parse_http_date("Thursday, 01-Jan-70 00:00:00 GMT").unwrap(), 0);
    assert_eq!(parse_rfc850_date(b"Tuesday, 01-Jan-69 00:00:00 GMT").unwrap().year, 2069);
    assert_eq!(parse_http_date("Tuesday, 01-Jan-69 00:00:00 GMT").unwrap(), 3124224000);
}

#[test]
fn every_weekday_and_month_by_name() {
    let days = ["Monday", "Tuesday", "Wednesday", "Thursday", "Friday", "Saturday", "Sunday"];
    let months =
        ["Jan", "Feb", "Mar", "Apr", "May", "Jun", "Jul", "Aug", "Sep", "Oct", "Nov", "Dec"];
    for (i, name) in days.iter().enumerate() {
        let wday = i as u8 + 1;
        assert_eq!(weekday_str(wday), *name);
        assert_eq!(weekday_number(&name.as_bytes()[..3]), Some(wday));
        // 1970-01-05 was a Monday
        let t = 4 * 86400 + i as u64 * 86400;
        let text = format!("{}, {:02}-Jan-70 00:00:00 GMT", name, 5 + i);
        assert_eq!(parse_http_date(&text).unwrap(), t, "{}", text);
        assert!(fmt_http_date(t).starts_with(&name[..3]));
    }
    for (i, name) in months.iter().enumerate() {
        let mon = i as u8 + 1;
        assert_eq!(month_str(mon), *name);
        assert_eq!(month_number(name.as_bytes()), Some(mon));
        let t = parse_date(format!("Mon {} 10 08:00:00 2000", name).as_bytes()).unwrap();
        assert_eq!(t.mon, mon);
    }
    assert_eq!(month_number(b"Mai"), None);
    assert_eq!(month_number(b"jan"), None);
    assert_eq!(month_number(b"Ja"), None);
    assert_eq!(weekday_number(b"mon"), None);
    assert_eq!(weekday_number(b"Mond"), None);
}

#[test]
fn the_three_parsers_fill_the_fields() {
    let want = DateTime { year: 1994, mon: 11, day: 6, hour: 8, min: 49, sec: 37, wday: 7 };
    assert_eq!(parse_imf_fixdate(b"Sun, 06 Nov 1994 08:49:37 GMT").unwrap(), want);
    assert_eq!(parse_rfc850_date(b"Sunday, 06-Nov-94 08:49:37 GMT").unwrap(), want);
    assert_eq!(parse_asctime(b"Sun Nov  6 08:49:37 1994").unwrap(), want);
    assert_eq!(parse_asctime(b"Sun Nov 06 08:49:37 1994").unwrap(), want);
    assert_eq!(parse_date(b"Sun, 06 Nov 1994 08:49:37 GMT").unwrap(), want);
    assert_eq!(parse_date(b"Sunday, 06-Nov-94 08:49:37 GMT").unwrap(), want);
    assert_eq!(parse_date(b"Sun Nov  6 08:49:37 1994").unwrap(), want);
    assert_eq!(DateTime::from_str(" Sun Nov  6 08:49:37 1994\r\n").unwrap(), want);
    assert!(want.is_valid());
    assert_eq!(want.to_secs(), 784111777);
    assert_eq!(want.to_string(), "Sun, 06 Nov 1994 08:49:37 GMT");
    assert_eq!(HttpDate::new(want).unwrap().datetime(), want);
    // each parser takes its own format only
    assert!(parse_imf_fixdate(b"Sunday, 06-Nov-94 08:49:37 GMT").is_err());
    assert!(parse_imf_fixdate(b"Sun Nov  6 08:49:37 1994").is_err());
    assert!(parse_rfc850_date(b"Sun, 06 Nov 1994 08:49:37 GMT").is_err());
    assert!(parse_rfc850_date(b"Sun Nov  6 08:49:37 1994").is_err());
    assert!(parse_asctime(b"Sun, 06 Nov 1994 08:49:37 GMT").is_err());
    assert!(parse_asctime(b"Sunday, 06-Nov-94 08:49:37 GMT").is_err());
}

#[test]
fn parsers_do_not_ask_for_validity() {
    // a record is filled from any text of the right shape
    let t = parse_imf_fixdate(b"Sun, 99 Feb 0000 99:99:99 GMT").unwrap();
    assert_eq!(t, DateTime { year: 0, mon: 2, day: 99, hour: 99, min: 99, sec: 99, wday: 7 });
    assert!(!t.is_valid());
    assert!(HttpDate::new(t).is_err());
    assert_eq!(t.to_string(), "Sun, 99 Feb 0000 99:99:99 GMT");
    assert!(DateTime::from_str("Sun, 07 Nov 1994 08:48:37 GMT").is_ok());
    assert!(HttpDate::from_str("Sun, 07 Nov 1994 08:48:37 GMT").is_err());
}

#[test]
fn malformed_input_is_refused() {
    let bad = [
        "",
        " ",
        "Sun, 06 Nov 1994 08:49:37",
        "Sun, 06 Nov 1994 08:49:37 UTC",
        "Sun, 06 Nov 1994 08:49:37 gmt",
        "Sun, 06 Nov 1994 08:49:37 GMT+",
        "Sun,  6 Nov 1994 08:49:37 GMT",
        "Sun, 6 Nov 1994 08:49:37 GMT",
        "Sun; 06 Nov 1994 08:49:37 GMT",
        "Sun,\t06 Nov 1994 08:49:37 GMT",
        "Sun, 06-Nov-1994 08:49:37 GMT",
        "Sun, 06 Nov 1994 08.49.37 GMT",
        "Sun, 06 Nov 1994 08:49:3x GMT",
        "Sun, 06 Nov 19x4 08:49:37 GMT",
        "Sun, 06 Nov 1994 +8:49:37 GMT",
        "Sun, 06 nov 1994 08:49:37 GMT",
        "Sun, 06 NOV 1994 08:49:37 GMT",
        "sun, 06 Nov 1994 08:49:37 GMT",
        "Son, 06 Nov 1994 08:49:37 GMT",
        "Sun, 06 Mai 1994 08:49:37 GMT",
        "Sunday, 06 Nov 1994 08:49:37 GMT",
        "Sun, 06-Nov-94 08:49:37 GMT",
        "Sunday, 06-Nov-1994 08:49:37 GMT",
        "Sunday,06-Nov-94 08:49:37 GMT",
        "Sunday, 06-Nov-94 08+49:37 GMT",
        "Sunday, 6-Nov-94 08:49:37 GMT",
        "Sunda, 06-Nov-94 08:49:37 GMT",
        "Sun Nov 6 08:49:37 1994",
        "Sun Nov  6 08:49:37 94",
        "Sun Nov 6  08:49:37 1994",
        "Sun Nov  6 08:49:37 1994 GMT",
        "Sun Nov 10 08*00:00 2000",
        "Sun  Nov 6 08:49:37 1994",
    ];
    for text in bad {
        assert!(parse_http_date(text).is_err(), "{:?}", text);
        assert!(HttpDate::try_from(text.as_bytes()).is_err(), "{:?}", text);
        assert!(parse_date(text.as_bytes()).is_err(), "{:?}", text);
    }
}

#[test]
fn out_of_range_fields_are_refused() {
    let bad = [
        // seconds, minutes, hours
        "Sun, 06 Nov 1994 08:49:60 GMT",
        "Sun, 06 Nov 1994 08:60:37 GMT",
        "Sun, 06 Nov 1994 24:49:37 GMT",
        "Sun Nov  6 08:49:60 1994",
        "Sunday, 06-Nov-94 08:49:60 GMT",
        // days
        "Sun, 00 Nov 1994 08:49:37 GMT",
        "Thu, 31 Nov 1994 08:49:37 GMT",
        "Wed, 30 Feb 2000 00:00:00 GMT",
        "Tue, 29 Feb 2001 00:00:00 GMT",
        "Mon, 29 Feb 2100 00:00:00 GMT",
        "Sun Nov  0 08:49:37 1994",
        // years
        "Sun Nov 10 08:00:00 1000",
        "Wed, 31 Dec 1969 23:59:59 GMT",
        // the weekday of another day
        "Sun, 07 Nov 1994 08:48:37 GMT",
        "Mon, 06 Nov 1994 08:49:37 GMT",
        "Monday, 06-Nov-94 08:49:37 GMT",
        "Mon Nov  6 08:49:37 1994",
    ];
    for text in bad {
        assert!(parse_http_date(text).is_err(), "{:?}", text);
        assert!(parse_date(text.as_bytes()).is_ok(), "{:?}", text);
    }
    assert!(parse_http_date("Tue, 29 Feb 2000 00:00:00 GMT").is_ok());
    assert!(parse_http_date("Wed, 29 Feb 2096 00:00:00 GMT").is_ok());
    assert!(parse_http_date("Fri, 31 Dec 9999 23:59:59 GMT").is_ok());
}

#[test]
fn non_ascii_input_is_refused() {
    assert!(parse_http_date("Sun, 06 Nov 1994 08:49:37 GMT\u{a0}").is_err());
    assert!(parse_http_date("\u{2003}Sun, 06 Nov 1994 08:49:37 GMT").is_err());
    assert!(parse_http_date("Sun, 06 Nov 1994 08:49:3\u{667} GMT").is_err());
    assert!(parse_http_date("S\u{fc}n, 06 Nov 1994 08:49:37 GMT").is_err());
    assert!(HttpDate::try_from(&b"Sun, 06 Nov 1994 08:49:37 GMT\xff"[..]).is_err());
    assert!(HttpDate::try_from(&b"\x80Sun, 06 Nov 1994 08:49:37 GMT"[..]).is_err());
    assert!(is_ascii(b"Sun, 06 Nov 1994 08:49:37 GMT\x7f"));
    assert!(!is_ascii(b"Sun, 06 Nov 1994 08:49:37 GMT\x80"));
    assert!(is_ascii(b""));
}

#[test]
fn white_space_around_a_date_is_dropped() {
    let t: u64 = 784111777;
    assert_eq!(parse_http_date(" Sun, 06 Nov 1994 08:49:37 GMT").unwrap(), t);
    assert_eq!(parse_http_date("Sun, 06 Nov 1994 08:49:37 GMT\r\n").unwrap(), t);
    assert_eq!(parse_http_date("\t\n\x0b\x0c\r Sun Nov  6 08:49:37 1994 \t").unwrap(), t);
    assert_eq!(trim(b"  a b \t"), b"a b");
    assert_eq!(trim(b"\x0b\x0cab\n\r"), b"ab");
    assert_eq!(trim(b" \t\r\n"), b"");
    assert_eq!(trim(b""), b"");
    assert_eq!(trim(b"ab"), b"ab");
    assert_eq!(trim(b"\x1fab\x00"), b"\x1fab\x00");
}

#[test]
fn digits() {
    assert_eq!(toint_1(b'0').unwrap(), 0);
    assert_eq!(toint_1(b'9').unwrap(), 9);
    assert!(toint_1(b'/').is_err());
    assert!(toint_1(b':').is_err());
    assert!(toint_1(b' ').is_err());
    assert_eq!(toint_2(b"00").unwrap(), 0);
    assert_eq!(toint_2(b"07").unwrap(), 7);
    assert_eq!(toint_2(b"99").unwrap(), 99);
    assert_eq!(toint_2(b"425").unwrap(), 42);
    assert!(toint_2(b" 7").is_err());
    assert!(toint_2(b"7 ").is_err());
    assert!(toint_2(b"+7").is_err());
    assert_eq!(toint_4(b"0000").unwrap(), 0);
    assert_eq!(toint_4(b"1994").unwrap(), 1994);
    assert_eq!(toint_4(b"9999").unwrap(), 9999);
    assert!(toint_4(b"199x").is_err());
    assert!(toint_4(b"-199").is_err());
    assert!(bytes_eq(b"GMT", b"GMT"));
    assert!(!bytes_eq(b"GMT", b"GMt"));
    assert!(!bytes_eq(b"GMT", b"GM"));
    assert!(bytes_eq(b"", b""));
}

#[test]
fn leap_years() {
    assert!(!is_leap_year(1970));
    assert!(is_leap_year(1972));
    assert!(!is_leap_year(1900));
    assert!(is_leap_year(2000));
    assert!(!is_leap_year(2100));
    assert!(is_leap_year(2400));
    assert!(!is_leap_year(2023));
    assert!(is_leap_year(2024));
    assert_eq!(SECS_END, 253402300800);
    assert_eq!(DAYS_END * SECS_PER_DAY, SECS_END);
}

#[test]
fn the_two_conversions_agree() {
    for t in samples() {
        let fast = HttpDate::from_secs(t);
        let walked = DateTime::from_secs(t);
        assert_eq!(fast.datetime(), walked, "{}", t);
        assert!(walked.is_valid());
        assert_eq!(fast.to_secs(), t);
        assert_eq!(walked.to_secs(), t);
    }
    // every day of the first and of the last years, and every eleventh between
    let mut day: u64 = 0;
    while day < DAYS_END {
        let t = day * 86400 + 86399;
        let walked = DateTime::from_secs(t);
        assert_eq!(HttpDate::from_secs(t).datetime(), walked, "{}", t);
        assert_eq!(HttpDate::new(walked).unwrap().to_secs(), t);
        assert_eq!(walked.to_secs(), t);
        day += if day < 3000 || day + 3000 > DAYS_END { 1 } else { 11 };
    }
}

#[test]
fn validity() {
    let good = DateTime { year: 2000, mon: 2, day: 29, hour: 23, min: 59, sec: 59, wday: 2 };
    assert!(good.is_valid());
    assert!(!DateTime { sec: 60, ..good }.is_valid());
    assert!(!DateTime { min: 60, ..good }.is_valid());
    assert!(!DateTime { hour: 24, ..good }.is_valid());
    assert!(!DateTime { day: 0, ..good }.is_valid());
    assert!(!DateTime { day: 30, wday: 3, ..good }.is_valid());
    assert!(!DateTime { mon: 0, ..good }.is_valid());
    assert!(!DateTime { mon: 13, ..good }.is_valid());
    assert!(!DateTime { year: 1969, ..good }.is_valid());
    assert!(!DateTime { year: 10000, ..good }.is_valid());
    assert!(!DateTime { wday: 0, ..good }.is_valid());
    assert!(!DateTime { wday: 3, ..good }.is_valid());
    assert!(!DateTime { wday: 8, ..good }.is_valid());
    for year in [2001u16, 2100, 1999] {
        for wday in 1..=7u8 {
            assert!(!DateTime { year, wday, ..good }.is_valid());
        }
    }
    let lengths = [31u8, 28, 31, 30, 31, 30, 31, 31, 30, 31, 30, 31];
    for (i, len) in lengths.iter().enumerate() {
        let mon = i as u8 + 1;
        let last = (1..=7u8)
            .map(|wday| DateTime { year: 2023, mon, day: *len, wday, ..good })
            .filter(|t| t.is_valid())
            .count();
        let past = (1..=7u8)
            .map(|wday| DateTime { year: 2023, mon, day: *len + 1, wday, ..good })
            .filter(|t| t.is_valid())
            .count();
        assert_eq!((last, past), (1, 0), "month {}", mon);
    }
}

#[test]
fn bytes_and_string_of_the_formatter() {
    let t = DateTime { year: 2016, mon: 10, day: 2, hour: 14, min: 44, sec: 11, wday: 7 };
    let bytes = imf_fixdate_bytes(&t);
    assert_eq!(bytes, b"Sun, 02 Oct 2016 14:44:11 GMT");
    assert_eq!(ascii_string(bytes), "Sun, 02 Oct 2016 14:44:11 GMT");
    assert_eq!(ascii_string(vec![]), "");
    assert_eq!(ascii_string(vec![0x7f, 0x00, b'a']), "\x7f\x00a");
}
