use std::str::FromStr;

use httpdate::{fmt_http_date, parse_http_date, Error, HttpDate};

/// Test that parsing via parse_http_date, from_str and try_from gives the
/// same result and then returns the result.
fn parse(value: &str) -> Result<u64, Error> {
    let res1 = parse_http_date(value);
    let res2 = HttpDate::from_str(value);
    let res3 = HttpDate::try_from(value.as_bytes());
    assert!(
        res1.is_ok() == res2.is_ok() && res2.is_ok() == res3.is_ok(),
        "{:?} vs {:?} vs {:?}; value: {}",
        res1,
        res2,
        res3,
        value
    );
    if res1.is_err() {
        return res1;
    }
    let (res1, res2, res3) = (res1.unwrap(), res2.unwrap(), res3.unwrap());
    assert_eq!(res2, res3, "value: {}", value);
    assert_eq!(res1, res2.to_secs(), "value: {}", value);
    Ok(res1)
}

#[test]
fn test_rfc_example() {
    let d: u64 = 784111777;
    assert_eq!(d, parse("Sun, 06 Nov 1994 08:49:37 GMT").expect("#1"));
    assert_eq!(d, parse("Sunday, 06-Nov-94 08:49:37 GMT").expect("#2"));
    assert_eq!(d, parse("Sun Nov  6 08:49:37 1994").expect("#3"));
}

#[test]
fn test2() {
    let d: u64 = 1475419451;
    assert_eq!(d, parse("Sun, 02 Oct 2016 14:44:11 GMT").expect("#1"));
    assert!(parse("Sun Nov 10 08:00:00 1000").is_err());
    assert!(parse("Sun Nov 10 08*00:00 2000").is_err());
    assert!(parse("Sunday, 06-Nov-94 08+49:37 GMT").is_err());
}

#[test]
fn test3() {
    let mut d: u64 = 0;
    assert_eq!(d, parse("Thu, 01 Jan 1970 00:00:00 GMT").unwrap());
    d += 3600;
    assert_eq!(d, parse("Thu, 01 Jan 1970 01:00:00 GMT").unwrap());
    d += 86400;
    assert_eq!(d, parse("Fri, 02 Jan 1970 01:00:00 GMT").unwrap());
    d += 2592000;
    assert_eq!(d, parse("Sun, 01 Feb 1970 01:00:00 GMT").unwrap());
    d += 2592000;
    assert_eq!(d, parse("Tue, 03 Mar 1970 01:00:00 GMT").unwrap());
    d += 31536005;
    assert_eq!(d, parse("Wed, 03 Mar 1971 01:00:05 GMT").unwrap());
    d += 15552000;
    assert_eq!(d, parse("Mon, 30 Aug 1971 01:00:05 GMT").unwrap());
    d += 6048000;
    assert_eq!(d, parse("Mon, 08 Nov 1971 01:00:05 GMT").unwrap());
    d += 864000000;
    assert_eq!(d, parse("Fri, 26 Mar 1999 01:00:05 GMT").unwrap());
}

#[test]
fn test_fmt() {
    let d: u64 = 0;
    assert_eq!(fmt_http_date(d), "Thu, 01 Jan 1970 00:00:00 GMT");
    let d: u64 = 1475419451;
    assert_eq!(fmt_http_date(d), "Sun, 02 Oct 2016 14:44:11 GMT");
}

#[test]
fn size_of() {
    assert_eq!(::std::mem::size_of::<HttpDate>(), 8);
}

#[test]
fn test_date_comparison() {
    let a: u64 = 784111777;
    let b: u64 = a + 30;
    assert!(a < b);
    let a_date: HttpDate = HttpDate::from_secs(a);
    let b_date: HttpDate = HttpDate::from_secs(b);
    assert!(a_date < b_date);
    assert_eq!(a_date.cmp(&b_date), ::std::cmp::Ordering::Less)
}

#[test]
fn test_parse_bad_date() {
    // 1994-11-07 is actually a Monday
    let parsed = "Sun, 07 Nov 1994 08:48:37 GMT".parse::<HttpDate>();
    assert!(parsed.is_err())
}
