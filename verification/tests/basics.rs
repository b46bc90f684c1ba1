//! Amounts, times and texts.

use rust_decimal::Decimal;
use updown_bot::calendar::{calendar_date, civil_of_ms, fmt_ts, utc_date};
use updown_bot::decimal::{Amount, Figure};
use updown_bot::feed_source::FeedSource;
use updown_bot::screen::{fmt_top, ms_between, or_dash, seconds_in, tail};
use updown_bot::sorting::sort_copy;
use updown_bot::startup::parse_date;
use updown_bot::text::{
    comes_before, pad_left, pad_right, parse_unsigned, split, strip_prefix, trim_end_slashes,
    u64_text,
};
use updown_bot::types::{Level, Series, TopOfBook};

fn dec(text: &str) -> Decimal {
    text.parse::<Decimal>().unwrap()
}

fn amount(text: &str) -> Amount {
    Amount::parse(text).unwrap()
}

#[test]
fn amounts_compute_as_decimals_do() {
    let texts = ["0", "0.1", "-0.07", "12.5", "0.3333333333", "-10000", "99999.999999"];
    for a in texts {
        for b in texts {
            let (x, y) = (amount(a), amount(b));
            let (p, q) = (dec(a), dec(b));
            assert_eq!(x.plus(&y).text(), (p + q).normalize().to_string());
            assert_eq!(x.minus(&y).text(), (p - q).normalize().to_string());
            assert_eq!(x.times(&y).text(), (p * q).normalize().to_string());
            assert_eq!(x.less(&y), p < q);
            assert_eq!(x.same(&y), p == q);
            assert_eq!(x.min(&y).text(), p.min(q).normalize().to_string());
            match x.divided_by(&y) {
                Some(r) => assert_eq!(r.text(), (p / q).normalize().to_string()),
                None => assert!(q.is_zero()),
            }
        }
        let negated = (-dec(a)).normalize().to_string();
        let expected = if dec(a).is_zero() { "0" } else { negated.as_str() };
        assert_eq!(amount(a).negated().text(), expected);
        assert_eq!(amount(a).magnitude().text(), dec(a).abs().normalize().to_string());
    }
}

#[test]
fn amounts_are_kept_normalized() {
    assert_eq!(amount("0.80"), amount("0.8"));
    assert_eq!(amount("0.80").text(), "0.8");
    assert_eq!((amount("12.50").mantissa(), amount("12.50").scale()), (125, 1));
    assert_eq!(Amount::from_i64(-7).text(), "-7");
    assert_eq!(Amount::from_u64(u64::MAX).text(), "18446744073709551615");
    assert_eq!(Amount::new(4_000, 4), amount("0.4"));
    assert_eq!(Amount::parse("4x"), None);
    assert_eq!(Amount::parse(""), None);
    assert!(amount("-0.1").is_negative() && !amount("0").is_negative());
    assert!(amount("0.1").is_positive() && !amount("0").is_positive());
    assert!(amount("0.00").is_zero());
}

#[test]
fn a_third_is_rounded_as_the_decimal_crate_rounds() {
    let third = amount("1").divided_by(&amount("3")).unwrap();
    assert_eq!(third.text(), (dec("1") / dec("3")).to_string());
}

#[test]
fn instants_are_civil_times() {
    let c = civil_of_ms(1_700_000_000_999).unwrap();
    assert_eq!(c.rfc3339(), "2023-11-14T22:13:20Z");
    assert_eq!(civil_of_ms(-1).unwrap().rfc3339(), "1969-12-31T23:59:59Z");
    assert_eq!(fmt_ts(0), "1970-01-01T00:00:00Z");
    assert_eq!(fmt_ts(i64::MAX), format!("{}ms", i64::MAX));
    assert_eq!(utc_date(-1).compact(), "19691231");
    assert_eq!(utc_date(0).dashed(), "1970-01-01");
    // A moment beyond the calendar falls on its first day.
    assert_eq!(utc_date(i64::MAX).dashed(), "1970-01-01");
}

#[test]
fn calendar_dates_are_checked() {
    assert!(calendar_date(2024, 2, 29).is_ok());
    assert_eq!(calendar_date(2023, 2, 29).is_ok(), false);
    assert_eq!(calendar_date(2023, 4, 31).is_ok(), false);
    assert_eq!(calendar_date(2023, 4, 0).is_ok(), false);
    assert_eq!(calendar_date(10_000, 1, 1).is_ok(), false);
    assert!(calendar_date(2000, 2, 29).is_ok());
    assert_eq!(calendar_date(1900, 2, 29).is_ok(), false);
}

#[test]
fn texts_are_taken_apart_and_put_together() {
    assert_eq!(u64_text(u64::MAX), u64::MAX.to_string());
    assert_eq!(u64_text(0), "0");
    assert_eq!(split("a--b", '-'), vec!["a".to_owned(), String::new(), "b".to_owned()]);
    assert_eq!(split("", '-'), vec![String::new()]);
    assert_eq!(strip_prefix("--raw=x", "--raw="), Some("x".to_owned()));
    assert_eq!(strip_prefix("--ra", "--raw="), None);
    assert_eq!(trim_end_slashes("a//"), "a");
    assert_eq!(trim_end_slashes("//"), "");
    assert_eq!(pad_left("ab", 4, '0'), "00ab");
    assert_eq!(pad_right("abcde", 4), "abcde");
    assert_eq!(parse_unsigned("+7", 10), Some(7));
    assert_eq!(parse_unsigned("11", 10), None);
    assert_eq!(parse_unsigned("-1", 10), None);
    assert_eq!(parse_unsigned("", 10), None);
    assert!(comes_before("a", "ab") && comes_before("Z", "a") && !comes_before("a", "a"));
    assert_eq!(tail("abcdef", 3), "def");
    assert_eq!(tail("ab", 3), "ab");
}

#[test]
fn spans_and_tops() {
    assert_eq!(ms_between(5, 3), -2);
    assert_eq!(ms_between(i64::MIN, i64::MAX), i64::MAX);
    assert_eq!((seconds_in(1_999), seconds_in(-1_999)), (1, -1));
    assert_eq!(or_dash(None), "-");
    let l = |p: &str| Some(Level { price: amount(p), size: amount("5") });
    let top = TopOfBook { bid: l("0.40"), ask: l("0.45") };
    let figure = |t: &str| Figure::parse(t).unwrap();
    assert_eq!(top.mid(), Some(figure("0.4250")));
    assert_eq!(top.mid().unwrap().amount(), amount("0.425"));
    assert_eq!(top.spread(), Some(figure("0.05")));
    // What is computed keeps the decimal places that it came with.
    let even = TopOfBook { bid: l("0.41"), ask: l("0.51") };
    assert_eq!(even.spread().unwrap().text(), "0.10");
    assert_eq!(fmt_top("Up", Some(even)), "Up: bid 0.41 ask 0.51 mid 0.46");
    let half = TopOfBook { bid: l("0.49"), ask: l("0.51") };
    assert_eq!(fmt_top("Up", Some(half)), "Up: bid 0.49 ask 0.51 mid 0.50");
    assert_eq!(half.mid().unwrap().amount(), amount("0.5"));
    assert_eq!(TopOfBook { bid: l("0.40"), ask: None }.mid(), None);
    assert!(fmt_top("Up", Some(top)).starts_with("Up"));
    assert_eq!(sort_copy(&vec![3, -1, 2]), vec![-1, 2, 3]);
}

#[test]
fn the_calendar_ends_with_the_year_9999() {
    let first = civil_of_ms(-377_705_116_800_000).unwrap();
    assert_eq!((first.year, first.month, first.day), (-9999, 1, 1));
    assert_eq!((first.hour, first.minute, first.second), (0, 0, 0));
    assert!(civil_of_ms(-377_705_116_800_001).is_none());
    let last = civil_of_ms(253_402_300_799_999).unwrap();
    assert_eq!((last.year, last.month, last.day), (9999, 12, 31));
    assert_eq!((last.hour, last.minute, last.second), (23, 59, 59));
    assert!(civil_of_ms(253_402_300_800_000).is_none());
}

#[test]
fn the_date_of_an_instant_is_that_of_its_day() {
    let day = 86_400_000;
    assert_eq!(utc_date(day * 59).dashed(), "1970-03-01");
    assert_eq!(utc_date(day * 789).dashed(), "1972-02-29");
    assert_eq!(utc_date(day * 790 - 1).dashed(), "1972-02-29");
    assert_eq!(utc_date(day * 790).dashed(), "1972-03-01");
    assert_eq!(utc_date(day * 11_016).dashed(), "2000-02-29");
    assert_eq!(utc_date(day * -25_508).dashed(), "1900-03-01");
}

#[test]
fn every_scale_is_written_and_read_back() {
    let top = 79_228_162_514_264_337_593_543_950_335_i128;
    for scale in 0..=28 {
        for mantissa in [0, 1, -1, 9, 10, -100, 4_294_967_296, top - 1, top, -top] {
            let d = rust_decimal::Decimal::from_i128_with_scale(mantissa, scale);
            let read: rust_decimal::Decimal = d.to_string().parse().unwrap();
            assert_eq!((read.mantissa(), read.scale()), (mantissa, scale));
            let amount = Amount::parse(&d.to_string()).unwrap();
            assert_eq!(amount.text(), d.normalize().to_string());
        }
    }
}

#[test]
fn sums_at_the_largest_scale_are_exact() {
    let a = amount("15");
    let b = amount("-7.5000000000000000000000000001");
    assert_eq!(a.plus(&b).text(), "7.4999999999999999999999999999");
    assert_eq!(b.plus(&a).text(), "7.4999999999999999999999999999");
    assert_eq!(a.minus(&amount("7.5000000000000000000000000001")).text(), a.plus(&b).text());
}

#[test]
fn names_and_dates_are_read_back() {
    for series in Series::all() {
        assert_eq!(Series::parse(series.key()), Some(series));
    }
    for source in [FeedSource::Rtds, FeedSource::Binance] {
        assert_eq!(FeedSource::parse(source.text()), Ok(source));
    }
    for days in [0, 58, 59, 11_016, 20_000, 2_932_896] {
        let date = utc_date(days * 86_400_000);
        assert_eq!(parse_date(&date.dashed()), Ok(date));
    }
    // A negative year begins with a dash and is not read.
    assert!(parse_date(&utc_date(-377_705_116_800_000).dashed()).is_err());
}
