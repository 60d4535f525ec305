use vllm_coldstart_operator::clock::{age_of, age_secs, Moment};
use vllm_coldstart_operator::names::{NameMap, NameSet};
use vllm_coldstart_operator::signal::Signal;
use vllm_coldstart_operator::text::{
    is_white_space, parse_i32, parse_i64, parse_usize, push_decimal, push_signed_decimal, same_text,
};

fn signal(v: f32) -> Signal {
    Signal { bits: v.to_bits() }
}

fn samples() -> Vec<f32> {
    let mut out = vec![
        0.0,
        -0.0,
        1.0,
        -1.0,
        0.5,
        2.0,
        1.0e-45,
        -1.0e-45,
        f32::MIN_POSITIVE,
        f32::MAX,
        f32::MIN,
        f32::INFINITY,
        f32::NEG_INFINITY,
        f32::NAN,
        -f32::NAN,
        f32::from_bits(0x3f7f_ffff),
        f32::from_bits(0x3f80_0001),
    ];
    let mut bits: u32 = 12345;
    for _ in 0..200 {
        bits = bits.wrapping_mul(1664525).wrapping_add(1013904223);
        out.push(f32::from_bits(bits));
    }
    out
}

#[test]
fn the_order_of_signals_is_the_total_order_of_floats() {
    for a in samples() {
        for b in samples() {
            let expected = a.total_cmp(&b);
            let found = signal(a).order_key().cmp(&signal(b).order_key());
            assert_eq!(found, expected, "{a:?} and {b:?}");
        }
    }
}

#[test]
fn ranges_of_signals_are_those_of_floats() {
    for v in samples() {
        assert_eq!(signal(v).is_finite(), v.is_finite());
        assert_eq!(signal(v).is_non_negative(), v.is_finite() && v >= 0.0);
        assert_eq!(
            signal(v).is_fraction(),
            v.is_finite() && (0.0..=1.0).contains(&v)
        );
    }
}

#[test]
fn white_space_is_that_of_the_standard() {
    for n in 0..=0x10ffffu32 {
        if let Some(c) = char::from_u32(n) {
            assert_eq!(is_white_space(c), c.is_whitespace());
        }
    }
}

#[test]
fn numerals_are_those_of_the_standard() {
    for n in [0u64, 9, 10, 99, 100, 12345678901234567890, u64::MAX] {
        let mut t = "n=".to_string();
        push_decimal(&mut t, n);
        assert_eq!(t, format!("n={n}"));
    }
    for n in [0i64, -1, 10, -10, i64::MAX, i64::MIN] {
        let mut t = String::new();
        push_signed_decimal(&mut t, n);
        assert_eq!(t, n.to_string());
    }
    let texts = [
        "",
        "+",
        "-",
        "0",
        "-0",
        "+0",
        "007",
        "42",
        "-42",
        "+42",
        "4 2",
        "--1",
        "+-1",
        "2147483647",
        "2147483648",
        "-2147483648",
        "-2147483649",
        "9223372036854775807",
        "9223372036854775808",
        "-9223372036854775808",
        "-9223372036854775809",
        "18446744073709551615",
        "18446744073709551616",
        "1e3",
        "\u{663}",
    ];
    for t in texts {
        assert_eq!(parse_usize(t), t.parse::<usize>().ok(), "{t}");
        assert_eq!(parse_i64(t), t.parse::<i64>().ok(), "{t}");
        assert_eq!(parse_i32(t), t.parse::<i32>().ok(), "{t}");
    }
}

#[test]
fn texts_are_compared_by_characters() {
    assert!(same_text("a\u{e9}", "a\u{e9}"));
    assert!(!same_text("a", "A"));
    assert!(!same_text("a", ""));
}

#[test]
fn moments_are_those_of_the_calendar() {
    assert!(Moment::new(0, 999_999_999).is_some());
    assert!(Moment::new(59, 1_500_000_000).is_some());
    assert!(Moment::new(-1, 1_500_000_000).is_some());
    assert!(Moment::new(58, 1_500_000_000).is_none());
    assert!(Moment::new(59, 2_000_000_000).is_none());
    assert!(Moment::new(8_210_266_876_799, 0).is_some());
    assert!(Moment::new(8_210_266_876_800, 0).is_none());
    assert!(Moment::new(-8_334_601_228_800, 0).is_some());
    assert!(Moment::new(-8_334_601_228_801, 0).is_none());
    for (secs, nanos) in [
        (8_210_266_876_799i64, 0u32),
        (8_210_266_876_800, 0),
        (-8_334_601_228_800, 0),
        (-8_334_601_228_801, 0),
        (59, 1_999_999_999),
        (58, 1_000_000_000),
        (-61, 1_000_000_000),
    ] {
        let there = k8s_openapi::chrono::DateTime::from_timestamp(secs, nanos).is_some();
        assert_eq!(Moment::new(secs, nanos).is_some(), there, "{secs} {nanos}");
    }
}

#[test]
fn ages_drop_the_fraction_and_count_leap_seconds_by_the_time_of_day() {
    let m = |secs: i64, nanos: u32| Moment::new(secs, nanos);
    let age = |then: Option<Moment>, now: Option<Moment>| age_of(&then, &now.unwrap());
    assert_eq!(age(None, m(0, 0)), None);
    assert_eq!(age(m(0, 0), m(60, 0)), Some(60));
    assert_eq!(age(m(0, 900_000_000), m(2, 0)), Some(1));
    assert_eq!(age(m(2, 0), m(0, 900_000_000)), Some(-1));
    assert_eq!(age(m(0, 500_000_000), m(0, 0)), Some(0));
    assert_eq!(age(m(59, 1_000_000_000), m(60, 0)), Some(1));
    assert_eq!(age(m(60, 0), m(59, 1_000_000_000)), Some(-1));
    assert_eq!(age(m(86_399, 1_000_000_000), m(86_400, 0)), Some(0));
    assert_eq!(
        age(m(-8_334_601_228_800, 0), m(8_210_266_876_799, 0)),
        Some(16_544_868_105_599)
    );
}

#[test]
fn stamps_that_cannot_be_read_give_no_age() {
    let now = Moment::new(1_000_000_000, 0).unwrap();
    let age = |t: &str| age_secs(&Some(t.to_string()), &now);
    assert_eq!(age("2001-09-09T01:46:40Z"), Some(0));
    assert_eq!(age("2001-09-09T01:46:39.5Z"), Some(0));
    assert_eq!(age("2001-09-09T03:46:30+02:00"), Some(10));
    assert_eq!(age("2001-09-09T01:46:50Z"), Some(-10));
    assert_eq!(age("2001-09-09"), None);
    assert_eq!(age("yesterday"), None);
    assert_eq!(age(""), None);
    assert_eq!(age_secs(&None, &now), None);
}

#[test]
fn names_are_kept_once() {
    let mut m: NameMap<i32> = NameMap::new();
    m.insert("a", 1);
    m.insert("b", 2);
    m.insert("a", 3);
    assert_eq!((m.get("a"), m.get("b"), m.get("c")), (Some(3), Some(2), None));
    assert_eq!(m.entries.len(), 2);
    let mut s = NameSet::new();
    s.insert("a".to_string());
    assert!(s.contains("a") && !s.contains("b"));
}
