use bulk_merge::db::PgTargetType;
use bulk_merge::libgen::typing::{
    coerce_value_best_effort, coerce_with_readings, read_time, LibgenUnrepresentablePolicy,
};
use bulk_merge::literals::{is_float_literal, parse_i32, parse_i64};
use bulk_merge::text::{i64_text, replace_str, trim_str, u64_text};

fn coerce(ty: PgTargetType, s: &str, policy: LibgenUnrepresentablePolicy) -> Option<String> {
    coerce_value_best_effort(ty, s.to_string(), policy, None).ok().unwrap()
}

#[test]
fn integer_literals() {
    assert_eq!(parse_i64("42"), Some(42));
    assert_eq!(parse_i64("+7"), Some(7));
    assert_eq!(parse_i64("-0"), Some(0));
    assert_eq!(parse_i64("007"), Some(7));
    assert_eq!(parse_i64("-9223372036854775808"), Some(i64::MIN));
    assert_eq!(parse_i64("9223372036854775807"), Some(i64::MAX));
    assert_eq!(parse_i64("9223372036854775808"), None);
    assert_eq!(parse_i64("99999999999999999999999"), None);
    assert_eq!(parse_i64(""), None);
    assert_eq!(parse_i64("-"), None);
    assert_eq!(parse_i64(" 1"), None);
    assert_eq!(parse_i64("1a"), None);
    assert_eq!(parse_i32("2147483647"), Some(i32::MAX));
    assert_eq!(parse_i32("2147483648"), None);
    assert_eq!(parse_i32("-2147483648"), Some(i32::MIN));
    for s in ["0", "12", "-12", "+5", "abc", "", "1.0", "-2147483649"] {
        assert_eq!(parse_i32(s), s.parse::<i32>().ok(), "{s}");
        assert_eq!(parse_i64(s), s.parse::<i64>().ok(), "{s}");
    }
}

#[test]
fn integer_text_round_trips() {
    for n in [0i64, 5, -5, 10, 1234567890, i64::MIN, i64::MAX] {
        let t = i64_text(n);
        assert_eq!(t, n.to_string());
        assert_eq!(parse_i64(&t), Some(n));
    }
    assert_eq!(u64_text(u64::MAX), "18446744073709551615");
}

#[test]
fn float_literals_follow_std() {
    for s in [
        "1", "1.5", ".5", "5.", "1e5", "1E-5", "+1.5e+3", "-0.0", "inf", "-Infinity", "NaN", "nan",
        "+inf", ".", "e5", "1e", "1.2.3", " 1", "1 ", "", "-", "0x10", "1_000", "infinit", "1e+",
        ".e1", "5.e2",
    ] {
        assert_eq!(is_float_literal(s), s.parse::<f64>().is_ok(), "{s:?}");
    }
}

#[test]
fn text_helpers() {
    assert_eq!(trim_str("  a b \n"), "a b");
    assert_eq!(replace_str("a{kind}b{kind}", "{kind}", "x"), "axbx");
    assert_eq!(replace_str("aaa", "aa", "b"), "ba");
    assert_eq!(replace_str("q\"q", "\"", "\\\""), "q\\\"q");
}

#[test]
fn blanks_and_null_spellings() {
    let p = LibgenUnrepresentablePolicy::Text;
    assert_eq!(coerce(PgTargetType::Text, "  ", p), None);
    assert_eq!(coerce(PgTargetType::Int4, "NULL", p), None);
    assert_eq!(coerce(PgTargetType::Int4, " \\N ", p), None);
    assert_eq!(coerce(PgTargetType::Text, "NULL", p), Some("NULL".to_string()));
    assert_eq!(coerce(PgTargetType::Text, " keep ", p), Some(" keep ".to_string()));
    assert_eq!(coerce(PgTargetType::Date, "0000-00-00", p), None);
    assert_eq!(coerce(PgTargetType::Timestamp, "0000-00-00 00:00:00", p), None);
    assert_eq!(coerce(PgTargetType::Timestamptz, "2020\\01", p), None);
}

#[test]
fn integers_and_numbers() {
    let p = LibgenUnrepresentablePolicy::Null;
    assert_eq!(coerce(PgTargetType::Int4, " +042 ", p), Some("42".to_string()));
    assert_eq!(coerce(PgTargetType::Int4, "3000000000", p), None);
    assert_eq!(coerce(PgTargetType::Int8, "3000000000", p), Some("3000000000".to_string()));
    assert_eq!(coerce(PgTargetType::Numeric, " 1.50 ", p), Some("1.50".to_string()));
    assert_eq!(coerce(PgTargetType::Numeric, "1,5", p), None);
    assert_eq!(
        coerce_value_best_effort(PgTargetType::Float8, "1.50".to_string(), p, Some("1.5".to_string()))
            .ok()
            .unwrap(),
        Some("1.5".to_string())
    );
}

#[test]
fn booleans() {
    let p = LibgenUnrepresentablePolicy::Null;
    assert_eq!(coerce(PgTargetType::Bool, "Yes", p), Some("true".to_string()));
    assert_eq!(coerce(PgTargetType::Bool, "1", p), Some("true".to_string()));
    assert_eq!(coerce(PgTargetType::Bool, "F", p), Some("false".to_string()));
    assert_eq!(coerce(PgTargetType::Bool, "maybe", p), None);
}

#[test]
fn dates_and_times() {
    let p = LibgenUnrepresentablePolicy::Null;
    assert_eq!(coerce(PgTargetType::Date, "2020-01-05", p), Some("2020-01-05".to_string()));
    assert_eq!(coerce(PgTargetType::Date, "2020-13-05", p), None);
    assert_eq!(
        coerce(PgTargetType::Timestamp, "2020-01-05 10:11:12", p),
        Some("2020-01-05 10:11:12".to_string())
    );
    assert_eq!(
        coerce(PgTargetType::Timestamp, "2020-01-05", p),
        Some("2020-01-05 00:00:00".to_string())
    );
    assert_eq!(
        coerce(PgTargetType::Timestamptz, "2020-01-05T10:11:12Z", p),
        Some("2020-01-05T10:11:12Z".to_string())
    );
}

#[test]
fn unrepresentable_policies() {
    assert_eq!(coerce(PgTargetType::Int4, "x", LibgenUnrepresentablePolicy::Null), None);
    assert_eq!(
        coerce(PgTargetType::Int4, " x ", LibgenUnrepresentablePolicy::Text),
        Some(" x ".to_string())
    );
    match coerce_value_best_effort(PgTargetType::Int4, "x".to_string(), LibgenUnrepresentablePolicy::Error, None) {
        Err(e) => assert_eq!(e.message(), "value `x` is not representable as Int4"),
        Ok(_) => panic!("expected an error"),
    }
}

#[test]
fn coercion_from_given_readings() {
    let p = LibgenUnrepresentablePolicy::Null;
    assert_eq!(
        coerce_with_readings(PgTargetType::Timestamp, " x ".to_string(), p, None, Some("T".to_string()))
            .ok()
            .unwrap(),
        Some("T".to_string())
    );
    assert_eq!(
        coerce_with_readings(PgTargetType::Date, "0000-00-00".to_string(), p, None, Some("T".to_string()))
            .ok()
            .unwrap(),
        None
    );
    assert_eq!(
        coerce_with_readings(PgTargetType::Int4, "12".to_string(), p, None, Some("T".to_string())).ok().unwrap(),
        Some("12".to_string())
    );
    assert_eq!(read_time(PgTargetType::Timestamp, "2021-02-03 04:05:06.5"), Some("2021-02-03 04:05:06.500".to_string()));
    assert_eq!(read_time(PgTargetType::Date, "2021-02-03"), Some("2021-02-03".to_string()));
    assert_eq!(read_time(PgTargetType::Int4, "2021-02-03"), None);
}
