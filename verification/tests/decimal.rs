use flagsmith_flag_engine::decimal::{parse_i64, Decimal};
use flagsmith_flag_engine::text::chars_of;

fn units(text: &str) -> Option<i128> {
    Decimal::parse(text).map(|d| d.units())
}

const UNIT: i128 = 1_000_000_000_000_000_000;

#[test]
fn numerals_denote_decimals() {
    assert_eq!(units("0"), Some(0));
    assert_eq!(units("1"), Some(UNIT));
    assert_eq!(units("30"), Some(30 * UNIT));
    assert_eq!(units("35.0"), Some(35 * UNIT));
    assert_eq!(units("1.5"), Some(UNIT + UNIT / 2));
    assert_eq!(units("-1.5"), Some(-UNIT - UNIT / 2));
    assert_eq!(units("+1.5"), Some(UNIT + UNIT / 2));
    assert_eq!(units("1."), Some(UNIT));
    assert_eq!(units(".5"), Some(UNIT / 2));
    assert_eq!(units("-.5"), Some(-UNIT / 2));
    assert_eq!(units("007.250"), Some(7 * UNIT + UNIT / 4));
    assert_eq!(units("-0"), Some(0));
    assert_eq!(units("0.000000000000000001"), Some(1));
    assert_eq!(units("0.0000000000000000010000"), Some(1));
    assert_eq!(units("999999999999999999.999999999999999999"), Some(UNIT * UNIT - 1));
    assert_eq!(units("0000000000000000000000000000000000000000001"), Some(UNIT));
}

#[test]
fn what_is_no_numeral_denotes_nothing() {
    for text in ["", "+", "-", ".", "-.", "1e5", "1.5.5", "abc", " 1", "1 ", "1,5", "--1", "+-1", "0x10", "inf", "nan", "1_000", "٣"] {
        assert_eq!(units(text), None, "{:?}", text);
    }
}

#[test]
fn numerals_beyond_the_bounds_denote_nothing() {
    assert_eq!(units("1000000000000000000"), None);
    assert_eq!(units("-1000000000000000000"), None);
    assert_eq!(units("0.0000000000000000001"), None);
    assert_eq!(units("0.1234567890123456789"), None);
    assert_eq!(units("99999999999999999999999999999999999999999999"), None);
}

#[test]
fn decimals_are_written_as_the_shortest_numeral() {
    let cases = [
        ("0", "0"),
        ("-0", "0"),
        ("30", "30"),
        ("30.0", "30"),
        ("33.50", "33.5"),
        ("-33.5", "-33.5"),
        ("0.25", "0.25"),
        (".5", "0.5"),
        ("100", "100"),
        ("0.000000000000000001", "0.000000000000000001"),
        ("12.000000100", "12.0000001"),
        ("999999999999999999.999999999999999999", "999999999999999999.999999999999999999"),
    ];
    for (text, expected) in cases {
        assert_eq!(Decimal::parse(text).unwrap().to_text(), expected, "{}", text);
    }
}

#[test]
fn writing_and_reading_a_decimal_gives_it_back() {
    for units in [0, 1, -1, 25, UNIT, -UNIT, 33 * UNIT + 5, UNIT * UNIT - 1, 1 - UNIT * UNIT, 1_234_567_890_123_456_789_012] {
        let d = Decimal::from_units(units).unwrap();
        assert_eq!(Decimal::parse(&d.to_text()), Some(d));
    }
}

#[test]
fn decimals_of_units_and_of_whole_numbers() {
    assert_eq!(Decimal::from_units(UNIT * UNIT), None);
    assert_eq!(Decimal::from_units(-UNIT * UNIT), None);
    assert_eq!(Decimal::from_units(UNIT * UNIT - 1).unwrap().units(), UNIT * UNIT - 1);
    assert_eq!(Decimal::from_integer(-3).units(), -3 * UNIT);
    assert_eq!(Decimal::from_integer(i32::MIN).units(), (i32::MIN as i128) * UNIT);
    assert_eq!(Decimal::from_whole(u32::MAX).units(), (u32::MAX as i128) * UNIT);
    assert_eq!(Decimal::zero().units(), 0);
    assert_eq!(Decimal::from_integer(-3).magnitude(), 3 * UNIT as u128);
}

#[test]
fn remainders_have_the_sign_of_the_dividend() {
    let rem = |a: &str, b: &str| Decimal::parse(a).unwrap().rem(&Decimal::parse(b).unwrap()).map(|d| d.to_text());
    assert_eq!(rem("35", "4"), Some("3".to_string()));
    assert_eq!(rem("-35", "4"), Some("-3".to_string()));
    assert_eq!(rem("35", "-4"), Some("3".to_string()));
    assert_eq!(rem("-35", "-4"), Some("-3".to_string()));
    assert_eq!(rem("1.1", "2.1"), Some("1.1".to_string()));
    assert_eq!(rem("34.2", "4"), Some("2.2".to_string()));
    assert_eq!(rem("0.3", "0.1"), Some("0".to_string()));
    assert_eq!(rem("5", "0"), None);
    assert_eq!(rem("0", "5"), Some("0".to_string()));
}

fn integer(text: &str) -> Option<i64> {
    parse_i64(&chars_of(text))
}

#[test]
fn integers_are_read_with_an_optional_sign() {
    assert_eq!(integer("0"), Some(0));
    assert_eq!(integer("-0"), Some(0));
    assert_eq!(integer("12"), Some(12));
    assert_eq!(integer("+12"), Some(12));
    assert_eq!(integer("-12"), Some(-12));
    assert_eq!(integer("0012"), Some(12));
    assert_eq!(integer("9223372036854775807"), Some(i64::MAX));
    assert_eq!(integer("-9223372036854775808"), Some(i64::MIN));
    assert_eq!(integer("9223372036854775808"), None);
    assert_eq!(integer("-9223372036854775809"), None);
    assert_eq!(integer("99999999999999999999999999999999999999999999999999"), None);
    for text in ["", "+", "-", "1.0", "1e3", " 1", "1 ", "a", "1a", "--1"] {
        assert_eq!(integer(text), None, "{:?}", text);
    }
}
