use flagsmith_flag_engine::decimal::Decimal;
use flagsmith_flag_engine::engine_eval::context::{
    Condition, ConditionOperator, ConditionValue, EngineEvaluationContext, EnvironmentContext,
    IdentityContext,
};
use flagsmith_flag_engine::engine_eval::document::render_context;
use flagsmith_flag_engine::engine_eval::segment_evaluator::{
    compare_float, compare_string, evaluate_modulo, get_value_from_jsonpath,
    match_percentage_split, parse_and_match,
};
use flagsmith_flag_engine::json::write_numeral;
use flagsmith_flag_engine::text::chars_of;
use flagsmith_flag_engine::maps::StringMap;
use flagsmith_flag_engine::numbers::{
    compare_readings, is_comparison_decided, is_decimal_decided, is_exact, is_far, is_modulo_decided,
    is_threshold_decided, modulo_holds, percentage_reaches, read_number, shift, Reading,
};
use flagsmith_flag_engine::segments::SegmentCondition;
use flagsmith_flag_engine::types::{FlagsmithValue, FlagsmithValueType};
use flagsmith_flag_engine::utils::hashing::HashedPercentage;

const UNIT: i128 = 1_000_000_000_000_000_000;

fn finite(text: &str) -> Option<i128> {
    match read_number(text) {
        Some(Reading::Finite(d)) => Some(d.units()),
        _ => None,
    }
}

fn reading(text: &str) -> Reading {
    read_number(text).unwrap()
}

#[test]
fn numerals_with_an_exponent_denote_decimals() {
    assert_eq!(finite("1e1"), Some(10 * UNIT));
    assert_eq!(finite("1E1"), Some(10 * UNIT));
    assert_eq!(finite("1e+2"), Some(100 * UNIT));
    assert_eq!(finite("1e2"), Some(100 * UNIT));
    assert_eq!(finite("-1.5e-3"), Some(-UNIT * 15 / 10000));
    assert_eq!(finite(".5e1"), Some(5 * UNIT));
    assert_eq!(finite("1.e1"), Some(10 * UNIT));
    assert_eq!(finite("+12.50E0"), Some(UNIT * 125 / 10));
    assert_eq!(finite("1000000e-6"), Some(UNIT));
    assert_eq!(finite("0.000001e6"), Some(UNIT));
    assert_eq!(finite("1e17"), Some(UNIT * UNIT / 10));
    assert_eq!(finite("1e-18"), Some(1));
    assert_eq!(finite("100e-20"), Some(1));
    assert_eq!(finite("0e999999999"), Some(0));
    assert_eq!(finite("0.0e-999999999"), Some(0));
    assert_eq!(finite("1e007"), Some(10_000_000 * UNIT));
}

#[test]
fn plain_numerals_denote_what_they_did() {
    for text in ["0", "1", "30", "35.0", "1.5", "-1.5", "+1.5", "1.", ".5", "-.5", "007.250", "-0", "0.000000000000000001", "0.0000000000000000010000", "999999999999999999.999999999999999999"] {
        assert_eq!(finite(text), Decimal::parse(text).map(|d| d.units()), "{}", text);
        assert!(finite(text).is_some());
    }
}

#[test]
fn infinities_and_what_is_not_a_number_are_read() {
    for text in ["inf", "INF", "Inf", "+inf", "infinity", "Infinity", "+INFINITY"] {
        assert_eq!(read_number(text), Some(Reading::Infinite { negative: false }), "{}", text);
    }
    for text in ["-inf", "-Infinity"] {
        assert_eq!(read_number(text), Some(Reading::Infinite { negative: true }), "{}", text);
    }
    for text in ["nan", "NaN", "NAN", "+nan", "-nan"] {
        assert_eq!(read_number(text), Some(Reading::Nan), "{}", text);
    }
}

#[test]
fn numerals_the_decimals_do_not_hold_are_beyond_reading() {
    for text in ["0e1000000000", "1e99999999999999999999999999", "12345678901234567890123456789012345678", "1e1000000000", "-1e-1000000000", "0.12345678901234567890123456789012345678"] {
        assert_eq!(read_number(text), Some(Reading::Beyond), "{}", text);
    }
    let between = |negative: bool, units: i128| Some(Reading::Between { negative, nearer: Decimal::from_units(units).unwrap() });
    assert_eq!(read_number("1e-19"), between(false, 0));
    assert_eq!(read_number("-1e-19"), between(true, 0));
    assert_eq!(read_number("0.0000000000000000001"), between(false, 0));
    assert_eq!(read_number("1e-400"), between(false, 0));
    assert_eq!(read_number("1e-999999999"), between(false, 0));
    assert_eq!(read_number("0.1234567890123456789"), between(false, 123_456_789_012_345_678));
    assert_eq!(read_number("-0.1234567890123456789"), between(true, -123_456_789_012_345_678));
    assert_eq!(read_number("0.000012345678901234567"), between(false, 12_345_678_901_234));
    assert_eq!(read_number("19e-19"), between(false, 1));
    assert_eq!(read_number("12345678901234567.12345678901234567891"), between(false, 12_345_678_901_234_567_123_456_789_012_345_678));
    assert_eq!(finite("0.12345678901234567800"), Some(123_456_789_012_345_678));
    for text in ["1e18", "+1e18", "1000000000000000000", "1000000000000000000.0", "1e400", "0.001e21", "1234567890123456789012345678901234567", "9e999999999"] {
        assert_eq!(read_number(text), Some(Reading::Huge { negative: false }), "{}", text);
    }
    for text in ["-1e18", "-1e300", "-1000000000000000000000"] {
        assert_eq!(read_number(text), Some(Reading::Huge { negative: true }), "{}", text);
    }
    assert_eq!(finite("999999999999999999.999999999999999999"), Some(UNIT * UNIT - 1));
}

#[test]
fn what_a_float_parse_refuses_is_no_number() {
    for text in ["", "+", "-", ".", "+.", "e5", ".e5", "1e", "1e+", "1e-", "1e5.5", "1 e5", "1e 5", " 1", "1 ", "0x10", "1_000", "in", "infinit", "infinityy", "na", "nane", "i nf", "--1", "+-1", "1ee5", "1.2.3", "abc", "٣"] {
        assert_eq!(read_number(text), None, "{:?}", text);
        assert!(text.parse::<f64>().is_err(), "{:?}", text);
    }
    for text in ["1e1", "inf", "-Infinity", "NaN", "1.", ".5", "+1.5E-3", "1e400", "007", "0e1000000000"] {
        assert!(read_number(text).is_some(), "{}", text);
        assert!(text.parse::<f64>().is_ok(), "{}", text);
    }
}

#[test]
fn shifting_by_powers_of_ten() {
    assert_eq!(shift(15, 2), Some(1500));
    assert_eq!(shift(1500, -2), Some(15));
    assert_eq!(shift(1500, -3), None);
    assert_eq!(shift(0, -1000), Some(0));
    assert_eq!(shift(0, 1000), Some(0));
    assert_eq!(shift(1, 35), Some(100_000_000_000_000_000_000_000_000_000_000_000));
    assert_eq!(shift(1, 36), None);
    assert_eq!(shift(7, 0), Some(7));
    assert_eq!(shift(1_000_000_000_000_000_000_000_000_000_000_000_000, 0), None);
    assert_eq!(shift(1_000_000_000_000_000_000_000_000_000_000_000_000, -1), Some(100_000_000_000_000_000_000_000_000_000_000_000));
    assert_eq!(shift(u128::MAX, 1), None);
    assert_eq!(shift(u128::MAX, 0), None);
    assert_eq!(shift(u128::MAX, -1), None);
    assert_eq!(shift(300_000_000_000_000_000_000_000_000_000_000_000_000, -3), Some(300_000_000_000_000_000_000_000_000_000_000_000));
    assert_eq!(shift(300_000_000_000_000_000_000_000_000_000_000_000_000, -2), None);
}

fn float(text: &str) -> FlagsmithValue {
    FlagsmithValue { value_type: FlagsmithValueType::Float, value: text.to_string() }
}

#[test]
fn ten_equals_ten_however_it_is_written() {
    assert!(parse_and_match(&ConditionOperator::Equal, &float("10.0"), "1e1"));
    assert!(!parse_and_match(&ConditionOperator::NotEqual, &float("10.0"), "1e1"));
    assert!(compare_float(&ConditionOperator::Equal, "1e1", "10"));
    assert!(compare_float(&ConditionOperator::GreaterThanInclusive, "1e1", "0.1E2"));
    assert!(compare_float(&ConditionOperator::LessThan, "9.99", "1e1"));
    assert!(compare_string(&ConditionOperator::Equal, "10.0", "1e1"));
    assert!(compare_string(&ConditionOperator::GreaterThan, "1e2", "99.5"));
    assert!(!compare_string(&ConditionOperator::NotEqual, "1e0", "1.0"));
}

#[test]
fn infinities_compare_beyond_every_decimal() {
    assert!(compare_float(&ConditionOperator::Equal, "inf", "Infinity"));
    assert!(!compare_float(&ConditionOperator::NotEqual, "inf", "+inf"));
    assert!(compare_float(&ConditionOperator::GreaterThan, "inf", "1e17"));
    assert!(compare_float(&ConditionOperator::LessThan, "-inf", "-999999999999999999"));
    assert!(compare_float(&ConditionOperator::LessThan, "-inf", "inf"));
    assert!(compare_float(&ConditionOperator::LessThanInclusive, "-inf", "-inf"));
    assert!(!compare_float(&ConditionOperator::LessThan, "inf", "inf"));
    assert!(compare_string(&ConditionOperator::Equal, "inf", "Infinity"));
    assert!(compare_string(&ConditionOperator::GreaterThan, "INF", "5"));
}

#[test]
fn what_is_not_a_number_equals_nothing() {
    for other in ["nan", "NaN", "1", "inf", "-inf", "1e400"] {
        assert!(!compare_float(&ConditionOperator::Equal, "nan", other));
        assert!(compare_float(&ConditionOperator::NotEqual, "nan", other));
        assert!(compare_float(&ConditionOperator::NotEqual, other, "nan"));
        assert!(!compare_float(&ConditionOperator::GreaterThan, "nan", other));
        assert!(!compare_float(&ConditionOperator::LessThan, "nan", other));
        assert!(!compare_float(&ConditionOperator::GreaterThanInclusive, other, "nan"));
        assert!(!compare_float(&ConditionOperator::LessThanInclusive, other, "nan"));
    }
    assert!(!compare_string(&ConditionOperator::Equal, "nan", "nan"));
    assert!(compare_string(&ConditionOperator::NotEqual, "nan", "nan"));
}

#[test]
fn equal_and_not_equal_are_opposites_for_every_pair_of_numbers() {
    let texts = ["0", "-0", "1e1", "10.0", "0.1", "0.10000000000000000001", "inf", "-inf", "nan", "1e400", "1e-400", "0.30000000000000004", "0.3"];
    for a in texts {
        for b in texts {
            assert_eq!(
                compare_float(&ConditionOperator::Equal, a, b),
                !compare_float(&ConditionOperator::NotEqual, a, b),
                "{} {}",
                a,
                b
            );
        }
    }
}

#[test]
fn remainders_of_numbers_however_they_are_written() {
    assert!(evaluate_modulo("1e1", "5|0"));
    assert!(evaluate_modulo("10", "0.3e1|1"));
    assert!(!evaluate_modulo("1e1", "3|0"));
    assert!(evaluate_modulo("35.0", "4|3"));
    assert!(evaluate_modulo("35", "4e0|3.0"));
    assert!(!evaluate_modulo("7", "0|0"));
    assert!(!evaluate_modulo("7", "0e5|7"));
    assert!(!evaluate_modulo("nan", "4|3"));
    assert!(!evaluate_modulo("7", "nan|3"));
    assert!(!evaluate_modulo("7", "4|nan"));
    assert!(!evaluate_modulo("inf", "4|3"));
    assert!(!evaluate_modulo("-inf", "inf|3"));
    assert!(!evaluate_modulo("7", "4|inf"));
    assert!(evaluate_modulo("3", "inf|3"));
    assert!(evaluate_modulo("-3", "-inf|-3"));
    assert!(!evaluate_modulo("3", "inf|4"));
    assert!(!evaluate_modulo("3", "x|3"));
    assert!(!evaluate_modulo("x", "4|3"));
}

fn split_context(identity: Option<(&str, &str)>) -> EngineEvaluationContext {
    EngineEvaluationContext {
        environment: EnvironmentContext { key: "env".to_string(), name: "env".to_string() },
        features: StringMap::new(),
        segments: StringMap::new(),
        identity: identity.map(|(identifier, key)| IdentityContext {
            identifier: identifier.to_string(),
            key: key.to_string(),
            traits: StringMap::new(),
        }),
    }
}

fn split(threshold: &str) -> Condition {
    Condition {
        operator: ConditionOperator::PercentageSplit,
        property: String::new(),
        value: ConditionValue::Single(threshold.to_string()),
    }
}

#[test]
fn thresholds_however_they_are_written() {
    let keyed = split_context(Some(("user", "user")));
    let unkeyed = split_context(Some(("2", "")));
    let value = FlagsmithValue { value_type: FlagsmithValueType::String, value: "user".to_string() };
    for ec in [&keyed, &unkeyed] {
        assert!(match_percentage_split(ec, &split("1e2"), "seg", None));
        assert!(match_percentage_split(ec, &split("1e2"), "seg", Some(&value)));
        assert!(match_percentage_split(ec, &split("inf"), "seg", None));
        assert!(match_percentage_split(ec, &split("+Infinity"), "seg", Some(&value)));
        assert!(!match_percentage_split(ec, &split("-inf"), "seg", None));
        assert!(!match_percentage_split(ec, &split("nan"), "seg", None));
        assert!(!match_percentage_split(ec, &split("nan"), "seg", Some(&value)));
        assert!(!match_percentage_split(ec, &split("0e0"), "seg", Some(&value)));
        assert!(!match_percentage_split(ec, &split("abc"), "seg", None));
    }
    assert!(match_percentage_split(&keyed, &split("6.074e1"), "seg", None));
    assert!(!match_percentage_split(&keyed, &split("6073e-2"), "seg", None));
    assert!(match_percentage_split(&unkeyed, &split("2288e-2"), "1", None));
    assert!(!match_percentage_split(&unkeyed, &split("2.287e1"), "1", None));
    assert!(!match_percentage_split(&split_context(None), &split("1e2"), "seg", None));
    assert!(!match_percentage_split(&split_context(None), &split("inf"), "seg", None));
}

#[test]
fn percentages_against_readings() {
    let half = HashedPercentage::from_position(4999);
    assert!(percentage_reaches(half, &reading("50")));
    assert!(percentage_reaches(half, &reading("5e1")));
    assert!(!percentage_reaches(half, &reading("49.9999999999")));
    assert!(percentage_reaches(half, &reading("inf")));
    assert!(!percentage_reaches(half, &reading("-inf")));
    assert!(!percentage_reaches(half, &reading("nan")));
    assert!(percentage_reaches(HashedPercentage::from_position(9998), &reading("100")));
    assert!(!percentage_reaches(HashedPercentage::from_position(0), &reading("-0.0000000001")));
    assert!(percentage_reaches(HashedPercentage::from_position(0), &reading("0")));
}

#[test]
fn a_caller_can_tell_what_is_decided() {
    let decided = |a: &str, b: &str| is_comparison_decided(&reading(a), &reading(b));
    assert!(decided("1.5", "2"));
    assert!(decided("1e1", "10.0"));
    assert!(decided("123456789012345", "0.000000000000001"));
    assert!(decided("0.1234567890123456", "0.1234567890123456"));
    assert!(decided("0.1234567890123456", "0.1"));
    assert!(decided("1234567890123456", "1"));
    assert!(decided("9007199254740992", "9007199254740991"));
    assert!(!decided("9007199254740993", "9007199254740992"));
    assert!(!decided("0.30000000000000004", "0.3"));
    assert!(!decided("0.1", "0.10000000000000001"));
    assert!(decided("1e400", "1"));
    assert!(decided("1e18", "999999999999999000"));
    assert!(!decided("1e18", "999999999999999001"));
    assert!(!decided("-999999999999999001", "-999999999999999000"));
    assert!(decided("1e18", "-999999999999999999"));
    assert!(decided("1e18", "-1e18"));
    assert!(!decided("1e18", "1e18"));
    assert!(!decided("1e18", "1e19"));
    assert!(!decided("1e400", "inf"));
    assert!(decided("1e400", "-inf"));
    assert!(decided("-1e400", "inf"));
    assert!(decided("1e400", "nan"));
    assert!(decided("1e-400", "1"));
    assert!(decided("1e-400", "1e400"));
    assert!(decided("1e-400", "inf"));
    assert!(!decided("1e-400", "0"));
    assert!(!decided("1e-400", "1e-18"));
    assert!(decided("1e-400", "2e-18"));
    assert!(!decided("1e-400", "1e-401"));
    assert!(!decided("1e-400", "-1e-401"));
    assert!(decided("1e-400", "-1e-18"));
    assert!(decided("0.000012345678901234567", "0.00001"));
    assert!(!decided("0.000012345678901234567", "0.000012345678901234"));
    assert!(!decided("0.000012345678901234567", "0.000012345678901235"));
    assert!(decided("0.000012345678901234567", "0.000012345678901233"));
    assert!(decided("0.000012345678901234567", "0.000012345678901236"));
    assert!(!decided("0.000012345678901234567", "0.000012345678901234566"));
    assert!(decided("0.1234567890123456789", "0.1234567890123459"));
    assert!(!decided("0.1234567890123456789", "0.12345678901234568"));
    assert!(decided("-0.1234567890123456789", "0.1234567890123456789"));
    assert!(decided("inf", "1.000000000000000001"));
    assert!(decided("inf", "-inf"));
    let decimal = |text: &str| Decimal::parse(text).unwrap();
    for text in ["0", "-35.0", "0.5", "-2.25", "0.000003814697265625", "9007199254740992", "9007199254740994", "576460752303423488", "4503599627370495.5"] {
        assert!(is_exact(&decimal(text)), "{}", text);
    }
    for text in ["0.1", "1.1", "-0.3", "9007199254740993", "4503599627370496.5", "0.000003814697265624", "0.000000000000000001"] {
        assert!(!is_exact(&decimal(text)), "{}", text);
    }
    assert!(is_far(&decimal("999999999999999"), &decimal("999999999999998")));
    assert!(is_far(&decimal("100000000000000"), &decimal("99999999999999.9")));
    assert!(is_far(&decimal("0.000000000000000001"), &decimal("0.000000000000000002")));
    assert!(is_far(&decimal("0"), &decimal("0.000000000000000001")));
    assert!(is_far(&decimal("-1"), &decimal("1")));
    assert!(is_far(&decimal("0.30000000000000004"), &decimal("0.5")));
    assert!(!is_far(&decimal("0.30000000000000004"), &decimal("0.3")));
    assert!(!is_far(&decimal("0.1"), &decimal("0.10000000000000001")));
    assert!(!is_far(&decimal("2251799813685248"), &decimal("2251799813685249")));
    assert!(!is_far(&decimal("2251799813685247"), &decimal("2251799813685248")));
    assert!(is_far(&decimal("2251799813685246"), &decimal("2251799813685247")));
    assert!(!is_far(&decimal("1.5"), &decimal("1.5")));
    let at = |position: u32| HashedPercentage::from_position(position);
    assert!(is_decimal_decided(at(4999), Decimal::parse("50").unwrap().units()));
    assert!(is_decimal_decided(at(4999), Decimal::parse("50.00002").unwrap().units()));
    assert!(!is_decimal_decided(at(4999), Decimal::parse("50.000019").unwrap().units()));
    assert!(is_decimal_decided(at(4999), Decimal::parse("49.99998").unwrap().units()));
    assert!(!is_decimal_decided(at(4999), Decimal::parse("49.999981").unwrap().units()));
    assert!(!is_decimal_decided(at(6072), Decimal::parse("60.73214642928").unwrap().units()));
    assert!(is_decimal_decided(at(6000), Decimal::parse("60.73214642928").unwrap().units()));
    let modulo = |t: &str, d: &str, r: &str| is_modulo_decided(&reading(t), &reading(d), &reading(r));
    assert!(modulo("35", "4", "3"));
    assert!(modulo("1e1", "5", "0"));
    assert!(modulo("1.1", "0", "1.1"));
    assert!(modulo("1.1", "nan", "1.1"));
    assert!(modulo("inf", "2.5", "1.1"));
    assert!(modulo("3", "inf", "3"));
    assert!(!modulo("1.1", "2.1", "1.1"));
    assert!(modulo("35", "4", "3.5"));
    assert!(modulo("7.5", "2.5", "0"));
    assert!(!modulo("35", "4", "3.1"));
    assert!(!modulo("9007199254740993", "4", "1"));
    assert!(modulo("35", "1e400", "3"));
    assert!(modulo("35", "-1e18", "35"));
    assert!(!modulo("35.1", "1e400", "35.1"));
    assert!(!modulo("1e400", "4", "3"));
    assert!(!modulo("35", "4", "1e400"));
    assert!(!modulo("35", "1e-400", "3"));
    for position in [0, 1, 4999, 6072, 6073, 9997, 9998] {
        for tenths in 0..1000 {
            let threshold = format!("{}.{}", tenths / 10, tenths % 10);
            assert!(is_threshold_decided(at(position), &reading(&threshold)));
        }
        assert!(is_threshold_decided(at(position), &reading("1e2")));
        assert!(is_threshold_decided(at(position), &reading("-0.00000000000001")));
        assert!(is_threshold_decided(at(position), &reading("100.00000000000001")));
        assert!(is_threshold_decided(at(position), &reading("nan")));
        assert!(is_threshold_decided(at(position), &reading("-inf")));
        assert!(is_threshold_decided(at(position), &reading("1e400")));
        assert!(is_threshold_decided(at(position), &reading("-1e18")));
        assert_eq!(is_threshold_decided(at(position), &reading("1e-400")), position != 0);
        assert_eq!(is_threshold_decided(at(position), &reading("-1e-400")), position != 0);
        assert!(is_threshold_decided(at(position), &reading("33.3333333333333333333")));
        assert!(is_threshold_decided(at(position), &reading("-33.3333333333333333333")));
        assert!(is_threshold_decided(at(position), &reading("100.0000000000000000001")));
        assert_eq!(is_threshold_decided(at(position), &reading("60.7321464292858571714")), position != 6072);
    }
    assert!(!is_threshold_decided(at(6072), &reading("60.73214642928")));
    assert!(is_threshold_decided(at(6071), &reading("60.73214642928")));
}

#[test]
fn readings_compare_and_leave_remainders() {
    assert!(compare_readings(&ConditionOperator::LessThan, &reading("1e-18"), &reading("2e-18")));
    assert!(compare_readings(&ConditionOperator::Equal, &reading("-0"), &reading("0e0")));
    assert!(!compare_readings(&ConditionOperator::Contains, &reading("1"), &reading("1")));
    assert!(modulo_holds(&reading("1.1"), &reading("2.1"), &reading("1.1")));
    assert!(!modulo_holds(&reading("34.2"), &reading("4"), &reading("3")));
    assert!(modulo_holds(&reading("-7"), &reading("4"), &reading("-3")));
    assert!(!modulo_holds(&reading("3.0000000001"), &reading("4"), &reading("3")));
    assert!(modulo_holds(&reading("3.00000000005"), &reading("4"), &reading("3")));
}

#[test]
fn conditions_of_environment_documents_read_numbers_alike() {
    let holds = |operator: &str, value: &str, condition: &str| {
        SegmentCondition {
            operator: operator.to_string(),
            value: Some(condition.to_string()),
            property: Some("foo".to_string()),
        }
        .matches_trait_value(&float(value))
    };
    assert!(holds("EQUAL", "10.0", "1e1"));
    assert!(!holds("NOT_EQUAL", "10.0", "1e1"));
    assert!(holds("LESS_THAN", "1e1", "inf"));
    assert!(holds("NOT_EQUAL", "nan", "nan"));
    assert!(holds("MODULO", "1e1", "5|0"));
    assert!(!holds("UNKNOWN", "1", "1"));
    assert!(!holds("EQUAL", "x", "1"));
}

#[test]
fn numbers_are_written_into_the_document_as_decimals() {
    let with_trait = |text: &str| {
        let mut traits = StringMap::new();
        traits.insert("n".to_string(), float(text));
        render_context(&EngineEvaluationContext {
            environment: EnvironmentContext { key: String::new(), name: String::new() },
            features: StringMap::new(),
            segments: StringMap::new(),
            identity: Some(IdentityContext { identifier: String::new(), key: String::new(), traits }),
        })
    };
    assert!(with_trait("1e1").contains("\"traits\":{\"n\":10.0}"));
    assert!(with_trait("-2.5E-1").contains("\"traits\":{\"n\":-0.25}"));
    assert!(with_trait("10").contains("\"traits\":{\"n\":10.0}"));
    assert!(with_trait("inf").contains("\"traits\":{\"n\":null}"));
    assert!(with_trait("nan").contains("\"traits\":{\"n\":null}"));
    assert!(with_trait("ten").contains("\"traits\":{\"n\":null}"));
    assert!(with_trait("1e400").contains("\"traits\":{\"n\":null}"));
    assert!(with_trait("1e100").contains("\"traits\":{\"n\":1.0e100}"));
    assert!(with_trait("1e199").contains("\"traits\":{\"n\":1.0e199}"));
    assert!(with_trait("1e200").contains("\"traits\":{\"n\":null}"));
    assert!(with_trait("1e-299").contains("\"traits\":{\"n\":1.0e-299}"));
    assert!(with_trait("1e-300").contains("\"traits\":{\"n\":null}"));
    assert!(with_trait("1e30").contains("\"traits\":{\"n\":1.0e30}"));
    assert!(with_trait("+007.5E-30").contains("\"traits\":{\"n\":7.5e-30}"));
    assert!(with_trait("-.5e+20").contains("\"traits\":{\"n\":-0.5e20}"));
    assert!(with_trait("000").contains("\"traits\":{\"n\":0.0}"));
    assert!(with_trait("1000000000000000000000").contains("\"traits\":{\"n\":1000000000000000000000.0}"));
    assert!(with_trait("0.12345678901234567890").contains("\"traits\":{\"n\":0.12345678901234567890}"));
}

#[test]
fn numbers_in_the_document_read_back_as_the_floats_they_are() {
    for text in ["1e1", "10", "-2.5E-1", "1e30", "+007.5E-30", "-.5e+20", "1.", "000", "1000000000000000000000", "0.12345678901234567890", "0.30000000000000004", "1e-99", "9e99", "1e199", "-1e-299", "0.000012345678901234567", "4.9e-299", &format!("{}e199", "9".repeat(100)), &format!("0.{}e-299", "9".repeat(99))] {
        let mut traits = StringMap::new();
        traits.insert("n".to_string(), float(text));
        let ec = EngineEvaluationContext {
            environment: EnvironmentContext { key: String::new(), name: String::new() },
            features: StringMap::new(),
            segments: StringMap::new(),
            identity: Some(IdentityContext { identifier: String::new(), key: String::new(), traits }),
        };
        let tree: serde_json::Value = serde_json::from_str(&render_context(&ec)).unwrap();
        let node = &tree["identity"]["traits"]["n"];
        assert!(node.is_f64(), "{}", text);
        assert_eq!(node.as_f64(), Some(text.parse::<f64>().unwrap()), "{}", text);
        let found = get_value_from_jsonpath(&ec, "$.identity.traits.n").unwrap();
        assert_eq!(found.value_type, FlagsmithValueType::Float);
        assert_eq!(found.value.parse::<f64>().unwrap(), text.parse::<f64>().unwrap());
    }
}

#[test]
fn numerals_are_written_as_json_asks() {
    let written = |text: &str| write_numeral(&chars_of(text)).map(|chars| chars.into_iter().collect::<String>());
    assert_eq!(written("1"), Some("1.0".to_string()));
    assert_eq!(written("+1"), Some("1.0".to_string()));
    assert_eq!(written("-0012.50"), Some("-12.50".to_string()));
    assert_eq!(written(".5"), Some("0.5".to_string()));
    assert_eq!(written("5."), Some("5.0".to_string()));
    assert_eq!(written("000"), Some("0.0".to_string()));
    assert_eq!(written("1e5"), Some("1.0e5".to_string()));
    assert_eq!(written("1E+05"), Some("1.0e5".to_string()));
    assert_eq!(written("1.5e-07"), Some("1.5e-7".to_string()));
    assert_eq!(written("1e0"), Some("1.0e0".to_string()));
    assert_eq!(written("1e199"), Some("1.0e199".to_string()));
    assert_eq!(written("1e-299"), Some("1.0e-299".to_string()));
    assert_eq!(written("1e200"), None);
    assert_eq!(written("1e-300"), None);
    assert_eq!(written(""), None);
    assert_eq!(written("."), None);
    assert_eq!(written("inf"), None);
    assert_eq!(written("1e"), None);
    assert_eq!(written("1x"), None);
    assert_eq!(written(&"1".repeat(100)), Some(format!("{}.0", "1".repeat(100))));
    assert_eq!(written(&"1".repeat(101)), None);
}
