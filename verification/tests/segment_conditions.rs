use flagsmith_flag_engine::engine_eval::context::{Condition, ConditionOperator, ConditionValue};
use flagsmith_flag_engine::engine_eval::segment_evaluator::{
    compare_bool, compare_float, compare_integer, compare_string, dispatch_equality,
    dispatch_operator, evaluate_modulo, evaluate_regex, evaluate_semver, match_in_operator,
    parse_and_match, parse_bool, percentage_within, regex_verdict, semver_verdict,
};
use flagsmith_flag_engine::decimal::Decimal;
use flagsmith_flag_engine::types::{FlagsmithValue, FlagsmithValueType};
use flagsmith_flag_engine::utils::hashing::HashedPercentage;

fn value(value_type: FlagsmithValueType, text: &str) -> FlagsmithValue {
    FlagsmithValue { value_type, value: text.to_string() }
}

fn text(s: &str) -> FlagsmithValue {
    value(FlagsmithValueType::String, s)
}

#[test]
fn test_dispatch_operator_integers() {
    assert!(dispatch_operator(&ConditionOperator::Equal, 5, 5));
    assert!(!dispatch_operator(&ConditionOperator::Equal, 5, 6));
    assert!(dispatch_operator(&ConditionOperator::GreaterThan, 6, 5));
    assert!(!dispatch_operator(&ConditionOperator::GreaterThan, 5, 6));
}

#[test]
fn test_evaluate_modulo() {
    assert!(evaluate_modulo("2", "2|0"));
    assert!(!evaluate_modulo("3", "2|0"));
    assert!(evaluate_modulo("35.0", "4|3"));
}

#[test]
fn dispatch_operator_covers_every_comparison() {
    assert!(dispatch_operator(&ConditionOperator::NotEqual, 5, 6));
    assert!(!dispatch_operator(&ConditionOperator::NotEqual, 5, 5));
    assert!(dispatch_operator(&ConditionOperator::LessThan, 5, 6));
    assert!(!dispatch_operator(&ConditionOperator::LessThan, 5, 5));
    assert!(dispatch_operator(&ConditionOperator::GreaterThanInclusive, 5, 5));
    assert!(!dispatch_operator(&ConditionOperator::GreaterThanInclusive, 4, 5));
    assert!(dispatch_operator(&ConditionOperator::LessThanInclusive, 5, 5));
    assert!(!dispatch_operator(&ConditionOperator::LessThanInclusive, 6, 5));
    assert!(!dispatch_operator(&ConditionOperator::Contains, 5, 5));
    assert!(!dispatch_operator(&ConditionOperator::IsSet, 5, 5));
}

#[test]
fn modulo_with_fractions_and_failures() {
    assert!(evaluate_modulo("1.1", "2.1|1.1"));
    assert!(!evaluate_modulo("34.2", "4|3"));
    assert!(!evaluate_modulo("1", "2|0"));
    assert!(!evaluate_modulo("bar", "3|0"));
    assert!(!evaluate_modulo("1.0.0", "3|0"));
    assert!(!evaluate_modulo("false", "1|3"));
    assert!(!evaluate_modulo("4", "2"));
    assert!(!evaluate_modulo("4", "2|0|1"));
    assert!(!evaluate_modulo("4", "x|0"));
    assert!(!evaluate_modulo("4", "2|y"));
    assert!(!evaluate_modulo("4", "0|0"));
    assert!(evaluate_modulo("-7", "4|-3"));
    assert!(!evaluate_modulo("-7", "4|1"));
    assert!(evaluate_modulo("7", "-4|3"));
}

#[test]
fn modulo_tolerance_is_one_part_in_ten_billion() {
    assert!(evaluate_modulo("3.00000000005", "4|3"));
    assert!(!evaluate_modulo("3.0000000001", "4|3"));
    assert!(evaluate_modulo("2.99999999995", "4|3"));
    assert!(!evaluate_modulo("2.9999999999", "4|3"));
}

#[test]
fn a_later_version_is_greater() {
    assert!(parse_and_match(&ConditionOperator::GreaterThan, &text("1.0.1"), "1.0.0:semver"));
    assert!(compare_string(&ConditionOperator::GreaterThan, "1.0.1", "1.0.0:semver"));
}

#[test]
fn thirty_five_leaves_three_when_divided_by_four() {
    assert!(parse_and_match(
        &ConditionOperator::Modulo,
        &value(FlagsmithValueType::Float, "35.0"),
        "4|3"
    ));
    assert!(parse_and_match(&ConditionOperator::Modulo, &text("35.0"), "4|3"));
}

#[test]
fn semver_comparisons() {
    let cases: Vec<(ConditionOperator, &str, &str, bool)> = vec![
        (ConditionOperator::Equal, "1.0.0", "1.0.0:semver", true),
        (ConditionOperator::Equal, "1.0.0", "1.0.1:semver", false),
        (ConditionOperator::NotEqual, "1.0.0", "1.0.1:semver", true),
        (ConditionOperator::NotEqual, "1.0.0", "1.0.0:semver", false),
        (ConditionOperator::GreaterThan, "1.0.1", "1.0.1:semver", false),
        (ConditionOperator::GreaterThan, "1.0.0", "1.0.0-beta:semver", true),
        (ConditionOperator::GreaterThan, "1.0.1", "1.0.2-beta:semver", false),
        (ConditionOperator::GreaterThan, "1.2.3", "1.2.3-pre.2+build.4:semver", true),
        (ConditionOperator::LessThan, "1.0.1", "1.0.2:semver", true),
        (ConditionOperator::LessThan, "1.0.1", "1.0.1:semver", false),
        (ConditionOperator::LessThan, "1.0.2", "1.0.1:semver", false),
        (ConditionOperator::LessThan, "1.0.0-rc.2", "1.0.0-rc.3:semver", true),
        (ConditionOperator::GreaterThanInclusive, "1.0.1", "1.0.0:semver", true),
        (ConditionOperator::GreaterThanInclusive, "1.0.1", "1.0.1:semver", true),
        (ConditionOperator::GreaterThanInclusive, "1.0.1", "1.0.2-beta:semver", false),
        (ConditionOperator::LessThanInclusive, "1.0.1", "1.0.2:semver", true),
        (ConditionOperator::LessThanInclusive, "1.0.1", "1.0.1:semver", true),
        (ConditionOperator::LessThanInclusive, "1.0.2", "1.0.1:semver", false),
        (ConditionOperator::LessThanInclusive, "1.0.0-rc.2", "1.0.0-rc.3:semver", true),
    ];
    for (operator, trait_value, condition_value, expected) in cases {
        assert_eq!(
            compare_string(&operator, trait_value, condition_value),
            expected,
            "{:?} {} {}",
            operator,
            trait_value,
            condition_value
        );
    }
}

#[test]
fn semver_that_does_not_parse_matches_nothing() {
    assert!(!compare_string(&ConditionOperator::Equal, "1.0", "1.0:semver"));
    assert!(!compare_string(&ConditionOperator::NotEqual, "1.0", "1.0.0:semver"));
    assert!(!compare_string(&ConditionOperator::NotEqual, "1.0.0", "x:semver"));
    assert!(!evaluate_semver(&ConditionOperator::Equal, "one", "1.0.0"));
    assert!(evaluate_semver(&ConditionOperator::Equal, "1.0.0", "1.0.0"));
    assert!(!compare_string(&ConditionOperator::Contains, "1.0.0", "1.0.0:semver"));
}

#[test]
fn versions_are_compared_whatever_the_tag_of_the_value() {
    for value_type in [FlagsmithValueType::String, FlagsmithValueType::Integer, FlagsmithValueType::Float, FlagsmithValueType::Bool, FlagsmithValueType::Null] {
        assert!(parse_and_match(&ConditionOperator::GreaterThan, &value(value_type, "1.0.1"), "1.0.0:semver"));
        assert!(!parse_and_match(&ConditionOperator::Equal, &value(value_type, "1.0.1"), "1.0.0:semver"));
        assert!(!parse_and_match(&ConditionOperator::Equal, &value(value_type, "1"), "1:semver"));
    }
    assert!(!parse_and_match(&ConditionOperator::Equal, &value(FlagsmithValueType::Integer, "1"), "1.0.0:semver"));
    assert!(!parse_and_match(&ConditionOperator::NotEqual, &value(FlagsmithValueType::Bool, "true"), "true:semver"));
}

#[test]
fn semver_verdict_follows_the_order() {
    assert!(semver_verdict(&ConditionOperator::GreaterThan, Some(1)));
    assert!(!semver_verdict(&ConditionOperator::GreaterThan, Some(0)));
    assert!(semver_verdict(&ConditionOperator::LessThan, Some(-1)));
    assert!(semver_verdict(&ConditionOperator::Equal, Some(0)));
    assert!(semver_verdict(&ConditionOperator::NotEqual, Some(-1)));
    assert!(!semver_verdict(&ConditionOperator::Equal, None));
    assert!(!semver_verdict(&ConditionOperator::NotEqual, None));
}

#[test]
fn regex_matches_anywhere_and_bad_patterns_match_nothing() {
    assert!(evaluate_regex("foo", "[a-z]+"));
    assert!(evaluate_regex("123foo", "[a-z]+"));
    assert!(!evaluate_regex("123", "[a-z]+"));
    assert!(!evaluate_regex("foo", "^o"));
    assert!(!evaluate_regex("foo", "foo("));
    assert!(parse_and_match(&ConditionOperator::Regex, &text("user@example.com"), r"^.+@example\.com$"));
    assert!(regex_verdict(Some(true)));
    assert!(!regex_verdict(Some(false)));
    assert!(!regex_verdict(None));
}

#[test]
fn contains_and_not_contains_are_opposites() {
    let cases = [("bar", "b"), ("bar", "bar"), ("bar", "baz"), ("bar", ""), ("", ""), ("", "a"), ("barn", "arn")];
    for (hay, needle) in cases {
        let contains = parse_and_match(&ConditionOperator::Contains, &text(hay), needle);
        let not_contains = parse_and_match(&ConditionOperator::NotContains, &text(hay), needle);
        assert_eq!(contains, hay.contains(needle));
        assert_eq!(contains, !not_contains);
    }
    assert!(parse_and_match(
        &ConditionOperator::Contains,
        &value(FlagsmithValueType::Integer, "1234"),
        "23"
    ));
}

#[test]
fn equal_and_not_equal_are_opposites_where_the_comparison_is_defined() {
    let cases = [
        (value(FlagsmithValueType::String, "bar"), "bar"),
        (value(FlagsmithValueType::String, "bar"), "baz"),
        (value(FlagsmithValueType::Integer, "1"), "1"),
        (value(FlagsmithValueType::Integer, "1"), "2"),
        (value(FlagsmithValueType::Float, "1.23"), "1.23"),
        (value(FlagsmithValueType::Float, "1.23"), "1.25"),
        (value(FlagsmithValueType::Bool, "true"), "true"),
        (value(FlagsmithValueType::Bool, "true"), "false"),
        (value(FlagsmithValueType::String, "1.0.0"), "1.0.0:semver"),
        (value(FlagsmithValueType::String, "1.0.0"), "1.0.1:semver"),
    ];
    for (trait_value, condition_value) in cases {
        let equal = parse_and_match(&ConditionOperator::Equal, &trait_value, condition_value);
        let not_equal = parse_and_match(&ConditionOperator::NotEqual, &trait_value, condition_value);
        assert_eq!(equal, !not_equal, "{:?} {}", trait_value, condition_value);
    }
}

#[test]
fn equal_and_not_equal_both_fail_where_the_comparison_is_not_defined() {
    let cases = [
        (value(FlagsmithValueType::Integer, "1"), "x"),
        (value(FlagsmithValueType::Integer, "x"), "1"),
        (value(FlagsmithValueType::Float, "1.5"), "abc"),
        (value(FlagsmithValueType::Bool, "true"), "0"),
        (value(FlagsmithValueType::Null, ""), ""),
        (value(FlagsmithValueType::String, "1.0"), "1.0.0:semver"),
    ];
    for (trait_value, condition_value) in cases {
        assert!(!parse_and_match(&ConditionOperator::Equal, &trait_value, condition_value));
        assert!(!parse_and_match(&ConditionOperator::NotEqual, &trait_value, condition_value));
    }
}

#[test]
fn booleans_parse_with_and_without_numbers() {
    assert_eq!(parse_bool("true", true), Some(true));
    assert_eq!(parse_bool("TRUE", false), Some(true));
    assert_eq!(parse_bool("True", false), Some(true));
    assert_eq!(parse_bool("false", true), Some(false));
    assert_eq!(parse_bool("FALSE", false), Some(false));
    assert_eq!(parse_bool("1", true), Some(true));
    assert_eq!(parse_bool("1", false), None);
    assert_eq!(parse_bool("0", true), None);
    assert_eq!(parse_bool("0", false), None);
    assert_eq!(parse_bool("", true), None);
    assert_eq!(parse_bool("yes", true), None);
    assert_eq!(parse_bool(" true", true), None);
}

#[test]
fn boolean_values_compare_by_equality_only() {
    assert!(compare_bool(&ConditionOperator::Equal, "true", "true"));
    assert!(compare_bool(&ConditionOperator::Equal, "false", "false"));
    assert!(!compare_bool(&ConditionOperator::Equal, "true", "false"));
    assert!(compare_bool(&ConditionOperator::NotEqual, "true", "false"));
    assert!(!compare_bool(&ConditionOperator::NotEqual, "false", "false"));
    assert!(compare_bool(&ConditionOperator::Equal, "1", "true"));
    assert!(compare_bool(&ConditionOperator::Equal, "true", "1"));
    assert!(!compare_bool(&ConditionOperator::Equal, "0", "false"));
    assert!(!compare_bool(&ConditionOperator::NotEqual, "0", "true"));
    assert!(!compare_bool(&ConditionOperator::GreaterThan, "true", "false"));
    assert!(!compare_bool(&ConditionOperator::LessThanInclusive, "true", "true"));
    assert!(dispatch_equality(&ConditionOperator::Equal, true, true));
    assert!(dispatch_equality(&ConditionOperator::NotEqual, true, false));
    assert!(!dispatch_equality(&ConditionOperator::GreaterThan, true, false));
}

#[test]
fn integer_values_compare_as_numbers() {
    assert!(compare_integer(&ConditionOperator::Equal, "1", "1"));
    assert!(!compare_integer(&ConditionOperator::Equal, "1", "2"));
    assert!(compare_integer(&ConditionOperator::GreaterThan, "10", "9"));
    assert!(compare_integer(&ConditionOperator::LessThan, "-10", "9"));
    assert!(compare_integer(&ConditionOperator::Equal, "+5", "5"));
    assert!(compare_integer(&ConditionOperator::Equal, "007", "7"));
    assert!(compare_integer(&ConditionOperator::LessThan, "-9223372036854775808", "9223372036854775807"));
    assert!(!compare_integer(&ConditionOperator::Equal, "9223372036854775808", "9223372036854775808"));
    assert!(!compare_integer(&ConditionOperator::Equal, "1.0", "1"));
    assert!(!compare_integer(&ConditionOperator::Equal, "", ""));
    assert!(!compare_integer(&ConditionOperator::Equal, "-", "-"));
    assert!(!compare_integer(&ConditionOperator::Equal, " 1", "1"));
}

#[test]
fn decimal_values_compare_as_numbers() {
    assert!(compare_float(&ConditionOperator::Equal, "1.23", "1.23"));
    assert!(!compare_float(&ConditionOperator::Equal, "1.23", "1.25"));
    assert!(compare_float(&ConditionOperator::Equal, "1.50", "1.5"));
    assert!(compare_float(&ConditionOperator::Equal, "2", "2.0"));
    assert!(compare_float(&ConditionOperator::Equal, "-0.0", "0"));
    assert!(compare_float(&ConditionOperator::GreaterThan, "2.1", "2.0"));
    assert!(!compare_float(&ConditionOperator::GreaterThan, "2.1", "2.2"));
    assert!(!compare_float(&ConditionOperator::GreaterThan, "2.0", "2.0"));
    assert!(compare_float(&ConditionOperator::GreaterThanInclusive, "2.0", "2.0"));
    assert!(compare_float(&ConditionOperator::LessThan, "2.0", "2.1"));
    assert!(compare_float(&ConditionOperator::LessThanInclusive, "2.2", "2.3"));
    assert!(!compare_float(&ConditionOperator::LessThanInclusive, "2.1", "2.0"));
    assert!(compare_float(&ConditionOperator::LessThan, "-1.5", ".5"));
    assert!(!compare_float(&ConditionOperator::Equal, "abc", "1.0"));
    assert!(!compare_float(&ConditionOperator::Equal, "1.0", "."));
}

#[test]
fn text_values_fall_back_from_booleans_to_integers_to_decimals_to_texts() {
    assert!(compare_string(&ConditionOperator::Equal, "true", "TRUE"));
    assert!(compare_string(&ConditionOperator::NotEqual, "true", "false"));
    assert!(!compare_string(&ConditionOperator::GreaterThan, "true", "false"));
    assert!(compare_string(&ConditionOperator::GreaterThan, "10", "9"));
    assert!(compare_string(&ConditionOperator::Equal, "1", "1.0"));
    assert!(compare_string(&ConditionOperator::Equal, "1.50", "1.5"));
    assert!(compare_string(&ConditionOperator::LessThan, "10a", "9a"));
    assert!(compare_string(&ConditionOperator::LessThan, "abc", "abd"));
    assert!(compare_string(&ConditionOperator::LessThan, "ab", "abc"));
    assert!(compare_string(&ConditionOperator::GreaterThan, "b", "abc"));
    assert!(compare_string(&ConditionOperator::Equal, "bar", "bar"));
    assert!(!compare_string(&ConditionOperator::Equal, "bar", "baz"));
    assert!(compare_string(&ConditionOperator::NotEqual, "bar", "baz"));
    assert!(compare_string(&ConditionOperator::GreaterThanInclusive, "bar", "bar"));
    assert!(compare_string(&ConditionOperator::LessThanInclusive, "", "a"));
    assert!(!compare_string(&ConditionOperator::Equal, "1", "true"));
    assert!(compare_string(&ConditionOperator::Equal, "a@b", "a@b"));
}

#[test]
fn values_without_tag_match_nothing() {
    let nothing = value(FlagsmithValueType::Null, "");
    assert!(!parse_and_match(&ConditionOperator::Equal, &nothing, ""));
    assert!(!parse_and_match(&ConditionOperator::NotEqual, &nothing, "x"));
    assert!(!parse_and_match(&ConditionOperator::GreaterThan, &nothing, "x"));
    assert!(!parse_and_match(&ConditionOperator::In, &text("a"), "a"));
    assert!(!parse_and_match(&ConditionOperator::IsSet, &text("a"), "a"));
    assert!(!parse_and_match(&ConditionOperator::PercentageSplit, &text("a"), "100"));
}

fn in_condition(value: ConditionValue) -> Condition {
    Condition { operator: ConditionOperator::In, property: "p".to_string(), value }
}

#[test]
fn in_matches_items_of_a_text_or_of_a_list() {
    let single = in_condition(ConditionValue::Single("foo, bar ,baz".to_string()));
    assert!(match_in_operator(&single, Some(&text("foo"))));
    assert!(match_in_operator(&single, Some(&text("bar"))));
    assert!(match_in_operator(&single, Some(&text("baz"))));
    assert!(!match_in_operator(&single, Some(&text("ba"))));
    assert!(!match_in_operator(&single, Some(&text("foo, bar"))));
    assert!(!match_in_operator(&single, None));
    let list = in_condition(ConditionValue::Multiple(vec!["foo, bar".to_string(), " x".to_string()]));
    assert!(match_in_operator(&list, Some(&text("foo, bar"))));
    assert!(match_in_operator(&list, Some(&text(" x"))));
    assert!(!match_in_operator(&list, Some(&text("x"))));
    assert!(!match_in_operator(&list, Some(&text("foo"))));
    let empty = in_condition(ConditionValue::Single("".to_string()));
    assert!(!match_in_operator(&empty, Some(&text("foo"))));
    assert!(match_in_operator(&empty, Some(&text(""))));
    let none = in_condition(ConditionValue::Multiple(vec![]));
    assert!(!match_in_operator(&none, Some(&text(""))));
}

#[test]
fn in_never_holds_of_booleans_and_floats() {
    let numbers = in_condition(ConditionValue::Single("1,2,3,4,1.5,false,true".to_string()));
    assert!(match_in_operator(&numbers, Some(&value(FlagsmithValueType::Integer, "1"))));
    assert!(!match_in_operator(&numbers, Some(&value(FlagsmithValueType::Integer, "5"))));
    assert!(!match_in_operator(&numbers, Some(&value(FlagsmithValueType::Float, "1.5"))));
    assert!(!match_in_operator(&numbers, Some(&value(FlagsmithValueType::Bool, "false"))));
    assert!(!match_in_operator(&numbers, Some(&value(FlagsmithValueType::Bool, "true"))));
    assert!(match_in_operator(&numbers, Some(&text("1.5"))));
}

#[test]
fn percentages_compare_with_thresholds_exactly() {
    let half = HashedPercentage::from_position(4999);
    assert!(percentage_within(half, &Decimal::parse("50").unwrap()));
    assert!(percentage_within(half, &Decimal::parse("50.0").unwrap()));
    assert!(!percentage_within(half, &Decimal::parse("49.999999999999999999").unwrap()));
    let full = HashedPercentage::from_position(9998);
    assert!(percentage_within(full, &Decimal::parse("100").unwrap()));
    assert!(!percentage_within(full, &Decimal::parse("99.99").unwrap()));
    assert!(percentage_within(full, &Decimal::parse("1000000").unwrap()));
    let none = HashedPercentage::from_position(0);
    assert!(percentage_within(none, &Decimal::parse("0").unwrap()));
    assert!(!percentage_within(none, &Decimal::parse("-0.000000000000000001").unwrap()));
    let one = HashedPercentage::from_position(1);
    assert!(!percentage_within(one, &Decimal::parse("0.01").unwrap()));
    assert!(percentage_within(one, &Decimal::parse("0.010002000400080017").unwrap()));
    assert!(!percentage_within(one, &Decimal::parse("0.010002000400080016").unwrap()));
}
