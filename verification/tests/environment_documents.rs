use flagsmith_flag_engine::decimal::Decimal;
use flagsmith_flag_engine::environments::{Environment, EnvironmentAPIKey};
use flagsmith_flag_engine::features::{
    select_option, Feature, FeatureSegment, FeatureState, MultivariateFeatureOption,
    MultivariateFeatureStateValue,
};
use flagsmith_flag_engine::identities::{Identity, Trait};
use flagsmith_flag_engine::organisations::{id_text, Organisation};
use flagsmith_flag_engine::projects::Project;
use flagsmith_flag_engine::segments::constants;
use flagsmith_flag_engine::segments::evaluator::{
    evaluate_identity_in_segment, get_identity_segments, traits_match_segment_condition,
};
use flagsmith_flag_engine::segments::{parse_strict_bool, Segment, SegmentCondition, SegmentRule};
use flagsmith_flag_engine::types::FlagsmithValueType::{Bool, Float, Integer, Null};
use flagsmith_flag_engine::types::{FlagsmithValue, FlagsmithValueType};
use flagsmith_flag_engine::utils::datetime::deserialize;
use flagsmith_flag_engine::utils::hashing::HashedPercentage;

fn api_key(active: bool, expires_at: Option<i64>) -> EnvironmentAPIKey {
    EnvironmentAPIKey {
        id: 1,
        key: "ser.test_key".to_string(),
        active,
        created_at: 1646224265309861,
        name: "api key 1".to_string(),
        client_api_key: "client_key".to_string(),
        expires_at,
    }
}

#[test]
fn api_key_is_valid_returns_if_active_and_expired_is_null() {
    let api_key = api_key(true, None);

    assert!(api_key.is_valid())
}

#[test]
fn api_key_is_valid_returns_false_if_active_is_false() {
    let api_key = api_key(false, None);

    assert_eq!(api_key.is_valid(), false)
}

#[test]
fn api_key_is_valid_returns_false_if_active_is_true_but_key_is_expired() {
    let api_key = api_key(true, deserialize("2022-03-02T12:32:05.309861+00:00"));
    assert_eq!(api_key.expires_at, Some(1646224325309861));

    assert_eq!(api_key.is_valid(), false)
}

#[test]
fn api_key_validity_at_a_given_time() {
    let key = api_key(true, Some(100));
    assert!(key.is_valid_at(99));
    assert!(!key.is_valid_at(100));
    assert!(!key.is_valid_at(101));
    assert!(api_key(true, None).is_valid_at(i64::MAX));
    assert!(!api_key(false, Some(100)).is_valid_at(0));
    assert!(api_key(true, Some(i64::MAX)).is_valid());
}

#[test]
fn dates_are_read_with_or_without_time_zone() {
    assert_eq!(deserialize("2021-11-29T17:15:51.694223Z"), Some(1638206151694223));
    assert_eq!(deserialize("2021-11-29T17:15:51.694223"), Some(1638206151694223));
    assert_eq!(deserialize("2021-11-29T17:15:51.694223+00:00"), Some(1638206151694223));
    assert_eq!(deserialize("2021-11-29T18:15:51.694223+01:00"), Some(1638206151694223));
    assert_eq!(deserialize("1970-01-01T00:00:00Z"), Some(0));
    assert_eq!(deserialize("1969-12-31T23:59:59.999999Z"), Some(-1));
    assert_eq!(deserialize("yesterday"), None);
    assert_eq!(deserialize(""), None);
    assert_eq!(deserialize("2021-11-29"), None);
}

fn feature_state() -> FeatureState {
    FeatureState {
        feature: Feature { id: 1, name: "feature1".to_string(), feature_type: None },
        enabled: false,
        django_id: Some(1),
        feature_segment: None,
        featurestate_uuid: "a6ff815f-63ed-4e72-99dc-9124c442ce4d".to_string(),
        multivariate_feature_state_values: vec![],
        value: FlagsmithValue { value_type: FlagsmithValueType::Integer, value: "1".to_string() },
    }
}

#[test]
fn feature_state_is_higher_segment_priority() {
    let mut feature_state_1 = feature_state();
    let mut feature_state_2 = feature_state();

    // Firstly, since both fs do not have feature segment this should be false
    assert_eq!(feature_state_1.is_higher_segment_priority(&feature_state_2), false);
    assert_eq!(feature_state_2.is_higher_segment_priority(&feature_state_1), false);

    // Now add feature_segment to feature_state_2
    feature_state_2.feature_segment = Some(FeatureSegment { priority: 1 });

    // Since `feature_state_2` have a feature segment this should be false as well
    assert_eq!(feature_state_1.is_higher_segment_priority(&feature_state_2), false);
    // And, this true
    assert_eq!(feature_state_2.is_higher_segment_priority(&feature_state_1), true);

    // Next, let's add a feature segment with higher priority to `feature_state_1`
    feature_state_1.feature_segment = Some(FeatureSegment { priority: 0 });
    assert_eq!(feature_state_1.is_higher_segment_priority(&feature_state_2), true);
    assert_eq!(feature_state_2.is_higher_segment_priority(&feature_state_1), false);
}

fn identity() -> Identity {
    Identity {
        identifier: "foo".to_string(),
        identity_uuid: "".to_string(),
        identity_features: vec![],
        identity_traits: vec![],
        django_id: None,
        created_date: 0,
        environment_api_key: "test_api_key".to_string(),
    }
}

#[test]
fn composite_key_is_correct() {
    let expected_composite_key = "test_api_key_test_user";
    let mut identity = identity();
    identity.identifier = "test_user".to_string();
    identity.created_date = deserialize("2022-03-02T12:31:05.309861").unwrap();
    assert_eq!(identity.composite_key(), expected_composite_key)
}

#[test]
fn unqiue_slug_is_correct() {
    let expected_slug = "1_test_org";
    let organisation = Organisation {
        id: 1,
        name: "test_org".to_string(),
        feature_analytics: true,
        stop_serving_flags: false,
        persist_trait_data: true,
    };
    assert_eq!(organisation.unique_slug(), expected_slug)
}

#[test]
fn ids_are_written_in_decimal_digits() {
    assert_eq!(id_text(0), "0");
    assert_eq!(id_text(7), "7");
    assert_eq!(id_text(10), "10");
    assert_eq!(id_text(4294967295), "4294967295");
}

#[test]
fn new_identities_are_empty_and_fresh() {
    let first = Identity::new("user".to_string(), "key".to_string());
    let second = Identity::new("user".to_string(), "key".to_string());
    assert_eq!(first.identifier, "user");
    assert_eq!(first.environment_api_key, "key");
    assert!(first.identity_features.is_empty());
    assert!(first.identity_traits.is_empty());
    assert_eq!(first.django_id, None);
    assert_eq!(first.identity_uuid.len(), 36);
    assert!(first.identity_uuid != second.identity_uuid);
    assert!(first.created_date > 1646224265309861);
    assert_eq!(first.composite_key(), "key_user");
}

fn text(s: &str) -> FlagsmithValue {
    FlagsmithValue { value_type: FlagsmithValueType::String, value: s.to_string() }
}

fn multivariate_state() -> FeatureState {
    let option = |id: u32, value: &str| MultivariateFeatureStateValue {
        multivariate_feature_option: MultivariateFeatureOption { value: text(value), id: Some(id) },
        percentage_allocation: Decimal::from_integer(30),
        id: Some(id),
        mv_fs_value_uuid: String::new(),
    };
    let mut fs = feature_state();
    fs.enabled = true;
    fs.value = text("control");
    fs.multivariate_feature_state_values = vec![option(1, "foo"), option(2, "bar")];
    fs
}

#[test]
fn feature_state_get_value_mv_values() {
    let feature_state = multivariate_state();
    for (identity_id, expected_value) in [("2", "foo"), ("8", "bar"), ("1", "control")] {
        let value = feature_state.get_value(Some(identity_id));
        assert_eq!(value.value, expected_value.to_string());
    }
    assert_eq!(feature_state.get_value(None).value, "control");
    assert_eq!(feature_state.get_multivariate_value("2").value, "foo");
}

#[test]
fn feature_state_get_value_uses_django_id_for_multivariate_value_calculation_if_not_none() {
    let mut feature_state = multivariate_state();
    let value = feature_state.get_value(Some("1"));
    assert_eq!(value.value, "control".to_string());
    feature_state.django_id = None;
    assert_eq!(feature_state.get_value(Some("13")).value, "foo");
}

#[test]
fn multivariate_values_are_walked_in_order_of_their_keys() {
    let option = |id: Option<u32>, uuid: &str, allocation: &str| MultivariateFeatureStateValue {
        multivariate_feature_option: MultivariateFeatureOption { value: text(uuid), id: None },
        percentage_allocation: Decimal::parse(allocation).unwrap(),
        id,
        mv_fs_value_uuid: uuid.to_string(),
    };
    let vs = vec![option(Some(9), "", "10"), option(Some(10), "", "20"), option(None, "5", "30"), option(None, "b", "-5")];
    let at = |position: u32| select_option(&vs, HashedPercentage::from_position(position));
    assert_eq!(at(0), Some(1));
    assert_eq!(at(1999), Some(1));
    assert_eq!(at(2000), Some(2));
    assert_eq!(at(4998), Some(2));
    assert_eq!(at(4999), Some(0));
    assert_eq!(at(5000), Some(0));
    assert_eq!(at(5998), Some(0));
    assert_eq!(at(5999), None);
    assert_eq!(at(9998), None);
    assert_eq!(select_option(&vec![], HashedPercentage::from_position(0)), None);
}

const TRAIT_KEY_1: &str = "email";
const TRAIT_VALUE_1: &str = "user@example.com";
const TRAIT_KEY_2: &str = "num_purchase";
const TRAIT_VALUE_2: &str = "12";
const TRAIT_KEY_3: &str = "date_joined";
const TRAIT_VALUE_3: &str = "2021-01-01";

fn a_trait(key: &str, value: &str) -> Trait {
    Trait { trait_key: key.to_string(), trait_value: text(value) }
}

fn trait_1() -> Trait {
    a_trait(TRAIT_KEY_1, TRAIT_VALUE_1)
}

fn trait_2() -> Trait {
    a_trait(TRAIT_KEY_2, TRAIT_VALUE_2)
}

fn trait_3() -> Trait {
    a_trait(TRAIT_KEY_3, TRAIT_VALUE_3)
}

fn equal(key: &str, value: &str) -> SegmentCondition {
    SegmentCondition {
        operator: constants::EQUAL.to_string(),
        property: Some(key.to_string()),
        value: Some(value.to_string()),
    }
}

fn a_rule(kind: &str, conditions: Vec<SegmentCondition>, rules: Vec<SegmentRule>) -> SegmentRule {
    SegmentRule {
        segment_rule_type: kind.to_string(),
        rules: rules.into_iter().map(Box::new).collect(),
        conditions,
    }
}

fn a_segment(id: u32, name: &str, rules: Vec<SegmentRule>) -> Segment {
    Segment { id, name: name.to_string(), rules, feature_states: vec![] }
}

fn empty_segment() -> Segment {
    a_segment(1, "empty_segment", vec![])
}

fn segment_single_condition() -> Segment {
    a_segment(2, "segment_one_condition", vec![a_rule(constants::ALL_RULE, vec![equal(TRAIT_KEY_1, TRAIT_VALUE_1)], vec![])])
}

fn segment_multiple_conditions_all() -> Segment {
    a_segment(
        3,
        "segment_multiple_conditions_all",
        vec![a_rule(constants::ALL_RULE, vec![equal(TRAIT_KEY_1, TRAIT_VALUE_1), equal(TRAIT_KEY_2, TRAIT_VALUE_2)], vec![])],
    )
}

fn segment_multiple_conditions_any() -> Segment {
    a_segment(
        4,
        "segment_multiple_conditions_any",
        vec![a_rule(constants::ANY_RULE, vec![equal(TRAIT_KEY_1, TRAIT_VALUE_1), equal(TRAIT_KEY_2, TRAIT_VALUE_2)], vec![])],
    )
}

fn segment_nested_rules_all() -> Segment {
    a_segment(
        5,
        "segment_nested_rules_all",
        vec![a_rule(
            constants::ALL_RULE,
            vec![],
            vec![
                a_rule(constants::ALL_RULE, vec![equal(TRAIT_KEY_1, TRAIT_VALUE_1), equal(TRAIT_KEY_2, TRAIT_VALUE_2)], vec![]),
                a_rule(constants::ALL_RULE, vec![equal(TRAIT_KEY_3, TRAIT_VALUE_3)], vec![]),
            ],
        )],
    )
}

fn segment_conditions_and_nested_rules() -> Segment {
    a_segment(
        6,
        "segment_multiple_conditions_all_and_nested_rules",
        vec![a_rule(
            constants::ALL_RULE,
            vec![equal(TRAIT_KEY_1, TRAIT_VALUE_1)],
            vec![
                a_rule(constants::ALL_RULE, vec![equal(TRAIT_KEY_2, TRAIT_VALUE_2)], vec![]),
                a_rule(constants::ALL_RULE, vec![equal(TRAIT_KEY_3, TRAIT_VALUE_3)], vec![]),
            ],
        )],
    )
}

#[test]
fn test_evaluate_identity_in_segment() {
    let cases: Vec<(Segment, Vec<Trait>, bool)> = vec![
        (empty_segment(), vec![], false),
        (segment_single_condition(), vec![], false),
        (segment_single_condition(), vec![trait_1()], true),
        (segment_multiple_conditions_all(), vec![], false),
        (segment_multiple_conditions_all(), vec![trait_1()], false),
        (segment_multiple_conditions_all(), vec![trait_1(), trait_2()], true),
        (segment_multiple_conditions_any(), vec![], false),
        (segment_multiple_conditions_any(), vec![trait_1()], true),
        (segment_multiple_conditions_any(), vec![trait_2()], true),
        (segment_multiple_conditions_any(), vec![trait_1(), trait_2()], true),
        (segment_nested_rules_all(), vec![], false),
        (segment_nested_rules_all(), vec![trait_1()], false),
        (segment_nested_rules_all(), vec![trait_2()], false),
        (segment_nested_rules_all(), vec![trait_1(), trait_2()], false),
        (segment_nested_rules_all(), vec![trait_1(), trait_2(), trait_3()], true),
        (segment_conditions_and_nested_rules(), vec![], false),
        (segment_conditions_and_nested_rules(), vec![trait_1()], false),
        (segment_conditions_and_nested_rules(), vec![trait_2()], false),
        (segment_conditions_and_nested_rules(), vec![trait_1(), trait_2()], false),
        (segment_conditions_and_nested_rules(), vec![trait_1(), trait_2(), trait_3()], true),
    ];
    for (segment, identity_traits, expected_result) in cases {
        let mut identity = identity();
        identity.identity_traits = identity_traits;
        assert_eq!(
            evaluate_identity_in_segment(&identity, &segment, None),
            expected_result,
            "{}",
            segment.name
        );
    }
}

#[test]
fn override_traits_replace_the_traits_of_the_identity() {
    let mut identity = identity();
    identity.identity_traits = vec![trait_1()];
    let segment = segment_single_condition();
    assert!(evaluate_identity_in_segment(&identity, &segment, None));
    assert!(!evaluate_identity_in_segment(&identity, &segment, Some(&vec![])));
    assert!(!evaluate_identity_in_segment(&identity, &segment, Some(&vec![a_trait(TRAIT_KEY_1, "x")])));
    identity.identity_traits = vec![];
    assert!(evaluate_identity_in_segment(&identity, &segment, Some(&vec![trait_1()])));
}

#[test]
fn the_segments_of_an_identity_are_those_it_is_in() {
    let environment = Environment {
        id: 1,
        api_key: "test_api_key".to_string(),
        name: "env".to_string(),
        project: Project {
            id: 1,
            name: "project".to_string(),
            organisation: Organisation {
                id: 1,
                name: "org".to_string(),
                feature_analytics: false,
                stop_serving_flags: false,
                persist_trait_data: false,
            },
            hide_disabled_flags: false,
            segments: vec![
                empty_segment(),
                segment_single_condition(),
                segment_multiple_conditions_all(),
                segment_multiple_conditions_any(),
                segment_nested_rules_all(),
            ],
        },
        feature_states: vec![],
        identity_overrides: vec![],
    };
    let mut identity = identity();
    identity.identity_traits = vec![trait_1()];
    let names = |found: Vec<&Segment>| found.iter().map(|s| s.id).collect::<Vec<u32>>();
    assert_eq!(names(get_identity_segments(&environment, &identity, None)), vec![2, 4]);
    assert_eq!(
        names(get_identity_segments(&environment, &identity, Some(&vec![trait_1(), trait_2(), trait_3()]))),
        vec![2, 3, 4, 5]
    );
    assert_eq!(names(get_identity_segments(&environment, &identity, Some(&vec![]))), Vec::<u32>::new());
}

#[test]
fn rule_types_of_environment_documents() {
    let mut identity = identity();
    identity.identity_traits = vec![trait_1()];
    let with = |kind: &str, conditions: Vec<SegmentCondition>| a_segment(9, "s", vec![a_rule(kind, conditions, vec![])]);
    assert!(evaluate_identity_in_segment(&identity, &with("NONE", vec![equal(TRAIT_KEY_1, TRAIT_VALUE_1)]), None));
    assert!(evaluate_identity_in_segment(&identity, &with("NONE", vec![]), None));
    assert!(evaluate_identity_in_segment(&identity, &with("ALL", vec![]), None));
    assert!(!evaluate_identity_in_segment(&identity, &with("ANY", vec![]), None));
    assert!(!evaluate_identity_in_segment(&identity, &with("SOME", vec![equal(TRAIT_KEY_1, TRAIT_VALUE_1)]), None));
    assert!(!evaluate_identity_in_segment(&identity, &with("all", vec![]), None));
}

#[test]
fn trait_matches_segmnt_condition_is_and_is_not() {
    let cases = [
        (constants::IS_SET, "foo", "foo", true),
        (constants::IS_SET, "foo", "bar", false),
        (constants::IS_NOT_SET, "foo", "foo", false),
        (constants::IS_NOT_SET, "foo", "bar", true),
    ];
    for (operator, property, trait_key, expected_result) in cases {
        let condition = SegmentCondition {
            property: Some(property.to_string()),
            operator: operator.to_string(),
            value: None,
        };
        let traits = vec![Trait {
            trait_key: trait_key.to_string(),
            trait_value: FlagsmithValue { value: "".to_string(), value_type: FlagsmithValueType::Null },
        }];
        let result = traits_match_segment_condition(&traits, &condition, "1", "1");
        assert_eq!(result, expected_result);
    }
}

#[test]
fn percentage_split_of_environment_documents() {
    let split = |value: Option<&str>| SegmentCondition {
        operator: constants::PERCENTAGE_SPLIT.to_string(),
        property: None,
        value: value.map(|v| v.to_string()),
    };
    assert!(traits_match_segment_condition(&vec![], &split(Some("26.6")), "1", "2"));
    assert!(!traits_match_segment_condition(&vec![], &split(Some("26.59")), "1", "2"));
    assert!(!traits_match_segment_condition(&vec![], &split(Some("x")), "1", "2"));
    assert!(!traits_match_segment_condition(&vec![], &split(None), "1", "2"));
    let mut identity = identity();
    let segment = a_segment(2, "s", vec![a_rule("ALL", vec![split(Some("8.34"))], vec![])]);
    assert!(evaluate_identity_in_segment(&identity, &segment, None));
    identity.django_id = Some(2);
    assert!(!evaluate_identity_in_segment(&identity, &segment, None));
    let wide = a_segment(2, "s", vec![a_rule("ALL", vec![split(Some("23.01"))], vec![])]);
    assert!(evaluate_identity_in_segment(&identity, &wide, None));
}

fn holds(operator: &str, trait_value: &str, trait_value_type: FlagsmithValueType, value: &str) -> bool {
    let trait_value = FlagsmithValue { value: trait_value.to_string(), value_type: trait_value_type };
    let segment_condition = SegmentCondition {
        operator: operator.to_string(),
        value: Some(value.to_string()),
        property: Some("foo".to_string()),
    };
    segment_condition.matches_trait_value(&trait_value)
}

#[test]
fn segemnt_condition_matches_trait_value() {
    let cases = [
        (constants::EQUAL, "bar", FlagsmithValueType::String, "bar", true),
        (constants::EQUAL, "bar", FlagsmithValueType::String, "baz", false),
        (constants::EQUAL, "1", Integer, "1", true),
        (constants::EQUAL, "1", Integer, "2", false),
        (constants::EQUAL, "true", Bool, "true", true),
        (constants::EQUAL, "false", Bool, "false", true),
        (constants::EQUAL, "true", Bool, "false", false),
        (constants::EQUAL, "false", Bool, "true", false),
        (constants::EQUAL, "1.23", Float, "1.23", true),
        (constants::EQUAL, "1.23", Float, "1.25", false),
        (constants::GREATER_THAN, "2", Integer, "1", true),
        (constants::GREATER_THAN, "1", Integer, "2", false),
        (constants::GREATER_THAN, "1", Integer, "1", false),
        (constants::GREATER_THAN, "0", Integer, "1", false),
        (constants::GREATER_THAN, "2.1", Float, "2.0", true),
        (constants::GREATER_THAN, "2.1", Float, "2.2", false),
        (constants::GREATER_THAN, "2.0", Float, "2.1", false),
        (constants::GREATER_THAN, "2.0", Float, "2.0", false),
        (constants::GREATER_THAN_INCLUSIVE, "1", Integer, "1", true),
        (constants::GREATER_THAN_INCLUSIVE, "2", Integer, "1", true),
        (constants::GREATER_THAN_INCLUSIVE, "0", Integer, "1", false),
        (constants::GREATER_THAN_INCLUSIVE, "2.0", Float, "2.0", true),
        (constants::GREATER_THAN_INCLUSIVE, "2.1", Float, "2.0", true),
        (constants::GREATER_THAN_INCLUSIVE, "2.1", Float, "2.2", false),
        (constants::LESS_THAN, "2", Integer, "1", false),
        (constants::LESS_THAN, "1", Integer, "2", true),
        (constants::LESS_THAN, "1", Integer, "1", false),
        (constants::LESS_THAN, "0", Integer, "1", true),
        (constants::LESS_THAN, "2.1", Float, "2.0", false),
        (constants::LESS_THAN, "2.1", Float, "2.2", true),
        (constants::LESS_THAN, "2.0", Float, "2.1", true),
        (constants::LESS_THAN, "2.0", Float, "2.0", false),
        (constants::LESS_THAN_INCLUSIVE, "1", Integer, "1", true),
        (constants::LESS_THAN_INCLUSIVE, "2", Integer, "1", false),
        (constants::LESS_THAN_INCLUSIVE, "1", Integer, "2", true),
        (constants::LESS_THAN_INCLUSIVE, "2.0", Float, "2.0", true),
        (constants::LESS_THAN_INCLUSIVE, "2.1", Float, "2.0", false),
        (constants::LESS_THAN_INCLUSIVE, "2.2", Float, "2.3", true),
        (constants::NOT_EQUAL, "bar", FlagsmithValueType::String, "bar", false),
        (constants::NOT_EQUAL, "bar", FlagsmithValueType::String, "baz", true),
        (constants::NOT_EQUAL, "1", Integer, "1", false),
        (constants::NOT_EQUAL, "1", Integer, "2", true),
        (constants::NOT_EQUAL, "true", Bool, "true", false),
        (constants::NOT_EQUAL, "false", Bool, "false", false),
        (constants::NOT_EQUAL, "true", Bool, "false", true),
        (constants::NOT_EQUAL, "false", Bool, "true", true),
        (constants::NOT_EQUAL, "1.23", Float, "1.23", false),
        (constants::NOT_EQUAL, "1.23", Float, "1.25", true),
        (constants::CONTAINS, "bar", FlagsmithValueType::String, "b", true),
        (constants::CONTAINS, "bar", FlagsmithValueType::String, "bar", true),
        (constants::CONTAINS, "bar", FlagsmithValueType::String, "baz", false),
        (constants::NOT_CONTAINS, "bar", FlagsmithValueType::String, "b", false),
        (constants::NOT_CONTAINS, "bar", FlagsmithValueType::String, "bar", false),
        (constants::NOT_CONTAINS, "bar", FlagsmithValueType::String, "baz", true),
        (constants::REGEX, "foo", FlagsmithValueType::String, r"[a-z]+", true),
        (constants::IN, "foo", FlagsmithValueType::String, "", false),
        (constants::IN, "foo", FlagsmithValueType::String, "foo,bar", true),
        (constants::IN, "bar", FlagsmithValueType::String, "foo,bar", true),
        (constants::IN, "ba", FlagsmithValueType::String, "foo,bar", false),
        (constants::IN, "foo", FlagsmithValueType::String, "foo", true),
        (constants::IN, "1", Integer, "1,2,3,4", true),
        (constants::IN, "1", Integer, "", false),
        (constants::IN, "1", Integer, "1", true),
        (constants::IN, "1.5", Float, "1.5", false),
        (constants::IN, "false", Bool, "false", false),
    ];
    for (operator, trait_value, trait_value_type, value, result) in cases {
        assert_eq!(
            holds(operator, trait_value, trait_value_type, value),
            result,
            "{} {} {}",
            operator,
            trait_value,
            value
        );
    }
}

#[test]
fn segemnt_condition_matches_trait_value_semver() {
    let cases = [
        (constants::EQUAL, "1.0.0", "1.0.0:semver", true),
        (constants::EQUAL, "1.0.0", "1.0.1:semver", false),
        (constants::NOT_EQUAL, "1.0.0", "1.0.1:semver", true),
        (constants::NOT_EQUAL, "1.0.0", "1.0.0:semver", false),
        (constants::GREATER_THAN, "1.0.1", "1.0.0:semver", true),
        (constants::GREATER_THAN, "1.0.1", "1.0.1:semver", false),
        (constants::GREATER_THAN, "1.0.0", "1.0.0-beta:semver", true),
        (constants::GREATER_THAN, "1.0.1", "1.0.2-beta:semver", false),
        (constants::GREATER_THAN, "1.2.3", "1.2.3-pre.2+build.4:semver", true),
        (constants::LESS_THAN, "1.0.1", "1.0.2:semver", true),
        (constants::LESS_THAN, "1.0.1", "1.0.1:semver", false),
        (constants::LESS_THAN, "1.0.2", "1.0.1:semver", false),
        (constants::LESS_THAN, "1.0.0-rc.2", "1.0.0-rc.3:semver", true),
        (constants::GREATER_THAN_INCLUSIVE, "1.0.1", "1.0.0:semver", true),
        (constants::GREATER_THAN_INCLUSIVE, "1.0.1", "1.0.1:semver", true),
        (constants::GREATER_THAN_INCLUSIVE, "1.0.1", "1.0.2-beta:semver", false),
        (constants::GREATER_THAN_INCLUSIVE, "1.2.3", "1.2.3-pre.2+build.4:semver", true),
        (constants::LESS_THAN_INCLUSIVE, "1.0.1", "1.0.2:semver", true),
        (constants::LESS_THAN_INCLUSIVE, "1.0.1", "1.0.1:semver", true),
        (constants::LESS_THAN_INCLUSIVE, "1.0.2", "1.0.1:semver", false),
        (constants::LESS_THAN_INCLUSIVE, "1.0.0-rc.2", "1.0.0-rc.3:semver", true),
    ];
    for (operator, trait_value, value, result) in cases {
        assert_eq!(holds(operator, trait_value, FlagsmithValueType::String, value), result);
    }
}

#[test]
fn segment_condition_matches_trait_value_modulo() {
    let cases = [
        ("1", Integer, "2|0", false),
        ("1.1", Float, "2.1|1.1", true),
        ("2", Integer, "2|0", true),
        ("3", Integer, "2|0", false),
        ("34.2", Float, "4|3", false),
        ("35.0", Float, "4|3", true),
        ("bar", FlagsmithValueType::String, "3|0", false),
        ("1.0.0", FlagsmithValueType::String, "3|0", false),
        ("false", Bool, "1|3", false),
    ];
    for (trait_value, trait_value_type, value, result) in cases {
        assert_eq!(holds(constants::MODULO, trait_value, trait_value_type, value), result);
    }
}

#[test]
fn conditions_that_cannot_be_read_hold_of_nothing() {
    assert!(!holds(constants::EQUAL, "x", Integer, "1"));
    assert!(!holds(constants::EQUAL, "1", Integer, "x"));
    assert!(!holds(constants::EQUAL, "1.5", Float, "x"));
    assert!(!holds(constants::EQUAL, "TRUE", Bool, "true"));
    assert!(!holds(constants::EQUAL, "1", Bool, "true"));
    assert!(!holds(constants::EQUAL, "1.0", FlagsmithValueType::String, "1.0.0:semver"));
    assert!(!holds(constants::REGEX, "foo", FlagsmithValueType::String, "foo("));
    assert!(!holds(constants::GREATER_THAN, "b", FlagsmithValueType::String, "a"));
    assert!(!holds(constants::EQUAL, "", Null, ""));
    assert!(!holds("UNKNOWN", "1", Integer, "1"));
    assert!(!holds(constants::MODULO, "3.0000000001", Float, "4|3"));
    let without_value = SegmentCondition { operator: "EQUAL".to_string(), value: None, property: None };
    assert!(!without_value.matches_trait_value(&text("")));
    assert_eq!(parse_strict_bool("true"), Some(true));
    assert_eq!(parse_strict_bool("false"), Some(false));
    assert_eq!(parse_strict_bool("True"), None);
    assert_eq!(parse_strict_bool("1"), None);
}
