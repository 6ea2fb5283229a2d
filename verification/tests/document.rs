use flagsmith_flag_engine::decimal::Decimal;
use flagsmith_flag_engine::engine_eval::context::{
    Condition, ConditionOperator, ConditionValue, EngineEvaluationContext, EnvironmentContext,
    FeatureContext, FeatureMetadata, FeatureValue, IdentityContext, Priority, SegmentContext,
    SegmentMetadata, SegmentRule, SegmentRuleType, SegmentSource,
};
use flagsmith_flag_engine::engine_eval::document::render_context;
use flagsmith_flag_engine::engine_eval::segment_evaluator::{
    get_context_value, get_identity_key, get_value_from_jsonpath,
};
use flagsmith_flag_engine::json::{first_value, value_of_node, JsonKind};
use flagsmith_flag_engine::maps::StringMap;
use flagsmith_flag_engine::types::{FlagsmithValue, FlagsmithValueType};

fn value(value_type: FlagsmithValueType, text: &str) -> FlagsmithValue {
    FlagsmithValue { value_type, value: text.to_string() }
}

fn sample() -> EngineEvaluationContext {
    let mut features = StringMap::new();
    features.insert(
        "f".to_string(),
        FeatureContext {
            key: "1".to_string(),
            name: "f".to_string(),
            enabled: true,
            value: value(FlagsmithValueType::String, "a \"b\"\\\n"),
            priority: Some(Priority::Level(Decimal::parse("1.5").unwrap())),
            variants: vec![
                FeatureValue {
                    value: value(FlagsmithValueType::Integer, "-3"),
                    weight: Decimal::from_integer(30),
                    priority: None,
                },
                FeatureValue {
                    value: value(FlagsmithValueType::Bool, "true"),
                    weight: Decimal::parse("0.25").unwrap(),
                    priority: Some(Priority::Strongest),
                },
            ],
            metadata: FeatureMetadata { feature_id: 12 },
        },
    );
    let mut segments = StringMap::new();
    segments.insert(
        "7".to_string(),
        SegmentContext {
            key: "7".to_string(),
            name: "seven".to_string(),
            metadata: SegmentMetadata { segment_id: Some(7), source: SegmentSource::Api },
            overrides: vec![FeatureContext {
                key: String::new(),
                name: "f".to_string(),
                enabled: false,
                value: value(FlagsmithValueType::Null, ""),
                priority: None,
                variants: vec![],
                metadata: FeatureMetadata { feature_id: 12 },
            }],
            rules: vec![SegmentRule {
                rule_type: SegmentRuleType::Any,
                conditions: vec![
                    Condition {
                        operator: ConditionOperator::In,
                        property: "$.identity.identifier".to_string(),
                        value: ConditionValue::Multiple(vec!["a".to_string(), "b".to_string()]),
                    },
                    Condition {
                        operator: ConditionOperator::GreaterThanInclusive,
                        property: "age".to_string(),
                        value: ConditionValue::Single("21".to_string()),
                    },
                ],
                rules: vec![SegmentRule {
                    rule_type: SegmentRuleType::NoneOf,
                    conditions: vec![],
                    rules: vec![],
                }],
            }],
        },
    );
    let mut traits = StringMap::new();
    traits.insert("age".to_string(), value(FlagsmithValueType::Integer, "21"));
    traits.insert("height".to_string(), value(FlagsmithValueType::Float, "1.80"));
    traits.insert("tall".to_string(), value(FlagsmithValueType::Bool, "false"));
    traits.insert("odd".to_string(), value(FlagsmithValueType::Integer, "x"));
    EngineEvaluationContext {
        environment: EnvironmentContext { key: "key".to_string(), name: "My \u{1}env".to_string() },
        features,
        segments,
        identity: Some(IdentityContext {
            identifier: "ann".to_string(),
            key: String::new(),
            traits,
        }),
    }
}

#[test]
fn the_context_is_written_as_a_json_document() {
    let expected = [
        "{\"environment\":{\"key\":\"key\",\"name\":\"My \\u0001env\"},",
        "\"features\":{\"f\":{\"key\":\"1\",\"name\":\"f\",\"enabled\":true,",
        "\"value\":\"a \\\"b\\\"\\\\\\n\",\"priority\":1.5,",
        "\"variants\":[{\"value\":-3,\"weight\":30.0},",
        "{\"value\":true,\"weight\":0.25,\"priority\":null}],",
        "\"metadata\":{\"feature_id\":12}}},",
        "\"segments\":{\"7\":{\"key\":\"7\",\"name\":\"seven\",",
        "\"metadata\":{\"segment_id\":7,\"source\":\"api\"},",
        "\"overrides\":[{\"key\":\"\",\"name\":\"f\",\"enabled\":false,\"value\":null,",
        "\"metadata\":{\"feature_id\":12}}],",
        "\"rules\":[{\"type\":\"ANY\",\"conditions\":[",
        "{\"operator\":\"IN\",\"property\":\"$.identity.identifier\",\"value\":[\"a\",\"b\"]},",
        "{\"operator\":\"GREATER_THAN_INCLUSIVE\",\"property\":\"age\",\"value\":\"21\"}],",
        "\"rules\":[{\"type\":\"NONE\",\"conditions\":[],\"rules\":[]}]}]}},",
        "\"identity\":{\"identifier\":\"ann\",\"key\":\"\",",
        "\"traits\":{\"age\":21,\"height\":1.8,\"tall\":false,\"odd\":null}}}",
    ]
    .join("");
    assert_eq!(render_context(&sample()), expected);
}

#[test]
fn the_document_is_json_that_reads_back() {
    let document = render_context(&sample());
    let tree: serde_json::Value = serde_json::from_str(&document).unwrap();
    assert_eq!(tree["environment"]["name"], "My \u{1}env");
    assert_eq!(tree["features"]["f"]["value"], "a \"b\"\\\n");
    assert_eq!(tree["features"]["f"]["variants"][0]["weight"].as_f64(), Some(30.0));
    assert!(tree["features"]["f"]["variants"][0]["weight"].is_f64());
    assert_eq!(tree["segments"]["7"]["rules"][0]["rules"][0]["type"], "NONE");
    assert_eq!(tree["identity"]["traits"]["age"], 21);
}

#[test]
fn texts_are_written_as_json_strings() {
    let document = |name: &str| {
        render_context(&EngineEvaluationContext {
            environment: EnvironmentContext { key: String::new(), name: name.to_string() },
            features: StringMap::new(),
            segments: StringMap::new(),
            identity: None,
        })
    };
    for name in ["plain", "", "quote\" and \\ backslash", "\u{8}\t\n\u{c}\r", "\u{0}\u{1}\u{1f}\u{7f}", "é€😀", "/"] {
        let written = document(name);
        let expected = format!(
            "{{\"environment\":{{\"key\":\"\",\"name\":{}}},\"features\":{{}},\"segments\":{{}}}}",
            serde_json::to_string(name).unwrap()
        );
        assert_eq!(written, expected);
    }
    assert!(document("\u{1f}").contains("\\u001f"));
}

#[test]
fn a_context_without_anything_is_a_small_document() {
    let ec = EngineEvaluationContext {
        environment: EnvironmentContext { key: "k".to_string(), name: "k".to_string() },
        features: StringMap::new(),
        segments: StringMap::new(),
        identity: None,
    };
    assert_eq!(
        render_context(&ec),
        "{\"environment\":{\"key\":\"k\",\"name\":\"k\"},\"features\":{},\"segments\":{}}"
    );
}

#[test]
fn queries_select_values_by_kind() {
    let ec = sample();
    let found = |path: &str| get_value_from_jsonpath(&ec, path);
    assert_eq!(found("$.identity.identifier"), Some(value(FlagsmithValueType::String, "ann")));
    assert_eq!(found("$.identity.traits.age"), Some(value(FlagsmithValueType::Integer, "21")));
    assert_eq!(found("$.identity.traits.height"), Some(value(FlagsmithValueType::Float, "1.8")));
    assert_eq!(found("$.identity.traits.tall"), Some(value(FlagsmithValueType::Bool, "false")));
    assert_eq!(found("$.features.f.variants[0].weight"), Some(value(FlagsmithValueType::Float, "30.0")));
    assert_eq!(found("$.features.f.variants[0].value"), Some(value(FlagsmithValueType::Integer, "-3")));
    assert_eq!(found("$.features.f.metadata.feature_id"), Some(value(FlagsmithValueType::Integer, "12")));
    assert_eq!(found("$.segments['7'].rules[0].conditions[*].property"), Some(value(FlagsmithValueType::String, "$.identity.identifier")));
    assert_eq!(found("$.identity.traits.odd"), None);
    assert_eq!(found("$.identity.traits"), None);
    assert_eq!(found("$.features.f.variants"), None);
    assert_eq!(found("$.nothing"), None);
    assert_eq!(found("$.["), None);
    assert_eq!(found("identity.identifier"), None);
}

#[test]
fn the_first_selected_node_counts() {
    let document = "{\"a\":[1,2.5,\"x\",true,null,[],{}],\"b\":{\"z\":1,\"y\":\"first\"}}";
    let found = |path: &str| first_value(path, document);
    assert_eq!(found("$.a[*]"), Some(value(FlagsmithValueType::Integer, "1")));
    assert_eq!(found("$.a[1:]"), Some(value(FlagsmithValueType::Float, "2.5")));
    assert_eq!(found("$.a[2]"), Some(value(FlagsmithValueType::String, "x")));
    assert_eq!(found("$.a[3]"), Some(value(FlagsmithValueType::Bool, "true")));
    assert_eq!(found("$.a[4]"), None);
    assert_eq!(found("$.a[5]"), None);
    assert_eq!(found("$.a[6]"), None);
    assert_eq!(found("$.a[7]"), None);
    assert_eq!(found("$.b.*"), Some(value(FlagsmithValueType::String, "first")));
    assert_eq!(first_value("$.a", "not json"), None);
    assert_eq!(first_value("not a path", document), None);
}

#[test]
fn nodes_that_are_scalars_are_values() {
    let node = |kind: JsonKind, text: &str| value_of_node(Some((kind, text.to_string())));
    assert_eq!(node(JsonKind::Text, "x"), Some(value(FlagsmithValueType::String, "x")));
    assert_eq!(node(JsonKind::Integer, "1"), Some(value(FlagsmithValueType::Integer, "1")));
    assert_eq!(node(JsonKind::Float, "1.5"), Some(value(FlagsmithValueType::Float, "1.5")));
    assert_eq!(node(JsonKind::Bool, "true"), Some(value(FlagsmithValueType::Bool, "true")));
    assert_eq!(node(JsonKind::Null, ""), None);
    assert_eq!(node(JsonKind::Array, ""), None);
    assert_eq!(node(JsonKind::Object, ""), None);
    assert_eq!(value_of_node(None), None);
}

#[test]
fn properties_name_traits_unless_a_query_selects_a_value() {
    let ec = sample();
    assert_eq!(get_context_value(&ec, ""), None);
    assert_eq!(get_context_value(&ec, "age"), Some(value(FlagsmithValueType::Integer, "21")));
    assert_eq!(get_context_value(&ec, "missing"), None);
    assert_eq!(get_context_value(&ec, "$.environment.key"), Some(value(FlagsmithValueType::String, "key")));
    assert_eq!(get_context_value(&ec, "$.missing"), None);
    assert_eq!(get_identity_key(&ec), Some("key_ann".to_string()));
    let mut keyed = sample();
    keyed.identity.as_mut().unwrap().key = "own".to_string();
    assert_eq!(get_identity_key(&keyed), Some("own".to_string()));
    keyed.identity = None;
    assert_eq!(get_identity_key(&keyed), None);
    assert_eq!(get_context_value(&keyed, "age"), None);
}
