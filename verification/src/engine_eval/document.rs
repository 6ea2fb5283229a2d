//! The evaluation context written down as a JSON document: the text that
//! JSONPath properties of conditions are looked up in.

use vstd::prelude::*;
use vstd::string::*;
use crate::decimal::{nat_text, push_nat};
use crate::engine_eval::context::{
    Condition, ConditionOperator, ConditionValue, EngineEvaluationContext, FeatureContext,
    FeatureValue, IdentityContext, Priority, SegmentContext, SegmentRule, SegmentRuleType,
    SegmentSource,
};
use crate::json::{
    json_bool, json_decimal, json_integer, json_string, json_value, push_json_bool,
    push_json_decimal, push_json_integer, push_json_string, push_json_value, push_str,
};
use crate::maps::MapEntry;
use crate::text::{joined, lemma_append, lemma_joined_next, text_of};
use crate::types::FlagsmithValue;

verus! {

/// A JSON array of the given members.
pub open spec fn array_of(items: Seq<Seq<char>>) -> Seq<char> {
    seq!['['] + joined(items, seq![',']) + seq![']']
}

/// A JSON object of the given members.
pub open spec fn object_of(members: Seq<Seq<char>>) -> Seq<char> {
    seq!['{'] + joined(members, seq![',']) + seq!['}']
}

/// The `priority` member of an object, with the comma before it. A feature
/// or variant without priority has no such member; the strongest and the
/// weakest priority have no number and are written as `null`.
pub open spec fn priority_member(p: Option<Priority>) -> Seq<char> {
    match p {
        None => Seq::<char>::empty(),
        Some(Priority::Strongest) => ",\"priority\":null"@,
        Some(Priority::Weakest) => ",\"priority\":null"@,
        Some(Priority::Level(d)) => ",\"priority\":"@ + json_decimal(d@),
    }
}

/// A variant as a JSON object.
#[verifier::opaque]
pub open spec fn variant_json(v: FeatureValue) -> Seq<char> {
    "{\"value\":"@ + json_value(v.value@) + ",\"weight\":"@ + json_decimal(v.weight@)
        + priority_member(v.priority) + "}"@
}

/// The JSON objects of a list of variants.
pub open spec fn variants_json(vs: Seq<FeatureValue>) -> Seq<Seq<char>> {
    Seq::new(vs.len(), |i: int| variant_json(vs[i]))
}

/// The `variants` member of a feature, with the comma before it; a feature
/// without variants has no such member.
pub open spec fn variants_member(vs: Seq<FeatureValue>) -> Seq<char> {
    if vs.len() > 0 {
        ",\"variants\":"@ + array_of(variants_json(vs))
    } else {
        Seq::<char>::empty()
    }
}

/// A feature context as a JSON object.
#[verifier::opaque]
pub open spec fn feature_json(f: FeatureContext) -> Seq<char> {
    "{\"key\":"@ + json_string(f.key@) + ",\"name\":"@ + json_string(f.name@) + ",\"enabled\":"@
        + json_bool(f.enabled) + ",\"value\":"@ + json_value(f.value@) + priority_member(
        f.priority,
    ) + variants_member(f.variants@) + ",\"metadata\":{\"feature_id\":"@ + nat_text(
        f.metadata.feature_id as nat,
    ) + "}}"@
}

/// The JSON objects of a list of feature contexts.
pub open spec fn features_json(fs: Seq<FeatureContext>) -> Seq<Seq<char>> {
    Seq::new(fs.len(), |i: int| feature_json(fs[i]))
}

/// The name of an operator as it is written in documents.
pub open spec fn operator_name(op: ConditionOperator) -> Seq<char> {
    match op {
        ConditionOperator::Equal => "EQUAL"@,
        ConditionOperator::NotEqual => "NOT_EQUAL"@,
        ConditionOperator::GreaterThan => "GREATER_THAN"@,
        ConditionOperator::GreaterThanInclusive => "GREATER_THAN_INCLUSIVE"@,
        ConditionOperator::LessThan => "LESS_THAN"@,
        ConditionOperator::LessThanInclusive => "LESS_THAN_INCLUSIVE"@,
        ConditionOperator::Contains => "CONTAINS"@,
        ConditionOperator::NotContains => "NOT_CONTAINS"@,
        ConditionOperator::In => "IN"@,
        ConditionOperator::Regex => "REGEX"@,
        ConditionOperator::PercentageSplit => "PERCENTAGE_SPLIT"@,
        ConditionOperator::Modulo => "MODULO"@,
        ConditionOperator::IsSet => "IS_SET"@,
        ConditionOperator::IsNotSet => "IS_NOT_SET"@,
    }
}

/// The name of a rule type as it is written in documents.
pub open spec fn rule_type_name(t: SegmentRuleType) -> Seq<char> {
    match t {
        SegmentRuleType::All => "ALL"@,
        SegmentRuleType::Any => "ANY"@,
        SegmentRuleType::NoneOf => "NONE"@,
    }
}

/// The name of a segment source as it is written in documents.
pub open spec fn source_name(s: SegmentSource) -> Seq<char> {
    match s {
        SegmentSource::Api => "api"@,
        SegmentSource::IdentityOverride => "identity_override"@,
    }
}

/// The JSON strings of a list of texts.
pub open spec fn strings_json(list: Seq<String>) -> Seq<Seq<char>> {
    Seq::new(list.len(), |i: int| json_string(list[i]@))
}

/// A condition value as JSON: a string, or an array of strings.
pub open spec fn condition_value_json(v: ConditionValue) -> Seq<char> {
    match v {
        ConditionValue::Single(s) => json_string(s@),
        ConditionValue::Multiple(list) => array_of(strings_json(list@)),
    }
}

/// A condition as a JSON object.
#[verifier::opaque]
pub open spec fn condition_json(c: Condition) -> Seq<char> {
    "{\"operator\":\""@ + operator_name(c.operator) + "\",\"property\":"@ + json_string(
        c.property@,
    ) + ",\"value\":"@ + condition_value_json(c.value) + "}"@
}

/// The JSON objects of a list of conditions.
pub open spec fn conditions_json(cs: Seq<Condition>) -> Seq<Seq<char>> {
    Seq::new(cs.len(), |i: int| condition_json(cs[i]))
}

/// The JSON forms of the rules nested in `r`.
pub open spec fn nested_json(r: SegmentRule) -> Seq<Seq<char>>
    decreases r, 0int,
{
    Seq::new(
        r.rules@.len(),
        |i: int|
            if 0 <= i < r.rules@.len() {
                rule_json(r.rules@[i])
            } else {
                Seq::<char>::empty()
            },
    )
}

/// A rule as a JSON object, with the rules nested in it.
pub open spec fn rule_json(r: SegmentRule) -> Seq<char>
    decreases r, 1int,
{
    "{\"type\":\""@ + rule_type_name(r.rule_type) + "\",\"conditions\":"@ + array_of(
        conditions_json(r.conditions@),
    ) + ",\"rules\":"@ + array_of(nested_json(r)) + "}"@
}

/// The JSON objects of a list of rules.
pub open spec fn rules_json(rs: Seq<SegmentRule>) -> Seq<Seq<char>> {
    Seq::new(rs.len(), |i: int| rule_json(rs[i]))
}

/// The `segment_id` member of a segment's metadata, with the comma after it;
/// a segment without id has no such member.
pub open spec fn segment_id_member(id: Option<i32>) -> Seq<char> {
    match id {
        Some(n) => "\"segment_id\":"@ + json_integer(n as int) + ","@,
        None => Seq::<char>::empty(),
    }
}

/// The metadata of a segment as a JSON object.
pub open spec fn metadata_json(id: Option<i32>, source: SegmentSource) -> Seq<char> {
    "{"@ + segment_id_member(id) + "\"source\":\""@ + source_name(source) + "\"}"@
}

/// A segment as a JSON object.
#[verifier::opaque]
pub open spec fn segment_json(s: SegmentContext) -> Seq<char> {
    "{\"key\":"@ + json_string(s.key@) + ",\"name\":"@ + json_string(s.name@) + ",\"metadata\":"@
        + metadata_json(s.metadata.segment_id, s.metadata.source) + ",\"overrides\":"@ + array_of(
        features_json(s.overrides@),
    ) + ",\"rules\":"@ + array_of(rules_json(s.rules@)) + "}"@
}

/// The traits of an identity as members of a JSON object.
pub open spec fn trait_members(entries: Seq<MapEntry<FlagsmithValue>>) -> Seq<Seq<char>> {
    Seq::new(entries.len(), |i: int| json_string(entries[i].key@) + ":"@ + json_value(entries[i].value@))
}

/// The features of a context as members of a JSON object.
pub open spec fn feature_members(entries: Seq<MapEntry<FeatureContext>>) -> Seq<Seq<char>> {
    Seq::new(entries.len(), |i: int| json_string(entries[i].key@) + ":"@ + feature_json(entries[i].value))
}

/// The segments of a context as members of a JSON object.
pub open spec fn segment_members(entries: Seq<MapEntry<SegmentContext>>) -> Seq<Seq<char>> {
    Seq::new(entries.len(), |i: int| json_string(entries[i].key@) + ":"@ + segment_json(entries[i].value))
}

/// An identity as a JSON object.
#[verifier::opaque]
pub open spec fn identity_json(identity: IdentityContext) -> Seq<char> {
    "{\"identifier\":"@ + json_string(identity.identifier@) + ",\"key\":"@ + json_string(
        identity.key@,
    ) + ",\"traits\":"@ + object_of(trait_members(identity.traits.entries@)) + "}"@
}

/// The `identity` member of the context, with the comma before it; a context
/// without identity has no such member.
pub open spec fn identity_member(identity: Option<IdentityContext>) -> Seq<char> {
    match identity {
        Some(i) => ",\"identity\":"@ + identity_json(i),
        None => Seq::<char>::empty(),
    }
}

/// The evaluation context as a JSON document.
pub open spec fn context_document(ec: EngineEvaluationContext) -> Seq<char> {
    "{\"environment\":{\"key\":"@ + json_string(ec.environment.key@) + ",\"name\":"@ + json_string(
        ec.environment.name@,
    ) + "},\"features\":"@ + object_of(feature_members(ec.features.entries@)) + ",\"segments\":"@
        + object_of(segment_members(ec.segments.entries@)) + identity_member(ec.identity) + "}"@
}

/// Appends the `priority` member of an object to `out`, if there is one.
pub fn push_priority_member(out: &mut Vec<char>, p: &Option<Priority>)
    ensures
        final(out)@ == old(out)@ + priority_member(*p),
{
    match p {
        None => {
            assert(out@ + Seq::<char>::empty() == out@);
        },
        Some(Priority::Strongest) => push_str(out, ",\"priority\":null"),
        Some(Priority::Weakest) => push_str(out, ",\"priority\":null"),
        Some(Priority::Level(d)) => {
            push_str(out, ",\"priority\":");
            push_json_decimal(out, d);
            assert(out@ == old(out)@ + (",\"priority\":"@ + json_decimal(d@)));
        },
    }
}

/// Appends the JSON object of a variant to `out`.
pub fn push_variant(out: &mut Vec<char>, v: &FeatureValue)
    ensures
        final(out)@ == old(out)@ + variant_json(*v),
{
    reveal(variant_json);
    push_str(out, "{\"value\":");
    push_json_value(out, &v.value);
    push_str(out, ",\"weight\":");
    push_json_decimal(out, &v.weight);
    push_priority_member(out, &v.priority);
    push_str(out, "}");
    assert(out@ == old(out)@ + variant_json(*v));
}

/// Appends the `variants` member of a feature to `out`, if there is one.
pub fn push_variants_member(out: &mut Vec<char>, vs: &Vec<FeatureValue>)
    ensures
        final(out)@ == old(out)@ + variants_member(vs@),
{
    if vs.len() == 0 {
        assert(out@ + Seq::<char>::empty() == out@);
        return ;
    }
    push_str(out, ",\"variants\":");
    out.push('[');
    let ghost base = out@;
    let ghost items = variants_json(vs@);
    let mut i: usize = 0;
    assert(items.take(0) == Seq::<Seq<char>>::empty());
    assert(base + Seq::<char>::empty() == base);
    while i < vs.len()
        invariant
            i <= vs.len(),
            items == variants_json(vs@),
            out@ == base + joined(items.take(i as int), seq![',']),
        decreases vs.len() - i,
    {
        let ghost before = joined(items.take(i as int), seq![',']);
        if i > 0 {
            out.push(',');
        }
        push_variant(out, &vs[i]);
        proof {
            lemma_joined_next(items, seq![','], i as int);
            if i > 0 {
                assert(out@ == base + (before + seq![','] + items[i as int]));
            } else {
                assert(before == Seq::<char>::empty());
                assert(out@ == base + items[0]);
            }
        }
        i += 1;
    }
    assert(items.take(vs.len() as int) == items);
    out.push(']');
    assert(out@ == old(out)@ + (",\"variants\":"@ + array_of(items)));
}

/// Appends the JSON object of a feature context to `out`.
pub fn push_feature(out: &mut Vec<char>, f: &FeatureContext)
    ensures
        final(out)@ == old(out)@ + feature_json(*f),
{
    reveal(feature_json);
    push_str(out, "{\"key\":");
    push_json_string(out, f.key.as_str());
    push_str(out, ",\"name\":");
    push_json_string(out, f.name.as_str());
    push_str(out, ",\"enabled\":");
    push_json_bool(out, f.enabled);
    push_str(out, ",\"value\":");
    push_json_value(out, &f.value);
    push_priority_member(out, &f.priority);
    push_variants_member(out, &f.variants);
    push_str(out, ",\"metadata\":{\"feature_id\":");
    push_nat(out, f.metadata.feature_id as u128);
    push_str(out, "}}");
    assert(out@ == old(out)@ + feature_json(*f));
}

/// Appends the JSON array of a list of features to `out`.
pub fn push_features(out: &mut Vec<char>, list: &Vec<FeatureContext>)
    ensures
        final(out)@ == old(out)@ + array_of(features_json(list@)),
{
    out.push('[');
    let ghost base = out@;
    let ghost items = features_json(list@);
    let mut i: usize = 0;
    assert(items.take(0) == Seq::<Seq<char>>::empty());
    assert(base + Seq::<char>::empty() == base);
    while i < list.len()
        invariant
            i <= list.len(),
            items == features_json(list@),
            out@ == base + joined(items.take(i as int), seq![',']),
        decreases list.len() - i,
    {
        let ghost before = joined(items.take(i as int), seq![',']);
        if i > 0 {
            out.push(',');
        }
        push_feature(out, &list[i]);
        proof {
            lemma_joined_next(items, seq![','], i as int);
            if i > 0 {
                assert(out@ == base + (before + seq![','] + items[i as int]));
            } else {
                assert(before == Seq::<char>::empty());
                assert(out@ == base + items[0]);
            }
        }
        i += 1;
    }
    assert(items.take(list.len() as int) == items);
    out.push(']');
    assert(out@ == old(out)@ + array_of(items));
}

/// Appends the JSON array of a list of texts to `out`.
pub fn push_strings(out: &mut Vec<char>, list: &Vec<String>)
    ensures
        final(out)@ == old(out)@ + array_of(strings_json(list@)),
{
    out.push('[');
    let ghost base = out@;
    let ghost items = strings_json(list@);
    let mut i: usize = 0;
    assert(items.take(0) == Seq::<Seq<char>>::empty());
    assert(base + Seq::<char>::empty() == base);
    while i < list.len()
        invariant
            i <= list.len(),
            items == strings_json(list@),
            out@ == base + joined(items.take(i as int), seq![',']),
        decreases list.len() - i,
    {
        let ghost before = joined(items.take(i as int), seq![',']);
        if i > 0 {
            out.push(',');
        }
        push_json_string(out, list[i].as_str());
        proof {
            lemma_joined_next(items, seq![','], i as int);
            if i > 0 {
                assert(out@ == base + (before + seq![','] + items[i as int]));
            } else {
                assert(before == Seq::<char>::empty());
                assert(out@ == base + items[0]);
            }
        }
        i += 1;
    }
    assert(items.take(list.len() as int) == items);
    out.push(']');
    assert(out@ == old(out)@ + array_of(items));
}

/// Appends the name of an operator to `out`.
pub fn push_operator_name(out: &mut Vec<char>, op: ConditionOperator)
    ensures
        final(out)@ == old(out)@ + operator_name(op),
{
    match op {
        ConditionOperator::Equal => push_str(out, "EQUAL"),
        ConditionOperator::NotEqual => push_str(out, "NOT_EQUAL"),
        ConditionOperator::GreaterThan => push_str(out, "GREATER_THAN"),
        ConditionOperator::GreaterThanInclusive => push_str(out, "GREATER_THAN_INCLUSIVE"),
        ConditionOperator::LessThan => push_str(out, "LESS_THAN"),
        ConditionOperator::LessThanInclusive => push_str(out, "LESS_THAN_INCLUSIVE"),
        ConditionOperator::Contains => push_str(out, "CONTAINS"),
        ConditionOperator::NotContains => push_str(out, "NOT_CONTAINS"),
        ConditionOperator::In => push_str(out, "IN"),
        ConditionOperator::Regex => push_str(out, "REGEX"),
        ConditionOperator::PercentageSplit => push_str(out, "PERCENTAGE_SPLIT"),
        ConditionOperator::Modulo => push_str(out, "MODULO"),
        ConditionOperator::IsSet => push_str(out, "IS_SET"),
        ConditionOperator::IsNotSet => push_str(out, "IS_NOT_SET"),
    }
}

/// Appends the JSON object of a condition to `out`.
pub fn push_condition(out: &mut Vec<char>, c: &Condition)
    ensures
        final(out)@ == old(out)@ + condition_json(*c),
{
    reveal(condition_json);
    push_str(out, "{\"operator\":\"");
    push_operator_name(out, c.operator);
    push_str(out, "\",\"property\":");
    push_json_string(out, c.property.as_str());
    push_str(out, ",\"value\":");
    match &c.value {
        ConditionValue::Single(s) => push_json_string(out, s.as_str()),
        ConditionValue::Multiple(list) => push_strings(out, list),
    }
    push_str(out, "}");
    assert(out@ == old(out)@ + condition_json(*c));
}

/// Appends the JSON array of a list of conditions to `out`.
pub fn push_conditions(out: &mut Vec<char>, list: &Vec<Condition>)
    ensures
        final(out)@ == old(out)@ + array_of(conditions_json(list@)),
{
    out.push('[');
    let ghost base = out@;
    let ghost items = conditions_json(list@);
    let mut i: usize = 0;
    assert(items.take(0) == Seq::<Seq<char>>::empty());
    assert(base + Seq::<char>::empty() == base);
    while i < list.len()
        invariant
            i <= list.len(),
            items == conditions_json(list@),
            out@ == base + joined(items.take(i as int), seq![',']),
        decreases list.len() - i,
    {
        let ghost before = joined(items.take(i as int), seq![',']);
        if i > 0 {
            out.push(',');
        }
        push_condition(out, &list[i]);
        proof {
            lemma_joined_next(items, seq![','], i as int);
            if i > 0 {
                assert(out@ == base + (before + seq![','] + items[i as int]));
            } else {
                assert(before == Seq::<char>::empty());
                assert(out@ == base + items[0]);
            }
        }
        i += 1;
    }
    assert(items.take(list.len() as int) == items);
    out.push(']');
    assert(out@ == old(out)@ + array_of(items));
}

/// Appends the JSON object of a rule to `out`.
pub fn push_rule(out: &mut Vec<char>, r: &SegmentRule)
    ensures
        final(out)@ == old(out)@ + rule_json(*r),
    decreases r,
{
    let ghost nested = nested_json(*r);
    let ghost items = rules_json(r.rules@);
    assert(items =~= nested) by {
        reveal_with_fuel(nested_json, 2);
        assert(nested.len() == r.rules@.len());
        assert forall|i: int| 0 <= i < nested.len() implies nested[i] == items[i] by {
            assert(nested[i] == rule_json(r.rules@[i]));
        }
    }
    push_str(out, "{\"type\":\"");
    match r.rule_type {
        SegmentRuleType::All => push_str(out, "ALL"),
        SegmentRuleType::Any => push_str(out, "ANY"),
        SegmentRuleType::NoneOf => push_str(out, "NONE"),
    }
    push_str(out, "\",\"conditions\":");
    push_conditions(out, &r.conditions);
    push_str(out, ",\"rules\":");
    let ghost head = "{\"type\":\""@ + rule_type_name(r.rule_type) + "\",\"conditions\":"@ + array_of(
        conditions_json(r.conditions@),
    ) + ",\"rules\":"@;
    assert(out@ == old(out)@ + head);
    let ghost start = out@;
    out.push('[');
    let ghost base = out@;
    let mut i: usize = 0;
    assert(items.take(0) == Seq::<Seq<char>>::empty());
    assert(base + Seq::<char>::empty() == base);
    while i < r.rules.len()
        invariant
            i <= r.rules.len(),
            items == rules_json(r.rules@),
            out@ == base + joined(items.take(i as int), seq![',']),
        decreases r.rules.len() - i,
    {
        let ghost before = joined(items.take(i as int), seq![',']);
        if i > 0 {
            out.push(',');
        }
        push_rule(out, &r.rules[i]);
        proof {
            lemma_joined_next(items, seq![','], i as int);
            if i > 0 {
                assert(out@ == base + (before + seq![','] + items[i as int]));
            } else {
                assert(before == Seq::<char>::empty());
                assert(out@ == base + items[0]);
            }
        }
        i += 1;
    }
    assert(items.take(r.rules.len() as int) == items);
    out.push(']');
    assert(out@ == start + array_of(items));
    assert(out@ == old(out)@ + (head + array_of(nested)));
    push_str(out, "}");
    assert(out@ == old(out)@ + (head + array_of(nested) + "}"@));
    assert(rule_json(*r) == head + array_of(nested) + "}"@);
}

/// Appends the JSON array of a list of rules to `out`.
pub fn push_rules(out: &mut Vec<char>, list: &Vec<SegmentRule>)
    ensures
        final(out)@ == old(out)@ + array_of(rules_json(list@)),
{
    out.push('[');
    let ghost base = out@;
    let ghost items = rules_json(list@);
    let mut i: usize = 0;
    assert(items.take(0) == Seq::<Seq<char>>::empty());
    assert(base + Seq::<char>::empty() == base);
    while i < list.len()
        invariant
            i <= list.len(),
            items == rules_json(list@),
            out@ == base + joined(items.take(i as int), seq![',']),
        decreases list.len() - i,
    {
        let ghost before = joined(items.take(i as int), seq![',']);
        if i > 0 {
            out.push(',');
        }
        push_rule(out, &list[i]);
        proof {
            lemma_joined_next(items, seq![','], i as int);
            if i > 0 {
                assert(out@ == base + (before + seq![','] + items[i as int]));
            } else {
                assert(before == Seq::<char>::empty());
                assert(out@ == base + items[0]);
            }
        }
        i += 1;
    }
    assert(items.take(list.len() as int) == items);
    out.push(']');
    assert(out@ == old(out)@ + array_of(items));
}

/// Appends the JSON object of the metadata of a segment to `out`.
pub fn push_metadata(out: &mut Vec<char>, id: Option<i32>, source: SegmentSource)
    ensures
        final(out)@ == old(out)@ + metadata_json(id, source),
{
    push_str(out, "{");
    let ghost before_id = out@;
    match id {
        Some(n) => {
            push_str(out, "\"segment_id\":");
            push_json_integer(out, n as i64);
            push_str(out, ",");
            assert(out@ == before_id + ("\"segment_id\":"@ + json_integer(n as int) + ","@));
        },
        None => {
            assert(out@ + Seq::<char>::empty() == out@);
        },
    }
    push_str(out, "\"source\":\"");
    match source {
        SegmentSource::Api => push_str(out, "api"),
        SegmentSource::IdentityOverride => push_str(out, "identity_override"),
    }
    push_str(out, "\"}");
    assert(out@ == old(out)@ + metadata_json(id, source));
}

/// Appends the JSON object of a segment to `out`.
pub fn push_segment(out: &mut Vec<char>, s: &SegmentContext)
    ensures
        final(out)@ == old(out)@ + segment_json(*s),
{
    let ghost start = out@;
    let ghost part1 = "{\"key\":"@;
    let ghost part2 = part1 + json_string(s.key@);
    let ghost part3 = part2 + ",\"name\":"@;
    let ghost part4 = part3 + json_string(s.name@);
    let ghost part5 = part4 + ",\"metadata\":"@;
    let ghost part6 = part5 + metadata_json(s.metadata.segment_id, s.metadata.source);
    let ghost part7 = part6 + ",\"overrides\":"@;
    let ghost part8 = part7 + array_of(features_json(s.overrides@));
    let ghost part9 = part8 + ",\"rules\":"@;
    let ghost part10 = part9 + array_of(rules_json(s.rules@));
    let ghost part11 = part10 + "}"@;
    push_str(out, "{\"key\":");
    push_json_string(out, s.key.as_str());
    proof {
        lemma_append(start, part1, json_string(s.key@));
    }
    push_str(out, ",\"name\":");
    proof {
        lemma_append(start, part2, ",\"name\":"@);
    }
    push_json_string(out, s.name.as_str());
    proof {
        lemma_append(start, part3, json_string(s.name@));
    }
    push_str(out, ",\"metadata\":");
    proof {
        lemma_append(start, part4, ",\"metadata\":"@);
    }
    push_metadata(out, s.metadata.segment_id, s.metadata.source);
    proof {
        lemma_append(start, part5, metadata_json(s.metadata.segment_id, s.metadata.source));
    }
    push_str(out, ",\"overrides\":");
    proof {
        lemma_append(start, part6, ",\"overrides\":"@);
    }
    push_features(out, &s.overrides);
    proof {
        lemma_append(start, part7, array_of(features_json(s.overrides@)));
    }
    push_str(out, ",\"rules\":");
    proof {
        lemma_append(start, part8, ",\"rules\":"@);
    }
    push_rules(out, &s.rules);
    proof {
        lemma_append(start, part9, array_of(rules_json(s.rules@)));
    }
    push_str(out, "}");
    proof {
        lemma_append(start, part10, "}"@);
    }
    assert(out@ == start + part11);
    assert(segment_json(*s) == part11) by {
        reveal(segment_json);
    }
}

/// Appends the JSON object of the traits of an identity to `out`.
pub fn push_trait_members(out: &mut Vec<char>, list: &Vec<MapEntry<FlagsmithValue>>)
    ensures
        final(out)@ == old(out)@ + object_of(trait_members(list@)),
{
    out.push('{');
    let ghost base = out@;
    let ghost items = trait_members(list@);
    let mut i: usize = 0;
    assert(items.take(0) == Seq::<Seq<char>>::empty());
    assert(base + Seq::<char>::empty() == base);
    while i < list.len()
        invariant
            i <= list.len(),
            items == trait_members(list@),
            out@ == base + joined(items.take(i as int), seq![',']),
        decreases list.len() - i,
    {
        let ghost before = joined(items.take(i as int), seq![',']);
        if i > 0 {
            out.push(',');
        }
        let ghost here = out@;
        push_json_string(out, list[i].key.as_str());
        push_str(out, ":");
        push_json_value(out, &list[i].value);
        proof {
            lemma_joined_next(items, seq![','], i as int);
            let member = json_string(list@[i as int].key@) + ":"@ + json_value(list@[i as int].value@);
            assert(out@ == here + member);
            assert(items[i as int] == member);
            assert(out@ == here + items[i as int]);
            if i > 0 {
                assert(out@ == base + (before + seq![','] + items[i as int]));
            } else {
                assert(before == Seq::<char>::empty());
                assert(out@ == base + items[0]);
            }
        }
        i += 1;
    }
    assert(items.take(list.len() as int) == items);
    out.push('}');
    assert(out@ == old(out)@ + object_of(items));
}

/// Appends the JSON object of the features of a context to `out`.
pub fn push_feature_members(out: &mut Vec<char>, list: &Vec<MapEntry<FeatureContext>>)
    ensures
        final(out)@ == old(out)@ + object_of(feature_members(list@)),
{
    out.push('{');
    let ghost base = out@;
    let ghost items = feature_members(list@);
    let mut i: usize = 0;
    assert(items.take(0) == Seq::<Seq<char>>::empty());
    assert(base + Seq::<char>::empty() == base);
    while i < list.len()
        invariant
            i <= list.len(),
            items == feature_members(list@),
            out@ == base + joined(items.take(i as int), seq![',']),
        decreases list.len() - i,
    {
        let ghost before = joined(items.take(i as int), seq![',']);
        if i > 0 {
            out.push(',');
        }
        let ghost here = out@;
        push_json_string(out, list[i].key.as_str());
        push_str(out, ":");
        push_feature(out, &list[i].value);
        proof {
            lemma_joined_next(items, seq![','], i as int);
            let member = json_string(list@[i as int].key@) + ":"@ + feature_json(list@[i as int].value);
            assert(out@ == here + member);
            assert(items[i as int] == member);
            assert(out@ == here + items[i as int]);
            if i > 0 {
                assert(out@ == base + (before + seq![','] + items[i as int]));
            } else {
                assert(before == Seq::<char>::empty());
                assert(out@ == base + items[0]);
            }
        }
        i += 1;
    }
    assert(items.take(list.len() as int) == items);
    out.push('}');
    assert(out@ == old(out)@ + object_of(items));
}

/// Appends the JSON object of the segments of a context to `out`.
pub fn push_segment_members(out: &mut Vec<char>, list: &Vec<MapEntry<SegmentContext>>)
    ensures
        final(out)@ == old(out)@ + object_of(segment_members(list@)),
{
    out.push('{');
    let ghost base = out@;
    let ghost items = segment_members(list@);
    let mut i: usize = 0;
    assert(items.take(0) == Seq::<Seq<char>>::empty());
    assert(base + Seq::<char>::empty() == base);
    while i < list.len()
        invariant
            i <= list.len(),
            items == segment_members(list@),
            out@ == base + joined(items.take(i as int), seq![',']),
        decreases list.len() - i,
    {
        let ghost before = joined(items.take(i as int), seq![',']);
        if i > 0 {
            out.push(',');
        }
        let ghost here = out@;
        push_json_string(out, list[i].key.as_str());
        push_str(out, ":");
        push_segment(out, &list[i].value);
        proof {
            lemma_joined_next(items, seq![','], i as int);
            let member = json_string(list@[i as int].key@) + ":"@ + segment_json(list@[i as int].value);
            assert(out@ == here + member);
            assert(items[i as int] == member);
            assert(out@ == here + items[i as int]);
            if i > 0 {
                assert(out@ == base + (before + seq![','] + items[i as int]));
            } else {
                assert(before == Seq::<char>::empty());
                assert(out@ == base + items[0]);
            }
        }
        i += 1;
    }
    assert(items.take(list.len() as int) == items);
    out.push('}');
    assert(out@ == old(out)@ + object_of(items));
}

/// Appends the `identity` member of the context to `out`, if there is one.
pub fn push_identity_member(out: &mut Vec<char>, identity: &Option<IdentityContext>)
    ensures
        final(out)@ == old(out)@ + identity_member(*identity),
{
    match identity {
        None => {
            assert(out@ + Seq::<char>::empty() == out@);
        },
        Some(i) => {
            push_str(out, ",\"identity\":");
            let ghost start = out@;
            push_str(out, "{\"identifier\":");
            push_json_string(out, i.identifier.as_str());
            push_str(out, ",\"key\":");
            push_json_string(out, i.key.as_str());
            push_str(out, ",\"traits\":");
            push_trait_members(out, &i.traits.entries);
            push_str(out, "}");
            assert(out@ == start + identity_json(*i)) by {
                reveal(identity_json);
            }
            assert(out@ == old(out)@ + (",\"identity\":"@ + identity_json(*i)));
        },
    }
}

/// The evaluation context as a JSON document.
pub fn render_context(ec: &EngineEvaluationContext) -> (r: String)
    ensures
        r@ == context_document(*ec),
{
    let mut out: Vec<char> = Vec::new();
    push_str(&mut out, "{\"environment\":{\"key\":");
    push_json_string(&mut out, ec.environment.key.as_str());
    push_str(&mut out, ",\"name\":");
    push_json_string(&mut out, ec.environment.name.as_str());
    push_str(&mut out, "},\"features\":");
    push_feature_members(&mut out, &ec.features.entries);
    push_str(&mut out, ",\"segments\":");
    push_segment_members(&mut out, &ec.segments.entries);
    push_identity_member(&mut out, &ec.identity);
    push_str(&mut out, "}");
    assert(out@ == context_document(*ec));
    text_of(&out)
}

} // verus!
