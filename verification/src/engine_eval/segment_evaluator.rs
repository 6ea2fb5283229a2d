//! Segment membership: conditions compared against the context, rules that
//! combine conditions, and segments that combine rules.

use vstd::prelude::*;
use vstd::string::*;
use crate::decimal::{i64_value, parse_i64, Decimal, UNIT};
use crate::engine_eval::context::{
    Condition, ConditionOperator, EngineEvaluationContext, SegmentContext, SegmentRule,
    SegmentRuleType,
};
use crate::engine_eval::document::{context_document, render_context};
use crate::json::{first_value, path_value};
use crate::numbers::{
    compare_number_chars, compare_numbers, equal_texts_are_not_unequal, modulo_holds, modulo_of, number_of, percentage_reaches, read_number, read_number_chars, texts_compared, threshold_of,
};
use crate::patterns::{regex_search, search};
use crate::text::{
    ascii_lowered, chars_of, contains, ends_with, fields, has_prefix, has_substring, has_suffix,
    less, same_chars, slice_of, split_on, starts_with, text_less, text_of, to_ascii_lower,
};
use crate::types::{FlagsmithValue, FlagsmithValueType, ValueView};
use crate::utils::hashing::{
    get_hashed_percentage_for_object_ids, hashed_position, HashedPercentage, LAST_POSITION,
};
use crate::versions::{order, semver_order};

verus! {

/// Two numbers closer to one another than this many units of 10^-18 leave
/// the same remainder: 10^-10.
pub const TOLERANCE: i128 = 100_000_000;

/// What a comparison operator makes of two numbers.
pub open spec fn compares(op: ConditionOperator, a: int, b: int) -> bool {
    match op {
        ConditionOperator::Equal => a == b,
        ConditionOperator::NotEqual => a != b,
        ConditionOperator::GreaterThan => a > b,
        ConditionOperator::LessThan => a < b,
        ConditionOperator::GreaterThanInclusive => a >= b,
        ConditionOperator::LessThanInclusive => a <= b,
        _ => false,
    }
}

/// What an operator makes of two booleans: only equality and inequality are
/// defined on them.
pub open spec fn equates(op: ConditionOperator, a: bool, b: bool) -> bool {
    match op {
        ConditionOperator::Equal => a == b,
        ConditionOperator::NotEqual => a != b,
        _ => false,
    }
}

/// The boolean that a text denotes: `true` and `false` in any mix of upper
/// and lower case and, where numbers may stand for booleans, `1` for true.
/// Nothing stands for false but `false`.
pub open spec fn bool_value(s: Seq<char>, allow_int_conversion: bool) -> Option<bool> {
    if ascii_lowered(s) == "true"@ {
        Some(true)
    } else if allow_int_conversion && s == "1"@ {
        Some(true)
    } else if ascii_lowered(s) == "false"@ {
        Some(false)
    } else {
        None
    }
}

/// How text `a` stands to text `b` in lexicographic order: -1, 0 or 1.
pub open spec fn text_order(a: Seq<char>, b: Seq<char>) -> int {
    if a == b {
        0
    } else if text_less(a, b) {
        -1
    } else {
        1
    }
}

/// The comparison of a boolean value: both sides are read as booleans, with
/// `1` for true.
pub open spec fn bool_matches(op: ConditionOperator, value: Seq<char>, condition: Seq<char>) -> bool {
    match (bool_value(value, true), bool_value(condition, true)) {
        (Some(a), Some(b)) => equates(op, a, b),
        _ => false,
    }
}

/// The comparison of an integer value: both sides are read as 64-bit
/// integers.
pub open spec fn integer_matches(
    op: ConditionOperator,
    value: Seq<char>,
    condition: Seq<char>,
) -> bool {
    match (i64_value(value), i64_value(condition)) {
        (Some(a), Some(b)) => compares(op, a, b),
        _ => false,
    }
}

/// The comparison of a number: both sides are read as numbers, and a side
/// that is no number fails the comparison.
pub open spec fn float_matches(op: ConditionOperator, value: Seq<char>, condition: Seq<char>) -> bool {
    texts_compared(op, value, condition) == Some(true)
}

/// What a semantic-version comparison comes to, given how the two versions
/// stand to one another.
pub open spec fn semver_matches(op: ConditionOperator, order: Option<i8>) -> bool {
    match order {
        Some(o) => compares(op, o as int, 0),
        None => false,
    }
}

/// The comparison of a text value. A condition value that ends in `:semver`
/// asks for a comparison of semantic versions. Otherwise the two texts are
/// compared as booleans if both are booleans, else as integers if both are
/// integers, else as numbers if both are numbers, else as texts.
pub open spec fn string_matches(op: ConditionOperator, value: Seq<char>, condition: Seq<char>) -> bool {
    if has_suffix(condition, ":semver"@) {
        semver_matches(op, semver_order(value, condition.take(condition.len() - 7)))
    } else if bool_value(value, false) is Some && bool_value(condition, false) is Some {
        equates(op, bool_value(value, false)->0, bool_value(condition, false)->0)
    } else if i64_value(value) is Some && i64_value(condition) is Some {
        compares(op, i64_value(value)->0, i64_value(condition)->0)
    } else if texts_compared(op, value, condition) is Some {
        texts_compared(op, value, condition)->0
    } else {
        compares(op, text_order(value, condition), 0)
    }
}

/// Whether a regular expression found a match.
pub open spec fn regex_matches(found: Option<bool>) -> bool {
    found == Some(true)
}

/// The modulo condition `D|R` holds of a value `t` when all three are
/// numbers and the remainder of `t` divided by `D` is within 10^-10 of `R`.
pub open spec fn modulo_matches(value: Seq<char>, condition: Seq<char>) -> bool {
    let parts = split_on(condition, '|');
    parts.len() == 2 && match (number_of(parts[0]), number_of(parts[1]), number_of(value)) {
        (Some(d), Some(r), Some(t)) => modulo_of(t, d, r),
        _ => false,
    }
}

/// What an operator other than `IN`, `IS_SET`, `IS_NOT_SET` and
/// `PERCENTAGE_SPLIT` makes of a value and the text of a condition value.
/// Modulo, regular expressions and containment look at the text of the
/// value, whatever its tag. A condition value that ends in `:semver` asks
/// for a comparison of semantic versions, whatever the tag. Every other
/// comparison goes by the tag of the value.
pub open spec fn value_matches(op: ConditionOperator, value: ValueView, condition: Seq<char>) -> bool {
    match op {
        ConditionOperator::Modulo => modulo_matches(value.text, condition),
        ConditionOperator::Regex => regex_matches(regex_search(condition, value.text)),
        ConditionOperator::Contains => has_substring(value.text, condition),
        ConditionOperator::NotContains => !has_substring(value.text, condition),
        _ => if has_suffix(condition, ":semver"@) {
            semver_matches(op, semver_order(value.text, condition.take(condition.len() - 7)))
        } else {
            match value.value_type {
                FlagsmithValueType::Bool => bool_matches(op, value.text, condition),
                FlagsmithValueType::Integer => integer_matches(op, value.text, condition),
                FlagsmithValueType::Float => float_matches(op, value.text, condition),
                FlagsmithValueType::String => string_matches(op, value.text, condition),
                FlagsmithValueType::Null => false,
            }
        },
    }
}

/// Whether the typed comparison of a value with a condition value is
/// defined: both sides can be read as semantic versions, if the condition
/// value asks for that, and else as the value's tag asks: as booleans, as
/// 64-bit integers, or as numbers. Texts can always be compared.
pub open spec fn comparison_defined(value: ValueView, condition: Seq<char>) -> bool {
    if has_suffix(condition, ":semver"@) {
        semver_order(value.text, condition.take(condition.len() - 7)) is Some
    } else {
        match value.value_type {
            FlagsmithValueType::Bool => bool_value(value.text, true) is Some && bool_value(
                condition,
                true,
            ) is Some,
            FlagsmithValueType::Integer => i64_value(value.text) is Some && i64_value(condition)
                is Some,
            FlagsmithValueType::Float => number_of(value.text) is Some && number_of(condition)
                is Some,
            FlagsmithValueType::String => true,
            FlagsmithValueType::Null => false,
        }
    }
}

/// The value of the trait that `property` names.
pub open spec fn trait_value(ec: EngineEvaluationContext, property: Seq<char>) -> Option<ValueView> {
    match ec.identity {
        Some(identity) => match identity.traits.position(property) {
            Some(i) => Some(identity.traits.entries@[i].value@),
            None => None,
        },
        None => None,
    }
}

/// The value in the context that `property` names. An empty property names
/// nothing. A property that starts with `$.` is a JSONPath query into the
/// context document; if it selects no value there, and in every other case,
/// the property is the name of a trait.
pub open spec fn context_value(ec: EngineEvaluationContext, property: Seq<char>) -> Option<
    ValueView,
> {
    if property.len() == 0 {
        None
    } else if has_prefix(property, "$."@) && path_value(property, context_document(ec)) is Some {
        path_value(property, context_document(ec))
    } else {
        trait_value(ec, property)
    }
}

/// The key that identifies the identity in hashes: its own key, or, when
/// that is empty, the environment key and the identifier joined by an
/// underscore.
pub open spec fn identity_key(ec: EngineEvaluationContext) -> Option<Seq<char>> {
    match ec.identity {
        Some(identity) => Some(
            if identity.key@.len() == 0 {
                ec.environment.key@ + "_"@ + identity.identifier@
            } else {
                identity.key@
            },
        ),
        None => None,
    }
}

/// The object ids that a percentage split hashes: the segment key, and the
/// value of the condition's property or, without one, the identity key.
pub open spec fn split_ids(
    ec: EngineEvaluationContext,
    segment_key: Seq<char>,
    value: Option<ValueView>,
) -> Option<Seq<Seq<char>>> {
    match value {
        Some(v) => Some(seq![segment_key, v.text]),
        None => match identity_key(ec) {
            Some(key) => Some(seq![segment_key, key]),
            None => None,
        },
    }
}

/// Whether a position is no greater than a threshold given in units of
/// 10^-18 per cent.
pub open spec fn within(position: nat, threshold: int) -> bool {
    position * 100 * UNIT <= threshold * LAST_POSITION
}

/// The percentage-split condition: the condition value is a number, there
/// is something to hash, and the hashed percentage is no greater than that
/// number.
pub open spec fn split_matches(
    ec: EngineEvaluationContext,
    condition: Condition,
    segment_key: Seq<char>,
    value: Option<ValueView>,
) -> bool {
    match (number_of(condition.value.text()), split_ids(ec, segment_key, value)) {
        (Some(threshold), Some(ids)) => threshold_of(hashed_position(ids, 1), threshold),
        _ => false,
    }
}

/// `IN` holds of a present value that is neither a boolean nor a float and
/// whose text is one of the items of the condition value.
pub open spec fn in_matches(condition: Condition, value: Option<ValueView>) -> bool {
    match value {
        Some(v) => v.value_type != FlagsmithValueType::Bool && v.value_type
            != FlagsmithValueType::Float && condition.value.has_item(v.text),
        None => false,
    }
}

/// Whether the context meets a condition of a segment with the given key.
pub open spec fn condition_matches(
    ec: EngineEvaluationContext,
    condition: Condition,
    segment_key: Seq<char>,
) -> bool {
    let value = context_value(ec, condition.property@);
    match condition.operator {
        ConditionOperator::PercentageSplit => split_matches(ec, condition, segment_key, value),
        ConditionOperator::In => in_matches(condition, value),
        ConditionOperator::IsNotSet => value is None,
        ConditionOperator::IsSet => value is Some,
        _ => match value {
            Some(v) => value_matches(condition.operator, v, condition.value.text()),
            None => false,
        },
    }
}

/// Whether the context meets a list of conditions as the rule type asks:
/// all of them, at least one of them, or none of them.
pub open spec fn conditions_match(
    ec: EngineEvaluationContext,
    conditions: Seq<Condition>,
    rule_type: SegmentRuleType,
    segment_key: Seq<char>,
) -> bool {
    match rule_type {
        SegmentRuleType::All => forall|i: int|
            0 <= i < conditions.len() ==> condition_matches(ec, #[trigger] conditions[i], segment_key),
        SegmentRuleType::Any => exists|i: int|
            0 <= i < conditions.len() && condition_matches(ec, #[trigger] conditions[i], segment_key),
        SegmentRuleType::NoneOf => forall|i: int|
            0 <= i < conditions.len() ==> !condition_matches(
                ec,
                #[trigger] conditions[i],
                segment_key,
            ),
    }
}

/// Whether the context matches a rule: its conditions, if it has any, are met
/// as its type asks, and every rule nested in it matches, whatever the type.
pub open spec fn rule_matches(
    ec: EngineEvaluationContext,
    rule: SegmentRule,
    segment_key: Seq<char>,
) -> bool
    decreases rule,
{
    &&& rule.conditions@.len() == 0 || conditions_match(
        ec,
        rule.conditions@,
        rule.rule_type,
        segment_key,
    )
    &&& forall|i: int|
        0 <= i < rule.rules@.len() ==> rule_matches(ec, #[trigger] rule.rules@[i], segment_key)
}

/// Whether the context is in a segment: the segment has rules, and the
/// context matches every one of them.
pub open spec fn in_segment(ec: EngineEvaluationContext, segment: SegmentContext) -> bool {
    &&& segment.rules@.len() > 0
    &&& forall|i: int|
        0 <= i < segment.rules@.len() ==> rule_matches(ec, #[trigger] segment.rules@[i], segment.key@)
}

/// Whether the context is in a segment.
pub fn is_context_in_segment(ec: &EngineEvaluationContext, segment: &SegmentContext) -> (r: bool)
    ensures
        r == in_segment(*ec, *segment),
{
    if segment.rules.len() == 0 {
        return false;
    }
    let mut i: usize = 0;
    while i < segment.rules.len()
        invariant
            i <= segment.rules.len(),
            forall|j: int|
                0 <= j < i ==> rule_matches(*ec, #[trigger] segment.rules@[j], segment.key@),
        decreases segment.rules.len() - i,
    {
        if !context_matches_segment_rule(ec, &segment.rules[i], segment.key.as_str()) {
            return false;
        }
        i += 1;
    }
    true
}

/// Whether the context matches a rule of a segment with the given key.
pub fn context_matches_segment_rule(
    ec: &EngineEvaluationContext,
    rule: &SegmentRule,
    segment_key: &str,
) -> (r: bool)
    ensures
        r == rule_matches(*ec, *rule, segment_key@),
    decreases rule,
{
    if rule.conditions.len() > 0 {
        if !matches_conditions_by_rule_type(
            ec,
            rule.conditions.as_slice(),
            &rule.rule_type,
            segment_key,
        ) {
            return false;
        }
    }
    let mut i: usize = 0;
    while i < rule.rules.len()
        invariant
            i <= rule.rules.len(),
            forall|j: int|
                0 <= j < i ==> rule_matches(*ec, #[trigger] rule.rules@[j], segment_key@),
        decreases rule.rules.len() - i,
    {
        if !context_matches_segment_rule(ec, &rule.rules[i], segment_key) {
            return false;
        }
        i += 1;
    }
    true
}

/// Whether the context meets a list of conditions as the rule type asks.
pub fn matches_conditions_by_rule_type(
    ec: &EngineEvaluationContext,
    conditions: &[Condition],
    rule_type: &SegmentRuleType,
    segment_key: &str,
) -> (r: bool)
    ensures
        r == conditions_match(*ec, conditions@, *rule_type, segment_key@),
{
    let mut i: usize = 0;
    while i < conditions.len()
        invariant
            i <= conditions.len(),
            forall|j: int|
                0 <= j < i ==> (condition_matches(*ec, #[trigger] conditions@[j], segment_key@) == (
                *rule_type == SegmentRuleType::All)),
        decreases conditions.len() - i,
    {
        let condition_matches = context_matches_condition(ec, &conditions[i], segment_key);
        match rule_type {
            SegmentRuleType::All => {
                if !condition_matches {
                    return false;
                }
            },
            SegmentRuleType::NoneOf => {
                if condition_matches {
                    return false;
                }
            },
            SegmentRuleType::Any => {
                if condition_matches {
                    return true;
                }
            },
        }
        i += 1;
    }
    match rule_type {
        SegmentRuleType::Any => false,
        _ => true,
    }
}

/// Whether the context meets a condition of a segment with the given key.
pub fn context_matches_condition(
    ec: &EngineEvaluationContext,
    condition: &Condition,
    segment_key: &str,
) -> (r: bool)
    ensures
        r == condition_matches(*ec, *condition, segment_key@),
{
    let context_value = get_context_value(ec, condition.property.as_str());
    match condition.operator {
        ConditionOperator::PercentageSplit => match_percentage_split(
            ec,
            condition,
            segment_key,
            context_value.as_ref(),
        ),
        ConditionOperator::In => match_in_operator(condition, context_value.as_ref()),
        ConditionOperator::IsNotSet => context_value.is_none(),
        ConditionOperator::IsSet => context_value.is_some(),
        _ => {
            match context_value {
                Some(value) => {
                    let text = condition.value.as_string();
                    parse_and_match(&condition.operator, &value, text.as_str())
                },
                None => false,
            }
        },
    }
}

/// The value in the context that `property` names.
pub fn get_context_value(ec: &EngineEvaluationContext, property: &str) -> (r: Option<
    FlagsmithValue,
>)
    ensures
        match r {
            Some(v) => context_value(*ec, property@) == Some(v@),
            None => context_value(*ec, property@) is None,
        },
{
    if property.is_empty() {
        return None;
    }
    let chars = chars_of(property);
    let marker = chars_of("$.");
    if starts_with(&chars, &marker) {
        match get_value_from_jsonpath(ec, property) {
            Some(value) => { return Some(value); },
            None => {},
        }
    }
    match &ec.identity {
        Some(identity) => match identity.traits.get(property) {
            Some(value) => Some(value.clone()),
            None => None,
        },
        None => None,
    }
}

/// The value that the first node selected by the JSONPath query `path` in
/// the context document stands for.
pub fn get_value_from_jsonpath(ec: &EngineEvaluationContext, path: &str) -> (r: Option<
    FlagsmithValue,
>)
    ensures
        match r {
            Some(v) => path_value(path@, context_document(*ec)) == Some(v@),
            None => path_value(path@, context_document(*ec)) is None,
        },
{
    let document = render_context(ec);
    first_value(path, document.as_str())
}

/// The key that identifies the identity in hashes.
pub fn get_identity_key(ec: &EngineEvaluationContext) -> (r: Option<String>)
    ensures
        match r {
            Some(key) => identity_key(*ec) == Some(key@),
            None => identity_key(*ec) is None,
        },
{
    match &ec.identity {
        Some(identity) => {
            if identity.key.as_str().is_empty() {
                let mut key = ec.environment.key.clone();
                key.append("_");
                key.append(identity.identifier.as_str());
                Some(key)
            } else {
                Some(identity.key.clone())
            }
        },
        None => None,
    }
}

/// Whether a hashed percentage is no greater than a threshold.
pub fn percentage_within(percentage: HashedPercentage, threshold: &Decimal) -> (r: bool)
    ensures
        r == within(percentage@, threshold@),
{
    percentage.at_most(threshold)
}

/// The percentage-split condition: the hash of the segment key and of the
/// property's value (or of the identity key, when the condition names no
/// value) is no greater than the threshold that the condition gives.
pub fn match_percentage_split(
    ec: &EngineEvaluationContext,
    condition: &Condition,
    segment_key: &str,
    context_value: Option<&FlagsmithValue>,
) -> (r: bool)
    ensures
        r == split_matches(
            *ec,
            *condition,
            segment_key@,
            match context_value {
                Some(v) => Some(v@),
                None => None,
            },
        ),
{
    let text = condition.value.as_string();
    let threshold = match read_number(text.as_str()) {
        Some(t) => t,
        None => { return false; },
    };
    let second: String = match context_value {
        Some(v) => v.value.clone(),
        None => match get_identity_key(ec) {
            Some(key) => key,
            None => { return false; },
        },
    };
    let mut object_ids: Vec<&str> = Vec::new();
    object_ids.push(segment_key);
    object_ids.push(second.as_str());
    let percentage = get_hashed_percentage_for_object_ids(&object_ids, 1);
    assert(crate::utils::hashing::id_texts(object_ids@) =~= seq![segment_key@, second@]);
    percentage_reaches(percentage, &threshold)
}

/// The `IN` condition.
pub fn match_in_operator(condition: &Condition, context_value: Option<&FlagsmithValue>) -> (r:
    bool)
    ensures
        r == in_matches(
            *condition,
            match context_value {
                Some(v) => Some(v@),
                None => None,
            },
        ),
{
    match context_value {
        None => false,
        Some(value) => {
            match value.value_type {
                FlagsmithValueType::Bool => false,
                FlagsmithValueType::Float => false,
                _ => condition.value.contains_string(value.value.as_str()),
            }
        },
    }
}

/// What an operator other than `IN`, `IS_SET`, `IS_NOT_SET` and
/// `PERCENTAGE_SPLIT` makes of a value and the text of a condition value.
pub fn parse_and_match(
    operator: &ConditionOperator,
    trait_value: &FlagsmithValue,
    condition_value: &str,
) -> (r: bool)
    ensures
        r == value_matches(*operator, trait_value@, condition_value@),
{
    match operator {
        ConditionOperator::Modulo => {
            return evaluate_modulo(trait_value.value.as_str(), condition_value);
        },
        ConditionOperator::Regex => {
            return evaluate_regex(trait_value.value.as_str(), condition_value);
        },
        ConditionOperator::Contains => {
            let hay = chars_of(trait_value.value.as_str());
            let needle = chars_of(condition_value);
            return contains(&hay, &needle);
        },
        ConditionOperator::NotContains => {
            let hay = chars_of(trait_value.value.as_str());
            let needle = chars_of(condition_value);
            return !contains(&hay, &needle);
        },
        _ => {},
    }
    let asked = chars_of(condition_value);
    let suffix = chars_of(":semver");
    if ends_with(&asked, &suffix) {
        return compare_string(operator, trait_value.value.as_str(), condition_value);
    }
    match trait_value.value_type {
        FlagsmithValueType::Bool => compare_bool(
            operator,
            trait_value.value.as_str(),
            condition_value,
        ),
        FlagsmithValueType::Integer => compare_integer(
            operator,
            trait_value.value.as_str(),
            condition_value,
        ),
        FlagsmithValueType::Float => compare_float(
            operator,
            trait_value.value.as_str(),
            condition_value,
        ),
        FlagsmithValueType::String => compare_string(
            operator,
            trait_value.value.as_str(),
            condition_value,
        ),
        FlagsmithValueType::Null => false,
    }
}

/// The boolean that a text denotes.
pub fn parse_bool(s: &str, allow_int_conversion: bool) -> (r: Option<bool>)
    ensures
        r == bool_value(s@, allow_int_conversion),
{
    let chars = chars_of(s);
    let lowered = to_ascii_lower(&chars);
    let yes = chars_of("true");
    let one = chars_of("1");
    let no = chars_of("false");
    if same_chars(&lowered, &yes) {
        Some(true)
    } else if allow_int_conversion && same_chars(&chars, &one) {
        Some(true)
    } else if same_chars(&lowered, &no) {
        Some(false)
    } else {
        None
    }
}

/// What an operator makes of two booleans.
pub fn dispatch_equality(operator: &ConditionOperator, a: bool, b: bool) -> (r: bool)
    ensures
        r == equates(*operator, a, b),
{
    match operator {
        ConditionOperator::Equal => a == b,
        ConditionOperator::NotEqual => a != b,
        _ => false,
    }
}

/// The comparison of a boolean value.
pub fn compare_bool(operator: &ConditionOperator, trait_value: &str, condition_value: &str) -> (r:
    bool)
    ensures
        r == bool_matches(*operator, trait_value@, condition_value@),
{
    match (parse_bool(trait_value, true), parse_bool(condition_value, true)) {
        (Some(a), Some(b)) => dispatch_equality(operator, a, b),
        _ => false,
    }
}

/// The comparison of an integer value.
pub fn compare_integer(operator: &ConditionOperator, trait_value: &str, condition_value: &str) -> (r:
    bool)
    ensures
        r == integer_matches(*operator, trait_value@, condition_value@),
{
    let left = chars_of(trait_value);
    let right = chars_of(condition_value);
    match (parse_i64(&left), parse_i64(&right)) {
        (Some(a), Some(b)) => dispatch_operator(operator, a as i128, b as i128),
        _ => false,
    }
}

/// The comparison of a decimal value.
pub fn compare_float(operator: &ConditionOperator, trait_value: &str, condition_value: &str) -> (r:
    bool)
    ensures
        r == float_matches(*operator, trait_value@, condition_value@),
{
    match compare_numbers(operator, trait_value, condition_value) {
        Some(holds) => holds,
        None => false,
    }
}

/// The comparison of a text value.
pub fn compare_string(operator: &ConditionOperator, trait_value: &str, condition_value: &str) -> (r:
    bool)
    ensures
        r == string_matches(*operator, trait_value@, condition_value@),
{
    let left = chars_of(trait_value);
    let right = chars_of(condition_value);
    let suffix = chars_of(":semver");
    proof {
        reveal_strlit(":semver");
    }
    if ends_with(&right, &suffix) {
        let version = slice_of(&right, 0, right.len() - 7);
        let version_text = text_of(&version);
        assert(version@ == condition_value@.take(condition_value@.len() - 7));
        return evaluate_semver(operator, trait_value, version_text.as_str());
    }
    match (parse_bool(trait_value, false), parse_bool(condition_value, false)) {
        (Some(a), Some(b)) => { return dispatch_equality(operator, a, b); },
        _ => {},
    }
    match (parse_i64(&left), parse_i64(&right)) {
        (Some(a), Some(b)) => { return dispatch_operator(operator, a as i128, b as i128); },
        _ => {},
    }
    match compare_number_chars(operator, &left, &right) {
        Some(holds) => { return holds; },
        _ => {},
    }
    let text_order: i128 = if same_chars(&left, &right) {
        0
    } else if less(&left, &right) {
        -1
    } else {
        1
    };
    dispatch_operator(operator, text_order, 0)
}

/// What a comparison operator makes of two numbers.
pub fn dispatch_operator(operator: &ConditionOperator, v1: i128, v2: i128) -> (r: bool)
    ensures
        r == compares(*operator, v1 as int, v2 as int),
{
    match operator {
        ConditionOperator::Equal => v1 == v2,
        ConditionOperator::NotEqual => v1 != v2,
        ConditionOperator::GreaterThan => v1 > v2,
        ConditionOperator::LessThan => v1 < v2,
        ConditionOperator::GreaterThanInclusive => v1 >= v2,
        ConditionOperator::LessThanInclusive => v1 <= v2,
        _ => false,
    }
}

/// Whether a regular expression found a match.
pub fn regex_verdict(found: Option<bool>) -> (r: bool)
    ensures
        r == regex_matches(found),
{
    match found {
        Some(hit) => hit,
        None => false,
    }
}

/// The `REGEX` condition: the condition value, as a regular expression,
/// matches somewhere in the value. A condition value that is no regular
/// expression matches nothing.
pub fn evaluate_regex(trait_value: &str, condition_value: &str) -> (r: bool)
    ensures
        r == regex_matches(regex_search(condition_value@, trait_value@)),
{
    regex_verdict(search(condition_value, trait_value))
}

/// The `MODULO` condition.
pub fn evaluate_modulo(trait_value: &str, condition_value: &str) -> (r: bool)
    ensures
        r == modulo_matches(trait_value@, condition_value@),
{
    let chars = chars_of(condition_value);
    let bounds = fields(&chars, '|');
    if bounds.len() != 2 {
        return false;
    }
    let first = slice_of(&chars, bounds[0].0, bounds[0].1);
    let second = slice_of(&chars, bounds[1].0, bounds[1].1);
    let divisor = match read_number_chars(&first) {
        Some(d) => d,
        None => { return false; },
    };
    let remainder = match read_number_chars(&second) {
        Some(d) => d,
        None => { return false; },
    };
    let value = match read_number(trait_value) {
        Some(d) => d,
        None => { return false; },
    };
    modulo_holds(&value, &divisor, &remainder)
}

/// What a semantic-version comparison comes to, given how the two versions
/// stand to one another.
pub fn semver_verdict(operator: &ConditionOperator, order: Option<i8>) -> (r: bool)
    ensures
        r == semver_matches(*operator, order),
{
    match order {
        Some(o) => dispatch_operator(operator, o as i128, 0),
        None => false,
    }
}

/// The comparison of a value with a condition value as semantic versions.
/// It holds of nothing that is not a semantic version.
pub fn evaluate_semver(operator: &ConditionOperator, trait_value: &str, condition_version: &str) -> (r:
    bool)
    ensures
        r == semver_matches(*operator, semver_order(trait_value@, condition_version@)),
{
    semver_verdict(operator, order(trait_value, condition_version))
}

/// `NOT_CONTAINS` holds of a value exactly when `CONTAINS` does not.
pub proof fn contains_negates_not_contains(value: ValueView, condition: Seq<char>)
    ensures
        value_matches(ConditionOperator::Contains, value, condition) == !value_matches(
            ConditionOperator::NotContains,
            value,
            condition,
        ),
{
}

/// Where the comparison of a value with a condition value is defined,
/// `NOT_EQUAL` holds exactly when `EQUAL` does not.
pub proof fn equal_negates_not_equal(value: ValueView, condition: Seq<char>)
    requires
        comparison_defined(value, condition),
    ensures
        value_matches(ConditionOperator::Equal, value, condition) == !value_matches(
            ConditionOperator::NotEqual,
            value,
            condition,
        ),
{
    if number_of(value.text) is Some && number_of(condition) is Some {
        equal_texts_are_not_unequal(value.text, condition);
    }
}

} // verus!
