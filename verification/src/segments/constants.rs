//! The names of rule types and of condition operators.

use vstd::prelude::*;
use vstd::string::*;
use crate::engine_eval::context::{ConditionOperator, SegmentRuleType};
use crate::text::{chars_of, same_chars};

verus! {

/// The rule type that asks for all conditions.
pub const ALL_RULE: &'static str = "ALL";

/// The rule type that asks for at least one condition.
pub const ANY_RULE: &'static str = "ANY";

/// The rule type that asks for no condition.
pub const NONE_RULE: &'static str = "NONE";

/// The operator that asks for equality.
pub const EQUAL: &'static str = "EQUAL";

/// The operator that asks for greater than.
pub const GREATER_THAN: &'static str = "GREATER_THAN";

/// The operator that asks for less than.
pub const LESS_THAN: &'static str = "LESS_THAN";

/// The operator that asks for less than or equal.
pub const LESS_THAN_INCLUSIVE: &'static str = "LESS_THAN_INCLUSIVE";

/// The operator that asks for containment.
pub const CONTAINS: &'static str = "CONTAINS";

/// The operator that asks for greater than or equal.
pub const GREATER_THAN_INCLUSIVE: &'static str = "GREATER_THAN_INCLUSIVE";

/// The operator that asks for the absence of containment.
pub const NOT_CONTAINS: &'static str = "NOT_CONTAINS";

/// The operator that asks for inequality.
pub const NOT_EQUAL: &'static str = "NOT_EQUAL";

/// The operator that asks for a match of a regular expression.
pub const REGEX: &'static str = "REGEX";

/// The operator that asks for a share of identities.
pub const PERCENTAGE_SPLIT: &'static str = "PERCENTAGE_SPLIT";

/// The operator that asks for a remainder.
pub const MODULO: &'static str = "MODULO";

/// The operator that asks for membership in a list.
pub const IN: &'static str = "IN";

/// The operator that asks for the presence of a trait.
pub const IS_SET: &'static str = "IS_SET";

/// The operator that asks for the absence of a trait.
pub const IS_NOT_SET: &'static str = "IS_NOT_SET";

/// The operator that a name denotes.
pub open spec fn operator_of(name: Seq<char>) -> Option<ConditionOperator> {
    if name == "EQUAL"@ {
        Some(ConditionOperator::Equal)
    } else if name == "NOT_EQUAL"@ {
        Some(ConditionOperator::NotEqual)
    } else if name == "GREATER_THAN"@ {
        Some(ConditionOperator::GreaterThan)
    } else if name == "GREATER_THAN_INCLUSIVE"@ {
        Some(ConditionOperator::GreaterThanInclusive)
    } else if name == "LESS_THAN"@ {
        Some(ConditionOperator::LessThan)
    } else if name == "LESS_THAN_INCLUSIVE"@ {
        Some(ConditionOperator::LessThanInclusive)
    } else if name == "CONTAINS"@ {
        Some(ConditionOperator::Contains)
    } else if name == "NOT_CONTAINS"@ {
        Some(ConditionOperator::NotContains)
    } else if name == "IN"@ {
        Some(ConditionOperator::In)
    } else if name == "REGEX"@ {
        Some(ConditionOperator::Regex)
    } else if name == "PERCENTAGE_SPLIT"@ {
        Some(ConditionOperator::PercentageSplit)
    } else if name == "MODULO"@ {
        Some(ConditionOperator::Modulo)
    } else if name == "IS_SET"@ {
        Some(ConditionOperator::IsSet)
    } else if name == "IS_NOT_SET"@ {
        Some(ConditionOperator::IsNotSet)
    } else {
        None
    }
}

/// The rule type that a name denotes.
pub open spec fn rule_type_of(name: Seq<char>) -> Option<SegmentRuleType> {
    if name == "ALL"@ {
        Some(SegmentRuleType::All)
    } else if name == "ANY"@ {
        Some(SegmentRuleType::Any)
    } else if name == "NONE"@ {
        Some(SegmentRuleType::NoneOf)
    } else {
        None
    }
}

/// Whether `text` is the given name.
pub fn is_name(text: &Vec<char>, name: &str) -> (r: bool)
    ensures
        r == (text@ == name@),
{
    let wanted = chars_of(name);
    same_chars(text, &wanted)
}

/// The operator that a name denotes.
pub fn parse_operator(name: &str) -> (r: Option<ConditionOperator>)
    ensures
        r == operator_of(name@),
{
    let text = chars_of(name);
    if is_name(&text, "EQUAL") {
        Some(ConditionOperator::Equal)
    } else if is_name(&text, "NOT_EQUAL") {
        Some(ConditionOperator::NotEqual)
    } else if is_name(&text, "GREATER_THAN") {
        Some(ConditionOperator::GreaterThan)
    } else if is_name(&text, "GREATER_THAN_INCLUSIVE") {
        Some(ConditionOperator::GreaterThanInclusive)
    } else if is_name(&text, "LESS_THAN") {
        Some(ConditionOperator::LessThan)
    } else if is_name(&text, "LESS_THAN_INCLUSIVE") {
        Some(ConditionOperator::LessThanInclusive)
    } else if is_name(&text, "CONTAINS") {
        Some(ConditionOperator::Contains)
    } else if is_name(&text, "NOT_CONTAINS") {
        Some(ConditionOperator::NotContains)
    } else if is_name(&text, "IN") {
        Some(ConditionOperator::In)
    } else if is_name(&text, "REGEX") {
        Some(ConditionOperator::Regex)
    } else if is_name(&text, "PERCENTAGE_SPLIT") {
        Some(ConditionOperator::PercentageSplit)
    } else if is_name(&text, "MODULO") {
        Some(ConditionOperator::Modulo)
    } else if is_name(&text, "IS_SET") {
        Some(ConditionOperator::IsSet)
    } else if is_name(&text, "IS_NOT_SET") {
        Some(ConditionOperator::IsNotSet)
    } else {
        None
    }
}

/// The rule type that a name denotes.
pub fn parse_rule_type(name: &str) -> (r: Option<SegmentRuleType>)
    ensures
        r == rule_type_of(name@),
{
    let text = chars_of(name);
    if is_name(&text, "ALL") {
        Some(SegmentRuleType::All)
    } else if is_name(&text, "ANY") {
        Some(SegmentRuleType::Any)
    } else if is_name(&text, "NONE") {
        Some(SegmentRuleType::NoneOf)
    } else {
        None
    }
}

} // verus!
