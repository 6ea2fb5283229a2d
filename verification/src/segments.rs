//! Segments as environment documents hold them: conditions on the traits of
//! an identity, combined by rules.

pub mod constants;
pub mod evaluator;

use vstd::prelude::*;
use vstd::string::*;
use crate::decimal::{i64_value, parse_i64};
use crate::numbers::{compare_numbers, texts_compared};
use crate::engine_eval::context::ConditionOperator;
use crate::engine_eval::segment_evaluator::{
    compares, dispatch_equality, dispatch_operator, equates, evaluate_modulo, modulo_matches,
    regex_matches, regex_verdict, semver_matches, semver_verdict,
};
use crate::features::FeatureState;
use crate::patterns::{regex_search, search};
use crate::segments::constants::{operator_of, parse_operator};
use crate::text::{
    chars_of, contains, ends_with, fields, has_substring, has_suffix, range_equals, same_chars,
    slice_of, split_on, text_of,
};
use crate::types::{FlagsmithValue, FlagsmithValueType, ValueView};
use crate::versions::{order, semver_order};

verus! {

/// A condition on a trait of an identity.
#[derive(Clone, Debug, PartialEq, Eq)]
pub struct SegmentCondition {
    pub operator: String,
    pub value: Option<String>,
    pub property: Option<String>,
}

/// A rule of a segment: conditions, combined by the rule's type, and nested
/// rules, all of which must match.
#[derive(Debug, PartialEq, Eq)]
pub struct SegmentRule {
    pub segment_rule_type: String,
    pub rules: Vec<Box<SegmentRule>>,
    pub conditions: Vec<SegmentCondition>,
}

/// A segment of a project.
#[derive(Debug, PartialEq, Eq)]
pub struct Segment {
    pub id: u32,
    pub name: String,
    pub rules: Vec<SegmentRule>,
    pub feature_states: Vec<FeatureState>,
}

/// What a comparison operator, given by name, makes of two numbers.
pub open spec fn number_matches(operator: Seq<char>, a: int, b: int) -> bool {
    match operator_of(operator) {
        Some(op) => compares(op, a, b),
        None => false,
    }
}

/// What an operator, given by name, makes of two booleans.
pub open spec fn boolean_matches(operator: Seq<char>, a: bool, b: bool) -> bool {
    match operator_of(operator) {
        Some(op) => equates(op, a, b),
        None => false,
    }
}

/// What an operator, given by name, makes of two texts: equality,
/// containment and regular expressions are defined on them.
pub open spec fn text_matches(operator: Seq<char>, value: Seq<char>, condition: Seq<char>) -> bool {
    match operator_of(operator) {
        Some(ConditionOperator::Equal) => value == condition,
        Some(ConditionOperator::NotEqual) => value != condition,
        Some(ConditionOperator::Contains) => has_substring(value, condition),
        Some(ConditionOperator::NotContains) => !has_substring(value, condition),
        Some(ConditionOperator::Regex) => regex_matches(regex_search(condition, value)),
        _ => false,
    }
}

/// What a comparison operator, given by name, makes of two numbers read
/// from texts.
pub open spec fn reading_matches(operator: Seq<char>, value: Seq<char>, condition: Seq<char>) -> bool {
    match operator_of(operator) {
        Some(op) => texts_compared(op, value, condition) == Some(true),
        None => false,
    }
}

/// Whether `value` is one of the comma-separated fields of `condition`.
pub open spec fn field_matches(value: Seq<char>, condition: Seq<char>) -> bool {
    exists|k: int|
        0 <= k < split_on(condition, ',').len() && #[trigger] split_on(condition, ',')[k] == value
}

/// The boolean that a text denotes: `true` or `false`, exactly.
pub open spec fn strict_bool(s: Seq<char>) -> Option<bool> {
    if s == "true"@ {
        Some(true)
    } else if s == "false"@ {
        Some(false)
    } else {
        None
    }
}

/// Whether a condition with the given operator and value holds of a trait
/// value. A side that cannot be read as the value's tag asks makes the
/// condition fail.
pub open spec fn trait_matches(operator: Seq<char>, condition: Seq<char>, value: ValueView) -> bool {
    if operator == "MODULO"@ {
        modulo_matches(value.text, condition)
    } else if operator == "IN"@ {
        match value.value_type {
            FlagsmithValueType::String => field_matches(value.text, condition),
            FlagsmithValueType::Integer => field_matches(value.text, condition),
            _ => false,
        }
    } else {
        match value.value_type {
            FlagsmithValueType::Integer => match (i64_value(value.text), i64_value(condition)) {
                (Some(a), Some(b)) => number_matches(operator, a, b),
                _ => false,
            },
            FlagsmithValueType::Float => reading_matches(operator, value.text, condition),
            FlagsmithValueType::String => if has_suffix(condition, ":semver"@) {
                match operator_of(operator) {
                    Some(op) => semver_matches(
                        op,
                        semver_order(value.text, condition.take(condition.len() - 7)),
                    ),
                    None => false,
                }
            } else {
                text_matches(operator, value.text, condition)
            },
            FlagsmithValueType::Bool => match (strict_bool(value.text), strict_bool(condition)) {
                (Some(a), Some(b)) => boolean_matches(operator, a, b),
                _ => false,
            },
            FlagsmithValueType::Null => false,
        }
    }
}

/// The boolean that a text denotes: `true` or `false`, exactly.
pub fn parse_strict_bool(s: &str) -> (r: Option<bool>)
    ensures
        r == strict_bool(s@),
{
    let chars = chars_of(s);
    let yes = chars_of("true");
    let no = chars_of("false");
    if same_chars(&chars, &yes) {
        Some(true)
    } else if same_chars(&chars, &no) {
        Some(false)
    } else {
        None
    }
}

impl SegmentCondition {
    /// Whether this condition holds of a trait value. A condition without
    /// value holds of nothing.
    pub open spec fn holds_of(&self, value: ValueView) -> bool {
        match self.value {
            Some(condition) => trait_matches(self.operator@, condition@, value),
            None => false,
        }
    }

    /// Whether this condition holds of a trait value.
    pub fn matches_trait_value(&self, trait_value: &FlagsmithValue) -> (r: bool)
        ensures
            r == self.holds_of(trait_value@),
    {
        let condition = match &self.value {
            Some(v) => v,
            None => { return false; },
        };
        let operator = chars_of(self.operator.as_str());
        let modulo = chars_of("MODULO");
        let within = chars_of("IN");
        if same_chars(&operator, &modulo) {
            return self.modulo_operations(trait_value, condition.as_str());
        }
        if same_chars(&operator, &within) {
            return match trait_value.value_type {
                FlagsmithValueType::String => self.in_operations(
                    trait_value.value.as_str(),
                    condition.as_str(),
                ),
                FlagsmithValueType::Integer => self.in_operations(
                    trait_value.value.as_str(),
                    condition.as_str(),
                ),
                _ => false,
            };
        }
        match trait_value.value_type {
            FlagsmithValueType::Integer => {
                let left = chars_of(trait_value.value.as_str());
                let right = chars_of(condition.as_str());
                match (parse_i64(&left), parse_i64(&right)) {
                    (Some(a), Some(b)) => self.number_operations(a as i128, b as i128),
                    _ => false,
                }
            },
            FlagsmithValueType::Float => self.float_operations(
                trait_value.value.as_str(),
                condition.as_str(),
            ),
            FlagsmithValueType::String => {
                let right = chars_of(condition.as_str());
                let suffix = chars_of(":semver");
                proof {
                    reveal_strlit(":semver");
                }
                if ends_with(&right, &suffix) {
                    let version = slice_of(&right, 0, right.len() - 7);
                    let version_text = text_of(&version);
                    assert(version@ == condition@.take(condition@.len() - 7));
                    self.semver_operations(order(trait_value.value.as_str(), version_text.as_str()))
                } else {
                    self.string_operations(trait_value.value.as_str(), condition.as_str())
                }
            },
            FlagsmithValueType::Bool => {
                match (parse_strict_bool(trait_value.value.as_str()), parse_strict_bool(condition.as_str())) {
                    (Some(a), Some(b)) => self.bool_operations(a, b),
                    _ => false,
                }
            },
            FlagsmithValueType::Null => false,
        }
    }

    /// What this condition's operator makes of two texts.
    pub fn string_operations(&self, trait_value: &str, segment_value: &str) -> (r: bool)
        ensures
            r == text_matches(self.operator@, trait_value@, segment_value@),
    {
        let left = chars_of(trait_value);
        let right = chars_of(segment_value);
        match parse_operator(self.operator.as_str()) {
            Some(ConditionOperator::Equal) => same_chars(&left, &right),
            Some(ConditionOperator::NotEqual) => !same_chars(&left, &right),
            Some(ConditionOperator::Contains) => contains(&left, &right),
            Some(ConditionOperator::NotContains) => !contains(&left, &right),
            Some(ConditionOperator::Regex) => regex_verdict(search(segment_value, trait_value)),
            _ => false,
        }
    }

    /// The modulo condition `D|R`.
    pub fn modulo_operations(&self, trait_value: &FlagsmithValue, segment_value: &str) -> (r: bool)
        ensures
            r == modulo_matches(trait_value.value@, segment_value@),
    {
        evaluate_modulo(trait_value.value.as_str(), segment_value)
    }

    /// What this condition's operator makes of two texts read as numbers.
    pub fn float_operations(&self, trait_value: &str, segment_value: &str) -> (r: bool)
        ensures
            r == reading_matches(self.operator@, trait_value@, segment_value@),
    {
        match parse_operator(self.operator.as_str()) {
            Some(op) => match compare_numbers(&op, trait_value, segment_value) {
                Some(holds) => holds,
                None => false,
            },
            None => false,
        }
    }

    /// What this condition's operator makes of two semantic versions, given
    /// how they stand to one another.
    pub fn semver_operations(&self, order: Option<i8>) -> (r: bool)
        ensures
            r == match operator_of(self.operator@) {
                Some(op) => semver_matches(op, order),
                None => false,
            },
    {
        match parse_operator(self.operator.as_str()) {
            Some(op) => semver_verdict(&op, order),
            None => false,
        }
    }

    /// What this condition's operator makes of two booleans.
    pub fn bool_operations(&self, trait_value: bool, segment_value: bool) -> (r: bool)
        ensures
            r == boolean_matches(self.operator@, trait_value, segment_value),
    {
        match parse_operator(self.operator.as_str()) {
            Some(op) => dispatch_equality(&op, trait_value, segment_value),
            None => false,
        }
    }

    /// What this condition's operator makes of two numbers.
    pub fn number_operations(&self, trait_value: i128, segment_value: i128) -> (r: bool)
        ensures
            r == number_matches(self.operator@, trait_value as int, segment_value as int),
    {
        match parse_operator(self.operator.as_str()) {
            Some(op) => dispatch_operator(&op, trait_value, segment_value),
            None => false,
        }
    }

    /// Whether `trait_value` is one of the comma-separated fields of
    /// `segment_value`.
    pub fn in_operations(&self, trait_value: &str, segment_value: &str) -> (r: bool)
        ensures
            r == field_matches(trait_value@, segment_value@),
    {
        let chars = chars_of(segment_value);
        let wanted = chars_of(trait_value);
        let bounds = fields(&chars, ',');
        let mut k: usize = 0;
        while k < bounds.len()
            invariant
                k <= bounds.len(),
                chars@ == segment_value@,
                wanted@ == trait_value@,
                bounds@.len() == split_on(chars@, ',').len(),
                forall|j: int|
                    0 <= j < bounds@.len() ==> (#[trigger] bounds@[j]).0 <= bounds@[j].1
                        <= chars.len() && split_on(chars@, ',')[j] == chars@.subrange(
                        bounds@[j].0 as int,
                        bounds@[j].1 as int,
                    ),
                forall|j: int| 0 <= j < k ==> #[trigger] split_on(chars@, ',')[j] != wanted@,
            decreases bounds.len() - k,
        {
            let (from, to) = bounds[k];
            if range_equals(&chars, from, to, &wanted) {
                assert(split_on(chars@, ',')[k as int] == wanted@);
                return true;
            }
            assert(split_on(chars@, ',')[k as int] != wanted@);
            k += 1;
        }
        false
    }
}

} // verus!
