//! The evaluation context: the environment, its features and segments, and
//! optionally the identity that flags are evaluated for.

use vstd::prelude::*;
use vstd::string::*;
use crate::decimal::{Decimal, UNIT};
use crate::maps::StringMap;
use crate::json::{json_string_list, parse_string_list};
use crate::text::{
    chars_of, fields, joined, range_equals, slice_of, split_on, text_of, texts, trim_bounds,
    trim_start, trimmed, whitespace,
};
use crate::types::FlagsmithValue;

verus! {

/// Where a segment comes from.
#[derive(Clone, Copy, Debug, PartialEq, Eq, Structural)]
pub enum SegmentSource {
    /// The segment was defined through the API.
    Api,
    /// The segment stands for a group of identity overrides.
    IdentityOverride,
}

/// Metadata of a feature.
#[derive(Clone, Copy, Debug, PartialEq, Eq, Structural)]
pub struct FeatureMetadata {
    pub feature_id: u32,
}

impl Default for FeatureMetadata {
    fn default() -> (r: Self)
        ensures
            r.feature_id == 0,
    {
        FeatureMetadata { feature_id: 0 }
    }
}

/// The strength of an override or of a variant. A lower level is stronger;
/// `Strongest` is stronger than every level and `Weakest` is weaker than
/// every level.
#[derive(Clone, Copy, Debug, PartialEq, Eq, Structural)]
pub enum Priority {
    Strongest,
    Level(Decimal),
    Weakest,
}

/// Whether priority `a` is strictly stronger than priority `b`.
pub open spec fn stronger(a: Priority, b: Priority) -> bool {
    match (a, b) {
        (Priority::Weakest, _) => false,
        (Priority::Strongest, Priority::Strongest) => false,
        (Priority::Strongest, _) => true,
        (Priority::Level(_), Priority::Strongest) => false,
        (Priority::Level(x), Priority::Level(y)) => x@ < y@,
        (Priority::Level(_), Priority::Weakest) => true,
    }
}

/// The priority that a feature context or a variant has when none is
/// given: the weakest.
pub open spec fn priority_or_default(priority: Option<Priority>) -> Priority {
    match priority {
        Some(p) => p,
        None => Priority::Weakest,
    }
}

/// Whether priority `a` is strictly stronger than priority `b`.
pub fn is_stronger(a: &Priority, b: &Priority) -> (r: bool)
    ensures
        r == stronger(*a, *b),
{
    match a {
        Priority::Weakest => false,
        Priority::Strongest => match b {
            Priority::Strongest => false,
            _ => true,
        },
        Priority::Level(x) => match b {
            Priority::Strongest => false,
            Priority::Level(y) => x.units() < y.units(),
            Priority::Weakest => true,
        },
    }
}

/// One variant of a multivariate feature.
#[derive(Clone, Debug, PartialEq, Eq)]
pub struct FeatureValue {
    /// The value that the variant supplies.
    pub value: FlagsmithValue,
    /// The share of identities that get this variant, in per cent.
    pub weight: Decimal,
    /// The place of the variant among its siblings.
    pub priority: Option<Priority>,
}

/// A feature as it stands in the environment or in a segment override.
#[derive(Clone, Debug, PartialEq, Eq)]
pub struct FeatureContext {
    /// The salt for multivariate hashing. An empty key switches multivariate
    /// selection off.
    pub key: String,
    pub name: String,
    pub enabled: bool,
    pub value: FlagsmithValue,
    /// The strength of this feature context as an override.
    pub priority: Option<Priority>,
    pub variants: Vec<FeatureValue>,
    pub metadata: FeatureMetadata,
}

/// The environment that is evaluated.
#[derive(Clone, Debug, PartialEq, Eq)]
pub struct EnvironmentContext {
    pub key: String,
    pub name: String,
}

/// The identity that flags are evaluated for.
#[derive(Clone, Debug, PartialEq, Eq)]
pub struct IdentityContext {
    pub identifier: String,
    /// The salt for percentage splits. When it is empty, the engine uses the
    /// environment key and the identifier, joined by an underscore.
    pub key: String,
    pub traits: StringMap<FlagsmithValue>,
}

/// The operators of segment conditions.
#[derive(Clone, Copy, Debug, PartialEq, Eq, Structural)]
pub enum ConditionOperator {
    Equal,
    NotEqual,
    GreaterThan,
    GreaterThanInclusive,
    LessThan,
    LessThanInclusive,
    Contains,
    NotContains,
    In,
    Regex,
    PercentageSplit,
    Modulo,
    IsSet,
    IsNotSet,
}

/// The value that a condition compares against: one text, or a list of texts.
#[derive(Clone, Debug, PartialEq, Eq)]
pub enum ConditionValue {
    Multiple(Vec<String>),
    Single(String),
}

/// One condition of a segment rule.
#[derive(Clone, Debug, PartialEq, Eq)]
pub struct Condition {
    pub operator: ConditionOperator,
    /// The name of a trait, or a JSONPath query into the context when it
    /// starts with `$.`.
    pub property: String,
    pub value: ConditionValue,
}

/// How the conditions of a rule combine.
#[derive(Clone, Copy, Debug, PartialEq, Eq, Structural)]
pub enum SegmentRuleType {
    All,
    Any,
    NoneOf,
}

/// A rule of a segment: conditions, combined by the rule's type, and nested
/// rules, all of which must match.
#[derive(Debug, PartialEq, Eq)]
pub struct SegmentRule {
    pub rule_type: SegmentRuleType,
    pub conditions: Vec<Condition>,
    pub rules: Vec<SegmentRule>,
}

/// Metadata of a segment.
#[derive(Clone, Copy, Debug, PartialEq, Eq, Structural)]
pub struct SegmentMetadata {
    pub segment_id: Option<i32>,
    pub source: SegmentSource,
}

impl Default for SegmentMetadata {
    fn default() -> (r: Self)
        ensures
            r.segment_id is None,
            r.source == SegmentSource::Api,
    {
        SegmentMetadata { segment_id: None, source: SegmentSource::Api }
    }
}

/// A segment: rules that decide who is in it, and the overrides that apply to
/// those who are.
#[derive(Debug, PartialEq, Eq)]
pub struct SegmentContext {
    /// The salt for percentage splits inside this segment.
    pub key: String,
    pub name: String,
    pub metadata: SegmentMetadata,
    pub overrides: Vec<FeatureContext>,
    pub rules: Vec<SegmentRule>,
}

/// Everything that one evaluation reads.
#[derive(Debug, PartialEq, Eq)]
pub struct EngineEvaluationContext {
    pub environment: EnvironmentContext,
    /// The features of the environment, by name.
    pub features: StringMap<FeatureContext>,
    /// The segments of the environment, by key.
    pub segments: StringMap<SegmentContext>,
    pub identity: Option<IdentityContext>,
}

/// Whether a text looks like a list: its first character that is not
/// whitespace is an opening bracket.
pub open spec fn opens_list(text: Seq<char>) -> bool {
    trim_start(text).len() > 0 && trim_start(text)[0] == '['
}

/// Whether a text looks like a list.
pub fn looks_like_list(text: &str) -> (r: bool)
    ensures
        r == opens_list(text@),
{
    let chars = chars_of(text);
    let mut i: usize = 0;
    assert(chars@.skip(0) == chars@);
    while i < chars.len() && whitespace(chars[i])
        invariant
            i <= chars.len(),
            trim_start(chars@) == trim_start(chars@.skip(i as int)),
        decreases chars.len() - i,
    {
        assert(chars@.skip(i as int).drop_first() == chars@.skip(i + 1));
        i += 1;
    }
    assert(chars@.skip(chars.len() as int).len() == 0);
    i < chars.len() && chars[i] == '['
}

impl ConditionValue {
    /// Whether `self` is the condition value that a text stands for, given
    /// the list that the text holds when it is read as a JSON array of
    /// strings. A text that looks like a list and holds one is that list;
    /// every other text is a single text.
    pub open spec fn stands_for(&self, text: Seq<char>, list: Option<Seq<Seq<char>>>) -> bool {
        if opens_list(text) && list is Some {
            self matches ConditionValue::Multiple(items) && texts(items@) == list->0
        } else {
            self matches ConditionValue::Single(single) && single@ == text
        }
    }

    /// The condition value that a text stands for, given the list that the
    /// text holds when it is read as a JSON array of strings.
    pub fn from_reading(text: String, list: Option<Vec<String>>) -> (r: ConditionValue)
        ensures
            r.stands_for(
                text@,
                match list {
                    Some(items) => Some(texts(items@)),
                    None => None,
                },
            ),
    {
        if looks_like_list(text.as_str()) {
            match list {
                Some(items) => ConditionValue::Multiple(items),
                None => ConditionValue::Single(text),
            }
        } else {
            ConditionValue::Single(text)
        }
    }

    /// The condition value that a text stands for: the list that it holds,
    /// if it looks like a list and is a JSON array of strings, and else the
    /// text itself.
    pub fn from_text(text: String) -> (r: ConditionValue)
        ensures
            r.stands_for(text@, json_string_list(text@)),
    {
        let list = parse_string_list(text.as_str());
        ConditionValue::from_reading(text, list)
    }

    /// The value as one text: a list is joined with commas.
    pub open spec fn text(&self) -> Seq<char> {
        match self {
            ConditionValue::Single(s) => s@,
            ConditionValue::Multiple(list) => joined(texts(list@), seq![',']),
        }
    }

    /// The value as a list: one text is split at commas, and each field is
    /// trimmed.
    pub open spec fn items(&self) -> Seq<Seq<char>> {
        match self {
            ConditionValue::Single(s) => split_on(s@, ',').map_values(|f: Seq<char>| trimmed(f)),
            ConditionValue::Multiple(list) => texts(list@),
        }
    }

    /// Whether `search` is one of the items of the value.
    pub open spec fn has_item(&self, search: Seq<char>) -> bool {
        exists|k: int| 0 <= k < self.items().len() && #[trigger] self.items()[k] == search
    }

    /// The value as one text: a list is joined with commas.
    pub fn as_string(&self) -> (r: String)
        ensures
            r@ == self.text(),
    {
        match self {
            ConditionValue::Single(s) => s.clone(),
            ConditionValue::Multiple(list) => {
                let mut out = String::new();
                let mut i: usize = 0;
                proof {
                    reveal_strlit(",");
                }
                assert(texts(list@).take(0) == Seq::<Seq<char>>::empty());
                while i < list.len()
                    invariant
                        i <= list.len(),
                        ","@ == seq![','],
                        out@ == joined(texts(list@).take(i as int), seq![',']),
                    decreases list.len() - i,
                {
                    assert(texts(list@).take(i + 1).drop_last() == texts(list@).take(i as int));
                    if i > 0 {
                        out.append(",");
                    } else {
                        assert(Seq::<char>::empty() + list@[0]@ == list@[0]@);
                    }
                    out.append(list[i].as_str());
                    i += 1;
                }
                assert(texts(list@).take(list.len() as int) == texts(list@));
                out
            },
        }
    }

    /// The value as a list: one text is split at commas, and each field is
    /// trimmed.
    pub fn as_vec(&self) -> (r: Vec<String>)
        ensures
            texts(r@) == self.items(),
    {
        match self {
            ConditionValue::Single(s) => {
                let chars = chars_of(s.as_str());
                let bounds = fields(&chars, ',');
                let mut out: Vec<String> = Vec::new();
                let mut k: usize = 0;
                while k < bounds.len()
                    invariant
                        k <= bounds.len(),
                        chars@ == s@,
                        bounds@.len() == split_on(chars@, ',').len(),
                        forall|j: int|
                            0 <= j < bounds@.len() ==> (#[trigger] bounds@[j]).0 <= bounds@[j].1
                                <= chars.len() && split_on(chars@, ',')[j] == chars@.subrange(
                                bounds@[j].0 as int,
                                bounds@[j].1 as int,
                            ),
                        out@.len() == k,
                        forall|j: int|
                            0 <= j < k ==> (#[trigger] out@[j])@ == trimmed(
                                split_on(chars@, ',')[j],
                            ),
                    decreases bounds.len() - k,
                {
                    let (from, to) = bounds[k];
                    let (a, b) = trim_bounds(&chars, from, to);
                    let piece = slice_of(&chars, a, b);
                    out.push(text_of(&piece));
                    k += 1;
                }
                assert(texts(out@) =~= self.items());
                out
            },
            ConditionValue::Multiple(list) => {
                let out = list.clone();
                assert(texts(out@) =~= texts(list@));
                out
            },
        }
    }

    /// Whether `search` is one of the items of the value.
    pub fn contains_string(&self, search: &str) -> (r: bool)
        ensures
            r == self.has_item(search@),
    {
        match self {
            ConditionValue::Single(s) => {
                let chars = chars_of(s.as_str());
                let wanted = chars_of(search);
                let bounds = fields(&chars, ',');
                let mut k: usize = 0;
                while k < bounds.len()
                    invariant
                        k <= bounds.len(),
                        chars@ == s@,
                        wanted@ == search@,
                        bounds@.len() == split_on(chars@, ',').len(),
                        forall|j: int|
                            0 <= j < bounds@.len() ==> (#[trigger] bounds@[j]).0 <= bounds@[j].1
                                <= chars.len() && split_on(chars@, ',')[j] == chars@.subrange(
                                bounds@[j].0 as int,
                                bounds@[j].1 as int,
                            ),
                        self.items().len() == bounds@.len(),
                        forall|j: int|
                            0 <= j < bounds@.len() ==> #[trigger] self.items()[j] == trimmed(
                                split_on(chars@, ',')[j],
                            ),
                        forall|j: int| 0 <= j < k ==> #[trigger] self.items()[j] != search@,
                    decreases bounds.len() - k,
                {
                    let (from, to) = bounds[k];
                    let (a, b) = trim_bounds(&chars, from, to);
                    if range_equals(&chars, a, b, &wanted) {
                        assert(self.items()[k as int] == search@);
                        return true;
                    }
                    assert(self.items()[k as int] != search@);
                    k += 1;
                }
                false
            },
            ConditionValue::Multiple(list) => {
                let wanted = search.to_string();
                let mut k: usize = 0;
                while k < list.len()
                    invariant
                        k <= list.len(),
                        wanted@ == search@,
                        self.items() == texts(list@),
                        forall|j: int| 0 <= j < k ==> #[trigger] self.items()[j] != search@,
                    decreases list.len() - k,
                {
                    if list[k] == wanted {
                        assert(self.items()[k as int] == search@);
                        return true;
                    }
                    assert(self.items()[k as int] != search@);
                    k += 1;
                }
                false
            },
        }
    }
}

/// Whether a weight is a share: between nothing and one hundred per cent.
pub open spec fn is_share(weight: Decimal) -> bool {
    0 <= weight@ <= 100 * UNIT
}

/// Whether the weights of a list of variants are shares.
pub open spec fn weights_are_shares(variants: Seq<FeatureValue>) -> bool {
    forall|i: int| 0 <= i < variants.len() ==> is_share((#[trigger] variants[i]).weight)
}

/// Whether no two of a list of overrides are for the same feature, and the
/// weights of their variants are shares.
pub open spec fn overrides_are_sound(overrides: Seq<FeatureContext>) -> bool {
    &&& forall|i: int, j: int|
        0 <= i < j < overrides.len() ==> overrides[i].name@ != overrides[j].name@
    &&& forall|i: int|
        0 <= i < overrides.len() ==> weights_are_shares((#[trigger] overrides[i]).variants@)
}

/// Whether every feature context is stored under its own name.
pub open spec fn stored_by_name(features: StringMap<FeatureContext>) -> bool {
    forall|i: int|
        0 <= i < features.entries@.len() ==> (#[trigger] features.entries@[i]).key@
            == features.entries@[i].value.name@
}

impl EngineEvaluationContext {
    /// Whether the context is sound: no key of the features, of the
    /// segments or of the traits occurs twice, every feature is stored under
    /// its own name, no segment overrides a feature twice, and every weight
    /// is a share.
    pub open spec fn sound(&self) -> bool {
        &&& self.features.distinct_keys()
        &&& self.segments.distinct_keys()
        &&& (self.identity matches Some(identity) ==> identity.traits.distinct_keys())
        &&& stored_by_name(self.features)
        &&& forall|i: int|
            0 <= i < self.features.entries@.len() ==> weights_are_shares(
                (#[trigger] self.features.entries@[i]).value.variants@,
            )
        &&& forall|i: int|
            0 <= i < self.segments.entries@.len() ==> overrides_are_sound(
                (#[trigger] self.segments.entries@[i]).value.overrides@,
            )
    }

    /// Whether the context is sound.
    pub fn is_sound(&self) -> (r: bool)
        ensures
            r == self.sound(),
    {
        if !self.features.has_distinct_keys() || !self.segments.has_distinct_keys() {
            return false;
        }
        match &self.identity {
            Some(identity) => {
                if !identity.traits.has_distinct_keys() {
                    return false;
                }
            },
            None => {},
        }
        let mut i: usize = 0;
        while i < self.features.entries.len()
            invariant
                i <= self.features.entries@.len(),
                self.features.distinct_keys(),
                self.segments.distinct_keys(),
                self.identity matches Some(identity) ==> identity.traits.distinct_keys(),
                forall|k: int|
                    0 <= k < i ==> (#[trigger] self.features.entries@[k]).key@
                        == self.features.entries@[k].value.name@,
                forall|k: int|
                    0 <= k < i ==> weights_are_shares(
                        (#[trigger] self.features.entries@[k]).value.variants@,
                    ),
            decreases self.features.entries@.len() - i,
        {
            let entry = &self.features.entries[i];
            if !(entry.key == entry.value.name) || !shares(&entry.value.variants) {
                return false;
            }
            i += 1;
        }
        let mut k: usize = 0;
        while k < self.segments.entries.len()
            invariant
                k <= self.segments.entries@.len(),
                self.features.distinct_keys(),
                self.segments.distinct_keys(),
                self.identity matches Some(identity) ==> identity.traits.distinct_keys(),
                stored_by_name(self.features),
                forall|j: int|
                    0 <= j < self.features.entries@.len() ==> weights_are_shares(
                        (#[trigger] self.features.entries@[j]).value.variants@,
                    ),
                forall|j: int|
                    0 <= j < k ==> overrides_are_sound(
                        (#[trigger] self.segments.entries@[j]).value.overrides@,
                    ),
            decreases self.segments.entries@.len() - k,
        {
            if !sound_overrides(&self.segments.entries[k].value.overrides) {
                return false;
            }
            k += 1;
        }
        true
    }
}

/// Whether the weights of a list of variants are shares.
pub fn shares(variants: &Vec<FeatureValue>) -> (r: bool)
    ensures
        r == weights_are_shares(variants@),
{
    let mut i: usize = 0;
    while i < variants.len()
        invariant
            i <= variants.len(),
            forall|k: int| 0 <= k < i ==> is_share((#[trigger] variants@[k]).weight),
        decreases variants.len() - i,
    {
        let units = variants[i].weight.units();
        if units < 0 || units > 100 * UNIT {
            return false;
        }
        i += 1;
    }
    true
}

/// Whether no two of a list of overrides are for the same feature, and the
/// weights of their variants are shares.
pub fn sound_overrides(overrides: &Vec<FeatureContext>) -> (r: bool)
    ensures
        r == overrides_are_sound(overrides@),
{
    let mut j: usize = 0;
    while j < overrides.len()
        invariant
            j <= overrides.len(),
            forall|a: int, b: int|
                0 <= a < b < j ==> overrides@[a].name@ != overrides@[b].name@,
            forall|a: int| 0 <= a < j ==> weights_are_shares((#[trigger] overrides@[a]).variants@),
        decreases overrides.len() - j,
    {
        if !shares(&overrides[j].variants) {
            return false;
        }
        let mut i: usize = 0;
        while i < j
            invariant
                i <= j < overrides.len(),
                forall|a: int| 0 <= a < i ==> overrides@[a].name@ != overrides@[j as int].name@,
            decreases j - i,
        {
            if overrides[i].name == overrides[j].name {
                return false;
            }
            i += 1;
        }
        j += 1;
    }
    true
}

} // verus!
