//! From environment documents to evaluation contexts.

use vstd::prelude::*;
use vstd::string::*;
use sha2::{Digest, Sha256};
use crate::decimal::{nat_text, push_nat, Decimal, UNIT};
use crate::engine_eval::context::{
    stored_by_name, Condition, ConditionOperator, ConditionValue, EngineEvaluationContext,
    EnvironmentContext, FeatureContext, FeatureMetadata, FeatureValue, IdentityContext, Priority,
    SegmentContext, SegmentMetadata, SegmentRule, SegmentRuleType, SegmentSource,
};
use crate::environments::Environment;
use crate::features::{FeatureState, MultivariateFeatureStateValue};
use crate::identities::{Identity, Trait};
use crate::maps::{lemma_lookup, StringMap};
use crate::organisations::id_text;
use crate::segments::constants::{operator_of, parse_operator, parse_rule_type, rule_type_of};
use crate::json::{json_bool, json_value, push_json_bool, push_json_value, push_str};
use crate::segments::{Segment, SegmentCondition, SegmentRule as DocumentRule};
use crate::text::{
    chars_of, lemma_text_less_irreflexive, lemma_text_less_total, lemma_text_less_transitive,
    less, same_chars, slice_of, text_less, text_of, texts,
};
use crate::types::{FlagsmithValue, ValueView};
use vstd::seq_lib::to_multiset_build;

verus! {

/// The rule type that a name denotes; a name that denotes none counts as
/// `ALL`.
pub open spec fn mapped_rule_type(name: Seq<char>) -> SegmentRuleType {
    match rule_type_of(name) {
        Some(t) => t,
        None => SegmentRuleType::All,
    }
}

/// The operator that a name denotes; a name that denotes none counts as
/// `EQUAL`.
pub open spec fn mapped_operator(name: Seq<char>) -> ConditionOperator {
    match operator_of(name) {
        Some(op) => op,
        None => ConditionOperator::Equal,
    }
}

/// The text of an optional text: nothing counts as the empty text.
pub open spec fn text_or_empty(s: Option<String>) -> Seq<char> {
    match s {
        Some(text) => text@,
        None => Seq::<char>::empty(),
    }
}

/// Whether `target` is the condition that `source` maps to: the same operator and
/// property, and the value as a single text.
pub open spec fn condition_maps(source: SegmentCondition, target: Condition) -> bool {
    &&& target.operator == mapped_operator(source.operator@)
    &&& target.property@ == text_or_empty(source.property)
    &&& target.value matches ConditionValue::Single(s) && s@ == text_or_empty(source.value)
}

/// Whether `target` is the rule that `source` maps to: the same type, the same
/// conditions and the same nested rules, in the same order.
pub open spec fn rule_maps(source: DocumentRule, target: SegmentRule) -> bool
    decreases source,
{
    &&& target.rule_type == mapped_rule_type(source.segment_rule_type@)
    &&& target.conditions@.len() == source.conditions@.len()
    &&& forall|i: int|
        0 <= i < source.conditions@.len() ==> condition_maps(
            #[trigger] source.conditions@[i],
            target.conditions@[i],
        )
    &&& target.rules@.len() == source.rules@.len()
    &&& forall|i: int|
        0 <= i < source.rules@.len() ==> rule_maps(*#[trigger] source.rules@[i], target.rules@[i])
}

/// Whether `target` is the variant that `source` maps to: the value of the option
/// and its allocation as weight, without priority.
pub open spec fn variant_maps(source: MultivariateFeatureStateValue, target: FeatureValue) -> bool {
    &&& target.value == source.multivariate_feature_option.value
    &&& target.weight == source.percentage_allocation
    &&& target.priority is None
}

/// Whether `target` is the feature context that the feature state `source` maps
/// to. Its key is the numeric id of the state, or its UUID where it has no
/// numeric id; its priority is that of the state's feature segment.
pub open spec fn feature_maps(source: FeatureState, target: FeatureContext) -> bool {
    &&& target.enabled == source.enabled
    &&& target.key@ == source.object_id()
    &&& target.name == source.feature.name
    &&& target.value == source.value
    &&& match source.feature_segment {
        Some(segment) => target.priority matches Some(Priority::Level(level)) && level@
            == segment.priority * UNIT,
        None => target.priority is None,
    }
    &&& target.variants@.len() == source.multivariate_feature_state_values@.len()
    &&& forall|i: int|
        0 <= i < target.variants@.len() ==> variant_maps(
            #[trigger] source.multivariate_feature_state_values@[i],
            target.variants@[i],
        )
    &&& target.metadata.feature_id == source.feature.id
}

/// Whether `target` is the segment context that the segment `source` maps to.
pub open spec fn segment_maps(source: Segment, target: SegmentContext) -> bool {
    &&& target.key@ == nat_text(source.id as nat)
    &&& target.name == source.name
    &&& target.metadata.segment_id == Some(source.id as i32)
    &&& target.metadata.source == SegmentSource::Api
    &&& target.overrides@.len() == source.feature_states@.len()
    &&& forall|i: int|
        0 <= i < source.feature_states@.len() ==> feature_maps(
            #[trigger] source.feature_states@[i],
            target.overrides@[i],
        )
    &&& target.rules@.len() == source.rules@.len()
    &&& forall|i: int|
        0 <= i < source.rules@.len() ==> rule_maps(#[trigger] source.rules@[i], target.rules@[i])
}

/// The feature context that a feature state maps to.
pub fn map_feature_state_to_feature_context(fs: &FeatureState) -> (r: FeatureContext)
    ensures
        feature_maps(*fs, r),
{
    let key = match fs.django_id {
        Some(django_id) => id_text(django_id),
        None => fs.featurestate_uuid.clone(),
    };
    let priority = match &fs.feature_segment {
        Some(feature_segment) => Some(Priority::Level(Decimal::from_whole(feature_segment.priority))),
        None => None,
    };
    FeatureContext {
        enabled: fs.enabled,
        key,
        name: fs.feature.name.clone(),
        value: fs.get_value(None),
        priority,
        variants: map_multivariate_values_to_variants(
            fs.multivariate_feature_state_values.as_slice(),
        ),
        metadata: FeatureMetadata { feature_id: fs.feature.id },
    }
}

/// The variants that a list of multivariate values maps to, in the same
/// order.
pub fn map_multivariate_values_to_variants(mv_values: &[MultivariateFeatureStateValue]) -> (r:
    Vec<FeatureValue>)
    ensures
        r@.len() == mv_values@.len(),
        forall|i: int| 0 <= i < r@.len() ==> variant_maps(#[trigger] mv_values@[i], r@[i]),
{
    let mut variants: Vec<FeatureValue> = Vec::new();
    let mut i: usize = 0;
    while i < mv_values.len()
        invariant
            i <= mv_values.len(),
            variants@.len() == i,
            forall|j: int| 0 <= j < i ==> variant_maps(#[trigger] mv_values@[j], variants@[j]),
        decreases mv_values.len() - i,
    {
        let mv = &mv_values[i];
        variants.push(
            FeatureValue {
                value: mv.multivariate_feature_option.value.clone(),
                weight: mv.percentage_allocation,
                priority: None,
            },
        );
        i += 1;
    }
    variants
}

/// The segment context that a segment maps to.
pub fn map_segment_to_segment_context(segment: &Segment) -> (r: SegmentContext)
    ensures
        segment_maps(*segment, r),
{
    let mut overrides: Vec<FeatureContext> = Vec::new();
    let mut i: usize = 0;
    while i < segment.feature_states.len()
        invariant
            i <= segment.feature_states.len(),
            overrides@.len() == i,
            forall|j: int|
                0 <= j < i ==> feature_maps(#[trigger] segment.feature_states@[j], overrides@[j]),
        decreases segment.feature_states.len() - i,
    {
        overrides.push(map_feature_state_to_feature_context(&segment.feature_states[i]));
        i += 1;
    }
    let mut rules: Vec<SegmentRule> = Vec::new();
    let mut k: usize = 0;
    while k < segment.rules.len()
        invariant
            k <= segment.rules.len(),
            rules@.len() == k,
            forall|j: int| 0 <= j < k ==> rule_maps(#[trigger] segment.rules@[j], rules@[j]),
        decreases segment.rules.len() - k,
    {
        rules.push(map_segment_rule_to_rule(&segment.rules[k]));
        k += 1;
    }
    SegmentContext {
        key: id_text(segment.id),
        name: segment.name.clone(),
        metadata: SegmentMetadata { segment_id: Some(segment.id as i32), source: SegmentSource::Api },
        overrides,
        rules,
    }
}

/// The text of an optional text: nothing counts as the empty text.
pub fn unwrap_or_empty(s: &Option<String>) -> (r: String)
    ensures
        r@ == text_or_empty(*s),
{
    match s {
        Some(text) => text.clone(),
        None => String::new(),
    }
}

/// The rule that a rule of an environment document maps to.
pub fn map_segment_rule_to_rule(rule: &DocumentRule) -> (r: SegmentRule)
    ensures
        rule_maps(*rule, r),
    decreases rule,
{
    let rule_type = map_rule_type(rule.segment_rule_type.as_str());
    let mut conditions: Vec<Condition> = Vec::new();
    let mut i: usize = 0;
    while i < rule.conditions.len()
        invariant
            i <= rule.conditions.len(),
            conditions@.len() == i,
            forall|j: int|
                0 <= j < i ==> condition_maps(#[trigger] rule.conditions@[j], conditions@[j]),
        decreases rule.conditions.len() - i,
    {
        let c = &rule.conditions[i];
        conditions.push(
            Condition {
                operator: map_operator(c.operator.as_str()),
                property: unwrap_or_empty(&c.property),
                value: ConditionValue::Single(unwrap_or_empty(&c.value)),
            },
        );
        i += 1;
    }
    let mut rules: Vec<SegmentRule> = Vec::new();
    let mut k: usize = 0;
    while k < rule.rules.len()
        invariant
            k <= rule.rules.len(),
            rules@.len() == k,
            forall|j: int| 0 <= j < k ==> rule_maps(*#[trigger] rule.rules@[j], rules@[j]),
        decreases rule.rules.len() - k,
    {
        rules.push(map_segment_rule_to_rule(&*rule.rules[k]));
        k += 1;
    }
    SegmentRule { rule_type, conditions, rules }
}

/// The rule type that a name denotes; a name that denotes none counts as
/// `ALL`.
pub fn map_rule_type(rule_type: &str) -> (r: SegmentRuleType)
    ensures
        r == mapped_rule_type(rule_type@),
{
    match parse_rule_type(rule_type) {
        Some(t) => t,
        None => SegmentRuleType::All,
    }
}

/// The operator that a name denotes; a name that denotes none counts as
/// `EQUAL`.
pub fn map_operator(operator: &str) -> (r: ConditionOperator)
    ensures
        r == mapped_operator(operator@),
{
    match parse_operator(operator) {
        Some(op) => op,
        None => ConditionOperator::Equal,
    }
}

/// What identifies an override of an identity: the feature, whether it is
/// enabled, and its value, which is kept together with its JSON form.
#[derive(Clone, Debug, PartialEq, Eq)]
pub struct OverrideKey {
    pub feature_name: String,
    pub enabled: bool,
    /// The JSON form of `value`.
    pub feature_value: String,
    pub value: FlagsmithValue,
    pub feature_id: u32,
}

/// What an override key is in contracts.
pub struct OverrideKeyView {
    pub feature_name: Seq<char>,
    pub enabled: bool,
    pub feature_value: Seq<char>,
    pub value: ValueView,
    pub feature_id: u32,
}

impl View for OverrideKey {
    type V = OverrideKeyView;

    open spec fn view(&self) -> OverrideKeyView {
        OverrideKeyView {
            feature_name: self.feature_name@,
            enabled: self.enabled,
            feature_value: self.feature_value@,
            value: self.value@,
            feature_id: self.feature_id,
        }
    }
}

/// The views of a list of override keys.
pub open spec fn key_views(keys: Seq<OverrideKey>) -> Seq<OverrideKeyView> {
    Seq::new(keys.len(), |i: int| keys[i]@)
}

/// The override key of a feature state.
pub open spec fn key_of_state(fs: FeatureState) -> OverrideKeyView {
    OverrideKeyView {
        feature_name: fs.feature.name@,
        enabled: fs.enabled,
        feature_value: json_value(fs.value@),
        value: fs.value@,
        feature_id: fs.feature.id,
    }
}

/// Whether key `a` sorts strictly before key `b`: by feature name, then
/// disabled before enabled, then by the JSON form of the value, then by
/// feature id.
pub open spec fn key_less(a: OverrideKeyView, b: OverrideKeyView) -> bool {
    if a.feature_name != b.feature_name {
        text_less(a.feature_name, b.feature_name)
    } else if a.enabled != b.enabled {
        !a.enabled
    } else if a.feature_value != b.feature_value {
        text_less(a.feature_value, b.feature_value)
    } else {
        a.feature_id < b.feature_id
    }
}

/// A sorted list with one more key put in its place: behind every key that
/// does not sort after it.
pub open spec fn inserted(sorted: Seq<OverrideKeyView>, x: OverrideKeyView) -> Seq<OverrideKeyView>
    decreases sorted.len(),
{
    if sorted.len() > 0 && key_less(x, sorted.last()) {
        inserted(sorted.drop_last(), x).push(sorted.last())
    } else {
        sorted.push(x)
    }
}

/// The keys in sorted order; keys that sort alike keep their order.
pub open spec fn sorted_keys(keys: Seq<OverrideKeyView>) -> Seq<OverrideKeyView>
    decreases keys.len(),
{
    if keys.len() == 0 {
        Seq::<OverrideKeyView>::empty()
    } else {
        inserted(sorted_keys(keys.drop_last()), keys.last())
    }
}

/// The sorted override keys of an identity.
pub open spec fn identity_keys(identity: Identity) -> Seq<OverrideKeyView> {
    sorted_keys(
        Seq::new(
            identity.identity_features@.len(),
            |i: int| key_of_state(identity.identity_features@[i]),
        ),
    )
}

/// The text of one override key as it is hashed.
pub open spec fn key_text(key: OverrideKeyView) -> Seq<char> {
    nat_text(key.feature_id as nat) + ":"@ + key.feature_name + ":"@ + json_bool(key.enabled) + ":"@
        + key.feature_value + ";"@
}

/// The text of a list of override keys as it is hashed.
pub open spec fn keys_text(keys: Seq<OverrideKeyView>) -> Seq<char>
    decreases keys.len(),
{
    if keys.len() == 0 {
        Seq::<char>::empty()
    } else {
        keys_text(keys.drop_last()) + key_text(keys.last())
    }
}

/// The SHA-256 digest of the UTF-8 encoding of a text, in lower-case
/// hexadecimal digits.
pub uninterp spec fn sha256_hex_of(text: Seq<char>) -> Seq<char>;

/// `sha2::Sha256::digest` (the `Digest::digest` convenience function of the
/// SHA-256 hasher) formatted with `{:x}`: the digest of the bytes of `data`
/// as sixty-four lower-case hexadecimal digits.
#[verifier::external_body]
fn sha256_hex(data: &str) -> (r: String)
    ensures
        r@ == sha256_hex_of(data@),
        r@.len() == 64,
{
    format!("{:x}", Sha256::digest(data.as_bytes()))
}

/// The hash that names a list of override keys: the first sixteen digits of
/// the digest of their text.
pub open spec fn overrides_hash(keys: Seq<OverrideKeyView>) -> Seq<char> {
    sha256_hex_of(keys_text(keys)).take(16)
}

/// The first sixteen characters of a digest, or all of it if it is shorter.
pub fn short_hash(hex: &str) -> (r: String)
    ensures
        r@ == if hex@.len() >= 16 { hex@.take(16) } else { hex@ },
{
    let chars = chars_of(hex);
    let end: usize = if chars.len() >= 16 { 16 } else { chars.len() };
    let head = slice_of(&chars, 0, end);
    assert(chars@.subrange(0, end as int) == chars@.take(end as int));
    assert(chars@.take(chars@.len() as int) == chars@);
    text_of(&head)
}

/// The hash that names a list of override keys.
pub fn generate_hash(overrides: &[OverrideKey]) -> (r: String)
    ensures
        r@ == overrides_hash(key_views(overrides@)),
{
    let mut text: Vec<char> = Vec::new();
    let mut i: usize = 0;
    let ghost views = key_views(overrides@);
    assert(views.take(0) == Seq::<OverrideKeyView>::empty());
    while i < overrides.len()
        invariant
            i <= overrides.len(),
            views == key_views(overrides@),
            text@ == keys_text(views.take(i as int)),
        decreases overrides.len() - i,
    {
        let key = &overrides[i];
        let ghost before = text@;
        assert(views.take(i + 1).drop_last() == views.take(i as int));
        push_nat(&mut text, key.feature_id as u128);
        push_str(&mut text, ":");
        push_str(&mut text, key.feature_name.as_str());
        push_str(&mut text, ":");
        push_json_bool(&mut text, key.enabled);
        push_str(&mut text, ":");
        push_str(&mut text, key.feature_value.as_str());
        push_str(&mut text, ";");
        assert(text@ == before + key_text(key@));
        i += 1;
    }
    assert(views.take(overrides.len() as int) == views);
    let joined = text_of(&text);
    let hex = sha256_hex(joined.as_str());
    short_hash(hex.as_str())
}

/// Whether key `a` sorts strictly before key `b`.
pub fn sorts_before(a: &OverrideKey, b: &OverrideKey) -> (r: bool)
    ensures
        r == key_less(a@, b@),
{
    let name_a = chars_of(a.feature_name.as_str());
    let name_b = chars_of(b.feature_name.as_str());
    if !same_chars(&name_a, &name_b) {
        return less(&name_a, &name_b);
    }
    if a.enabled != b.enabled {
        return !a.enabled;
    }
    let value_a = chars_of(a.feature_value.as_str());
    let value_b = chars_of(b.feature_value.as_str());
    if !same_chars(&value_a, &value_b) {
        return less(&value_a, &value_b);
    }
    a.feature_id < b.feature_id
}

/// Putting a key in its place is inserting it at the position behind which
/// every key sorts after it and before which the nearest key does not.
pub proof fn lemma_inserted(sorted: Seq<OverrideKeyView>, x: OverrideKeyView, at: int)
    requires
        0 <= at <= sorted.len(),
        forall|k: int| at <= k < sorted.len() ==> key_less(x, #[trigger] sorted[k]),
        at > 0 ==> !key_less(x, sorted[at - 1]),
    ensures
        inserted(sorted, x) == sorted.insert(at, x),
    decreases sorted.len(),
{
    if at == sorted.len() {
        assert(sorted.insert(at, x) =~= sorted.push(x));
    } else {
        let init = sorted.drop_last();
        assert(key_less(x, sorted[sorted.len() - 1]));
        assert forall|k: int| at <= k < init.len() implies key_less(x, #[trigger] init[k]) by {
            assert(init[k] == sorted[k]);
        }
        lemma_inserted(init, x, at);
        assert(init.insert(at, x).push(sorted.last()) =~= sorted.insert(at, x));
    }
}

/// The override keys of an identity, sorted.
pub fn override_keys(identity: &Identity) -> (r: Vec<OverrideKey>)
    ensures
        key_views(r@) == identity_keys(*identity),
{
    let mut keys: Vec<OverrideKey> = Vec::new();
    let ghost all = Seq::new(
        identity.identity_features@.len(),
        |i: int| key_of_state(identity.identity_features@[i]),
    );
    let mut i: usize = 0;
    assert(all.take(0) == Seq::<OverrideKeyView>::empty());
    assert(key_views(keys@) =~= sorted_keys(all.take(0)));
    while i < identity.identity_features.len()
        invariant
            i <= identity.identity_features.len(),
            all == Seq::new(
                identity.identity_features@.len(),
                |i: int| key_of_state(identity.identity_features@[i]),
            ),
            key_views(keys@) == sorted_keys(all.take(i as int)),
        decreases identity.identity_features.len() - i,
    {
        let fs = &identity.identity_features[i];
        let value = fs.get_value(None);
        let mut json: Vec<char> = Vec::new();
        push_json_value(&mut json, &value);
        assert(json@ == json_value(fs.value@)) by {
            assert(Seq::<char>::empty() + json_value(fs.value@) == json_value(fs.value@));
        }
        let key = OverrideKey {
            feature_name: fs.feature.name.clone(),
            enabled: fs.enabled,
            feature_value: text_of(&json),
            value,
            feature_id: fs.feature.id,
        };
        assert(key@ == all[i as int]);
        assert(all.take(i + 1).drop_last() == all.take(i as int));
        let mut at: usize = keys.len();
        while at > 0 && sorts_before(&key, &keys[at - 1])
            invariant
                at <= keys.len(),
                forall|k: int| at <= k < keys@.len() ==> key_less(key@, #[trigger] key_views(keys@)[k]),
            decreases at,
        {
            at -= 1;
        }
        proof {
            lemma_inserted(key_views(keys@), key@, at as int);
        }
        let ghost before = keys@;
        keys.insert(at, key);
        assert(key_views(keys@) =~= key_views(before).insert(at as int, key@));
        i += 1;
    }
    assert(all.take(identity.identity_features.len() as int) == all);
    keys
}

/// The identities that share one set of overrides: their identifiers, in
/// order, and the override keys of the last of them.
#[derive(Clone, Debug, PartialEq, Eq)]
pub struct OverrideGroup {
    pub identifiers: Vec<String>,
    pub overrides: Vec<OverrideKey>,
}

/// Whether an identity counts among the first `n` identities that override
/// features under the hash `hash`.
pub open spec fn overrides_under(identity: Identity, hash: Seq<char>) -> bool {
    identity.identity_features@.len() > 0 && overrides_hash(identity_keys(identity)) == hash
}

/// The identifiers of those of the first `n` identities that override
/// features under the hash `hash`, in order.
pub open spec fn group_identifiers(identities: Seq<Identity>, hash: Seq<char>, n: int) -> Seq<
    Seq<char>,
>
    decreases n,
{
    if n <= 0 {
        Seq::<Seq<char>>::empty()
    } else {
        let before = group_identifiers(identities, hash, n - 1);
        if overrides_under(identities[n - 1], hash) {
            before.push(identities[n - 1].identifier@)
        } else {
            before
        }
    }
}

/// The override keys of the last of the first `n` identities that overrides
/// features under the hash `hash`, if there is one.
pub open spec fn group_keys(identities: Seq<Identity>, hash: Seq<char>, n: int) -> Option<
    Seq<OverrideKeyView>,
>
    decreases n,
{
    if n <= 0 {
        None
    } else if overrides_under(identities[n - 1], hash) {
        Some(identity_keys(identities[n - 1]))
    } else {
        group_keys(identities, hash, n - 1)
    }
}

/// Whether `fc` is the override that an override key stands for: the
/// strongest override, without key and without variants.
pub open spec fn override_of_key(key: OverrideKeyView, fc: FeatureContext) -> bool {
    &&& fc.key@.len() == 0
    &&& fc.name@ == key.feature_name
    &&& fc.enabled == key.enabled
    &&& fc.value@ == key.value
    &&& fc.priority == Some(Priority::Strongest)
    &&& fc.variants@.len() == 0
    &&& fc.metadata.feature_id == key.feature_id
}

/// Whether `segment` is the segment that stands for the overrides that a
/// group of identities shares: a segment without key, whose one rule asks
/// that the identifier of the identity be one of the group's, and whose
/// overrides are those of the group.
pub open spec fn is_override_segment(
    segment: SegmentContext,
    identifiers: Seq<Seq<char>>,
    keys: Seq<OverrideKeyView>,
) -> bool {
    &&& segment.key@.len() == 0
    &&& segment.name@ == "identity_overrides"@
    &&& segment.metadata.segment_id is None
    &&& segment.metadata.source == SegmentSource::IdentityOverride
    &&& segment.rules@.len() == 1
    &&& segment.rules@[0].rule_type == SegmentRuleType::All
    &&& segment.rules@[0].rules@.len() == 0
    &&& segment.rules@[0].conditions@.len() == 1
    &&& segment.rules@[0].conditions@[0].operator == ConditionOperator::In
    &&& segment.rules@[0].conditions@[0].property@ == "$.identity.identifier"@
    &&& segment.rules@[0].conditions@[0].value matches ConditionValue::Multiple(list) && texts(list@)
        == identifiers
    &&& segment.overrides@.len() == keys.len()
    &&& forall|i: int|
        0 <= i < keys.len() ==> override_of_key(#[trigger] keys[i], segment.overrides@[i])
}

/// Whether `segments` holds the segments that stand for the overrides of
/// the first `n` identities: under each hash, the segment of the identities
/// that override features under that hash, and nothing under any other key.
pub open spec fn holds_override_segments(
    segments: StringMap<SegmentContext>,
    identities: Seq<Identity>,
    n: int,
) -> bool {
    forall|hash: Seq<char>|
        match (#[trigger] segments.value_of(hash), group_keys(identities, hash, n)) {
            (Some(segment), Some(keys)) => is_override_segment(
                segment,
                group_identifiers(identities, hash, n),
                keys,
            ),
            (None, None) => true,
            _ => false,
        }
}

/// Whether `groups` holds the groups of the first `n` identities.
pub open spec fn holds_groups(groups: StringMap<OverrideGroup>, identities: Seq<Identity>, n: int) -> bool {
    forall|hash: Seq<char>|
        match (#[trigger] groups.value_of(hash), group_keys(identities, hash, n)) {
            (Some(group), Some(keys)) => texts(group.identifiers@) == group_identifiers(
                identities,
                hash,
                n,
            ) && key_views(group.overrides@) == keys,
            (None, None) => true,
            _ => false,
        }
}

/// The identities that override features, grouped by the hash of their
/// overrides.
pub fn group_identity_overrides(identities: &[Identity]) -> (groups: StringMap<OverrideGroup>)
    ensures
        groups.distinct_keys(),
        holds_groups(groups, identities@, identities@.len() as int),
{
    let mut groups: StringMap<OverrideGroup> = StringMap::new();
    let mut i: usize = 0;
    assert forall|hash: Seq<char>| #[trigger] groups.value_of(hash) is None by {
        lemma_lookup(groups.keys(), hash);
    }
    while i < identities.len()
        invariant
            i <= identities.len(),
            groups.distinct_keys(),
            holds_groups(groups, identities@, i as int),
        decreases identities.len() - i,
    {
        let identity = &identities[i];
        if identity.identity_features.len() > 0 {
            let overrides = override_keys(identity);
            let overrides_hash = generate_hash(overrides.as_slice());
            let ghost hash = overrides_hash@;
            let ghost before = groups;
            assert(before.value_of(hash) is Some || before.value_of(hash) is None);
            let mut identifiers: Vec<String> = match groups.get(overrides_hash.as_str()) {
                Some(group) => {
                    let copied = group.identifiers.clone();
                    assert(texts(copied@) =~= texts(group.identifiers@));
                    copied
                },
                None => Vec::new(),
            };
            let ghost earlier = texts(identifiers@);
            assert(earlier =~= group_identifiers(identities@, hash, i as int)) by {
                if before.value_of(hash) is None {
                    lemma_no_group(identities@, hash, i as int);
                }
            }
            identifiers.push(identity.identifier.clone());
            assert(texts(identifiers@) =~= earlier.push(identity.identifier@));
            groups.insert(overrides_hash, OverrideGroup { identifiers, overrides });
            assert forall|other: Seq<char>|
                match (#[trigger] groups.value_of(other), group_keys(identities@, other, i + 1)) {
                    (Some(group), Some(keys)) => texts(group.identifiers@) == group_identifiers(
                        identities@,
                        other,
                        i + 1,
                    ) && key_views(group.overrides@) == keys,
                    (None, None) => true,
                    _ => false,
                } by {
                assert(before.value_of(other) is Some || before.value_of(other) is None);
            }
        } else {
            assert forall|other: Seq<char>|
                match (#[trigger] groups.value_of(other), group_keys(identities@, other, i + 1)) {
                    (Some(group), Some(keys)) => texts(group.identifiers@) == group_identifiers(
                        identities@,
                        other,
                        i + 1,
                    ) && key_views(group.overrides@) == keys,
                    (None, None) => true,
                    _ => false,
                } by {
                assert(groups.value_of(other) is Some || groups.value_of(other) is None);
            }
        }
        i += 1;
    }
    groups
}

/// Where no identity overrides features under a hash, no identifier is
/// grouped under it.
pub proof fn lemma_no_group(identities: Seq<Identity>, hash: Seq<char>, n: int)
    requires
        group_keys(identities, hash, n) is None,
    ensures
        group_identifiers(identities, hash, n) == Seq::<Seq<char>>::empty(),
    decreases n,
{
    if n > 0 {
        lemma_no_group(identities, hash, n - 1);
    }
}

/// The segment that stands for the overrides that a group of identities
/// shares.
pub fn override_segment(group: &OverrideGroup) -> (r: SegmentContext)
    ensures
        is_override_segment(r, texts(group.identifiers@), key_views(group.overrides@)),
{
    let identifiers = group.identifiers.clone();
    assert(texts(identifiers@) =~= texts(group.identifiers@));
    let mut conditions: Vec<Condition> = Vec::new();
    conditions.push(
        Condition {
            operator: ConditionOperator::In,
            property: "$.identity.identifier".to_string(),
            value: ConditionValue::Multiple(identifiers),
        },
    );
    let mut rules: Vec<SegmentRule> = Vec::new();
    rules.push(SegmentRule { rule_type: SegmentRuleType::All, conditions, rules: Vec::new() });
    let mut overrides: Vec<FeatureContext> = Vec::new();
    let mut i: usize = 0;
    while i < group.overrides.len()
        invariant
            i <= group.overrides.len(),
            overrides@.len() == i,
            forall|j: int|
                0 <= j < i ==> override_of_key(
                    #[trigger] key_views(group.overrides@)[j],
                    overrides@[j],
                ),
        decreases group.overrides.len() - i,
    {
        let key = &group.overrides[i];
        overrides.push(
            FeatureContext {
                key: String::new(),
                name: key.feature_name.clone(),
                enabled: key.enabled,
                value: key.value.clone(),
                priority: Some(Priority::Strongest),
                variants: Vec::new(),
                metadata: FeatureMetadata { feature_id: key.feature_id },
            },
        );
        i += 1;
    }
    SegmentContext {
        key: String::new(),
        name: "identity_overrides".to_string(),
        metadata: SegmentMetadata { segment_id: None, source: SegmentSource::IdentityOverride },
        overrides,
        rules,
    }
}

/// The segments that stand for the overrides of identities: one for each
/// set of overrides, stored under the hash of that set.
pub fn map_identity_overrides_to_segments(identities: &[Identity]) -> (r: StringMap<SegmentContext>)
    ensures
        r.distinct_keys(),
        holds_override_segments(r, identities@, identities@.len() as int),
{
    let groups = group_identity_overrides(identities);
    let mut segment_contexts: StringMap<SegmentContext> = StringMap::new();
    let mut j: usize = 0;
    let ghost n = identities@.len() as int;
    assert forall|hash: Seq<char>|
        (#[trigger] segment_contexts.value_of(hash)) is None && !(groups.position(hash) matches Some(
            at,
        ) && at < 0) by {
        lemma_lookup(segment_contexts.keys(), hash);
        lemma_lookup(groups.keys(), hash);
    }
    while j < groups.entries.len()
        invariant
            j <= groups.entries@.len(),
            n == identities@.len(),
            groups.distinct_keys(),
            holds_groups(groups, identities@, n),
            segment_contexts.distinct_keys(),
            forall|hash: Seq<char>|
                match groups.position(hash) {
                    Some(at) if at < j => (#[trigger] segment_contexts.value_of(hash)) is Some
                        && is_override_segment(
                        segment_contexts.value_of(hash)->0,
                        group_identifiers(identities@, hash, n),
                        group_keys(identities@, hash, n)->0,
                    ) && group_keys(identities@, hash, n) is Some,
                    _ => segment_contexts.value_of(hash) is None,
                },
        decreases groups.entries@.len() - j,
    {
        let entry = &groups.entries[j];
        let ghost hash = entry.key@;
        proof {
            lemma_lookup(groups.keys(), hash);
            assert(groups.keys()[j as int] == hash);
            assert(groups.position(hash) == Some(j as int)) by {
                let at = groups.position(hash)->0;
                if at < j {
                    assert(groups.entries@[at].key@ == groups.entries@[j as int].key@);
                }
            }
            assert(groups.value_of(hash) == Some(entry.value));
        }
        let segment = override_segment(&entry.value);
        let ghost before = segment_contexts;
        segment_contexts.insert(entry.key.clone(), segment);
        assert forall|other: Seq<char>|
            match groups.position(other) {
                Some(at) if at < j + 1 => (#[trigger] segment_contexts.value_of(other)) is Some
                    && is_override_segment(
                    segment_contexts.value_of(other)->0,
                    group_identifiers(identities@, other, n),
                    group_keys(identities@, other, n)->0,
                ) && group_keys(identities@, other, n) is Some,
                _ => segment_contexts.value_of(other) is None,
            } by {
            assert(before.value_of(other) is Some || before.value_of(other) is None);
            assert(groups.value_of(other) is Some || groups.value_of(other) is None);
            lemma_lookup(groups.keys(), other);
        }
        j += 1;
    }
    assert forall|hash: Seq<char>|
        match (#[trigger] segment_contexts.value_of(hash), group_keys(identities@, hash, n)) {
            (Some(segment), Some(keys)) => is_override_segment(
                segment,
                group_identifiers(identities@, hash, n),
                keys,
            ),
            (None, None) => true,
            _ => false,
        } by {
        assert(groups.value_of(hash) is Some || groups.value_of(hash) is None);
        lemma_lookup(groups.keys(), hash);
    }
    segment_contexts
}

/// The position of the last of the first `n` feature states whose feature
/// has this name.
pub open spec fn last_state_named(states: Seq<FeatureState>, name: Seq<char>, n: int) -> Option<int>
    decreases n,
{
    if n <= 0 {
        None
    } else if states[n - 1].feature.name@ == name {
        Some(n - 1)
    } else {
        last_state_named(states, name, n - 1)
    }
}

/// The position of the last of the first `n` segments whose id, written in
/// decimal digits, is this key.
pub open spec fn last_segment_keyed(segments: Seq<Segment>, key: Seq<char>, n: int) -> Option<int>
    decreases n,
{
    if n <= 0 {
        None
    } else if nat_text(segments[n - 1].id as nat) == key {
        Some(n - 1)
    } else {
        last_segment_keyed(segments, key, n - 1)
    }
}

/// Whether `features` holds, under each feature name, the feature context of
/// the last of the first `n` feature states with that name, and nothing
/// under any other key.
pub open spec fn holds_features(
    features: StringMap<FeatureContext>,
    states: Seq<FeatureState>,
    n: int,
) -> bool {
    forall|name: Seq<char>|
        match (#[trigger] features.value_of(name), last_state_named(states, name, n)) {
            (Some(fc), Some(i)) => feature_maps(states[i], fc),
            (None, None) => true,
            _ => false,
        }
}

/// Whether `contexts` holds, under the id of each segment, the segment
/// context of the last of the first `n` segments with that id, and nothing
/// under any other key.
pub open spec fn holds_segments(
    contexts: StringMap<SegmentContext>,
    segments: Seq<Segment>,
    n: int,
) -> bool {
    forall|key: Seq<char>|
        match (#[trigger] contexts.value_of(key), last_segment_keyed(segments, key, n)) {
            (Some(sc), Some(i)) => segment_maps(segments[i], sc),
            (None, None) => true,
            _ => false,
        }
}

/// Whether `contexts` holds the segments of an environment: under the hash
/// of each set of identity overrides the segment that stands for it, under
/// every other id of a segment of the project that segment's context, and
/// nothing else.
pub open spec fn holds_all_segments(
    contexts: StringMap<SegmentContext>,
    segments: Seq<Segment>,
    identities: Seq<Identity>,
) -> bool {
    forall|key: Seq<char>|
        match group_keys(identities, key, identities.len() as int) {
            Some(keys) => (#[trigger] contexts.value_of(key)) is Some && is_override_segment(
                contexts.value_of(key)->0,
                group_identifiers(identities, key, identities.len() as int),
                keys,
            ),
            None => match (
                contexts.value_of(key),
                last_segment_keyed(segments, key, segments.len() as int),
            ) {
                (Some(sc), Some(i)) => segment_maps(segments[i], sc),
                (None, None) => true,
                _ => false,
            },
        }
}

/// The evaluation context of an environment, without identity. Of several
/// feature states with one name, and of several segments with one id, the
/// last counts; identity overrides become segments of their own.
pub fn environment_to_context(environment: Environment) -> (ctx: EngineEvaluationContext)
    ensures
        ctx.environment.key == environment.api_key,
        ctx.environment.name == environment.name,
        ctx.identity is None,
        ctx.features.distinct_keys(),
        stored_by_name(ctx.features),
        holds_features(
            ctx.features,
            environment.feature_states@,
            environment.feature_states@.len() as int,
        ),
        ctx.segments.distinct_keys(),
        holds_all_segments(
            ctx.segments,
            environment.project.segments@,
            environment.identity_overrides@,
        ),
{
    let mut features: StringMap<FeatureContext> = StringMap::new();
    let mut i: usize = 0;
    assert forall|name: Seq<char>| #[trigger] features.value_of(name) is None by {
        lemma_lookup(features.keys(), name);
    }
    while i < environment.feature_states.len()
        invariant
            i <= environment.feature_states.len(),
            features.distinct_keys(),
            stored_by_name(features),
            holds_features(features, environment.feature_states@, i as int),
        decreases environment.feature_states.len() - i,
    {
        let fc = map_feature_state_to_feature_context(&environment.feature_states[i]);
        let ghost before = features;
        let ghost stored = fc;
        proof {
            lemma_lookup(before.keys(), fc.name@);
        }
        features.insert(fc.name.clone(), fc);
        assert forall|name: Seq<char>|
            match (
                #[trigger] features.value_of(name),
                last_state_named(environment.feature_states@, name, i + 1),
            ) {
                (Some(fc), Some(k)) => feature_maps(environment.feature_states@[k], fc),
                (None, None) => true,
                _ => false,
            } by {
            assert(before.value_of(name) is Some || before.value_of(name) is None);
        }
        i += 1;
    }
    let mut segments: StringMap<SegmentContext> = StringMap::new();
    let mut k: usize = 0;
    assert forall|key: Seq<char>| #[trigger] segments.value_of(key) is None by {
        lemma_lookup(segments.keys(), key);
    }
    while k < environment.project.segments.len()
        invariant
            k <= environment.project.segments.len(),
            segments.distinct_keys(),
            holds_segments(segments, environment.project.segments@, k as int),
        decreases environment.project.segments.len() - k,
    {
        let sc = map_segment_to_segment_context(&environment.project.segments[k]);
        let ghost before = segments;
        segments.insert(sc.key.clone(), sc);
        assert forall|key: Seq<char>|
            match (
                #[trigger] segments.value_of(key),
                last_segment_keyed(environment.project.segments@, key, k + 1),
            ) {
                (Some(sc), Some(at)) => segment_maps(environment.project.segments@[at], sc),
                (None, None) => true,
                _ => false,
            } by {
            assert(before.value_of(key) is Some || before.value_of(key) is None);
        }
        k += 1;
    }
    let identity_segments = map_identity_overrides_to_segments(
        environment.identity_overrides.as_slice(),
    );
    let ghost api = segments;
    let ghost shared = identity_segments;
    let mut remaining = identity_segments.entries;
    let mut moved: usize = 0;
    assert forall|key: Seq<char>|
        (#[trigger] segments.value_of(key)) == api.value_of(key) && !(shared.position(
            key,
        ) matches Some(at) && at < 0) by {
        lemma_lookup(shared.keys(), key);
    }
    while remaining.len() > 0
        invariant
            moved + remaining@.len() == shared.entries@.len(),
            shared.entries@.len() == shared.entries.len(),
            remaining@ == shared.entries@.skip(moved as int),
            shared.distinct_keys(),
            segments.distinct_keys(),
            forall|key: Seq<char>|
                match shared.position(key) {
                    Some(at) if at < moved => (#[trigger] segments.value_of(key)) == Some(
                        shared.entries@[at].value,
                    ),
                    _ => segments.value_of(key) == api.value_of(key),
                },
        decreases remaining@.len(),
    {
        let ghost before = segments;
        let entry = remaining.remove(0);
        assert(entry == shared.entries@[moved as int]);
        assert(remaining@ =~= shared.entries@.skip(moved + 1));
        proof {
            let hash = entry.key@;
            lemma_lookup(shared.keys(), hash);
            assert(shared.keys()[moved as int] == hash);
            assert(shared.position(hash) == Some(moved as int)) by {
                let at = shared.position(hash)->0;
                if at < moved {
                    assert(shared.entries@[at].key@ == shared.entries@[moved as int].key@);
                }
            }
        }
        segments.insert(entry.key, entry.value);
        assert forall|key: Seq<char>|
            match shared.position(key) {
                Some(at) if at < moved + 1 => (#[trigger] segments.value_of(key)) == Some(
                    shared.entries@[at].value,
                ),
                _ => segments.value_of(key) == api.value_of(key),
            } by {
            assert(before.value_of(key) is Some || before.value_of(key) is None);
            lemma_lookup(shared.keys(), key);
        }
        moved += 1;
    }
    assert forall|key: Seq<char>|
        match group_keys(
            environment.identity_overrides@,
            key,
            environment.identity_overrides@.len() as int,
        ) {
            Some(keys) => (#[trigger] segments.value_of(key)) is Some && is_override_segment(
                segments.value_of(key)->0,
                group_identifiers(
                    environment.identity_overrides@,
                    key,
                    environment.identity_overrides@.len() as int,
                ),
                keys,
            ),
            None => match (
                segments.value_of(key),
                last_segment_keyed(
                    environment.project.segments@,
                    key,
                    environment.project.segments@.len() as int,
                ),
            ) {
                (Some(sc), Some(at)) => segment_maps(environment.project.segments@[at], sc),
                (None, None) => true,
                _ => false,
            },
        } by {
        assert(shared.value_of(key) is Some || shared.value_of(key) is None);
        assert(api.value_of(key) is Some || api.value_of(key) is None);
        lemma_lookup(shared.keys(), key);
    }
    EngineEvaluationContext {
        environment: EnvironmentContext { key: environment.api_key, name: environment.name },
        features,
        segments,
        identity: None,
    }
}

/// The value of the last of the first `n` traits with this key.
pub open spec fn last_trait_value(traits: Seq<Trait>, key: Seq<char>, n: int) -> Option<
    FlagsmithValue,
>
    decreases n,
{
    if n <= 0 {
        None
    } else if traits[n - 1].trait_key@ == key {
        Some(traits[n - 1].trait_value)
    } else {
        last_trait_value(traits, key, n - 1)
    }
}

/// The context with an identity added to it: the given identifier, the
/// environment key and the identifier joined by an underscore as key, and the
/// given traits by key. Of several traits with one key the last counts.
pub fn add_identity_to_context(
    context: EngineEvaluationContext,
    identifier: &str,
    traits: &[Trait],
) -> (r: EngineEvaluationContext)
    ensures
        r.environment == context.environment,
        r.features == context.features,
        r.segments == context.segments,
        r.identity matches Some(identity) && identity.identifier@ == identifier@ && identity.key@
            == context.environment.key@ + "_"@ + identifier@ && identity.traits.distinct_keys()
            && forall|key: Seq<char>| #[trigger]
            identity.traits.value_of(key) == last_trait_value(traits@, key, traits@.len() as int),
{
    let mut identity_traits: StringMap<FlagsmithValue> = StringMap::new();
    let mut i: usize = 0;
    assert forall|key: Seq<char>| #[trigger] identity_traits.value_of(key) is None by {
        lemma_lookup(identity_traits.keys(), key);
    }
    while i < traits.len()
        invariant
            i <= traits.len(),
            identity_traits.distinct_keys(),
            forall|key: Seq<char>| #[trigger]
                identity_traits.value_of(key) == last_trait_value(traits@, key, i as int),
        decreases traits.len() - i,
    {
        let ghost before = identity_traits;
        identity_traits.insert(traits[i].trait_key.clone(), traits[i].trait_value.clone());
        assert forall|key: Seq<char>| #[trigger]
            identity_traits.value_of(key) == last_trait_value(traits@, key, i + 1) by {
            assert(before.value_of(key) == last_trait_value(traits@, key, i as int));
        }
        i += 1;
    }
    let mut key = context.environment.key.clone();
    key.append("_");
    key.append(identifier);
    let identity = IdentityContext {
        identifier: identifier.to_string(),
        key,
        traits: identity_traits,
    };
    EngineEvaluationContext {
        environment: context.environment,
        features: context.features,
        segments: context.segments,
        identity: Some(identity),
    }
}

/// Whether two keys sort alike: they agree in everything that the order
/// looks at.
pub open spec fn sorts_like(a: OverrideKeyView, b: OverrideKeyView) -> bool {
    a.feature_name == b.feature_name && a.enabled == b.enabled && a.feature_value
        == b.feature_value && a.feature_id == b.feature_id
}

/// The order of override keys is a strict order that is total up to keys
/// that sort alike.
pub proof fn key_order_is_total(a: OverrideKeyView, b: OverrideKeyView, c: OverrideKeyView)
    ensures
        !key_less(a, a),
        !sorts_like(a, b) ==> (key_less(a, b) != key_less(b, a)),
        sorts_like(a, b) ==> !key_less(a, b) && !key_less(b, a),
        key_less(a, b) && key_less(b, c) ==> key_less(a, c),
        !key_less(b, a) && !key_less(c, b) ==> !key_less(c, a),
{
    lemma_text_less_irreflexive(a.feature_name);
    lemma_text_less_irreflexive(a.feature_value);
    lemma_text_less_irreflexive(b.feature_name);
    lemma_text_less_irreflexive(b.feature_value);
    lemma_text_less_total(a.feature_name, b.feature_name);
    lemma_text_less_total(a.feature_value, b.feature_value);
    lemma_text_less_total(b.feature_name, c.feature_name);
    lemma_text_less_total(b.feature_value, c.feature_value);
    lemma_text_less_total(a.feature_name, c.feature_name);
    lemma_text_less_total(a.feature_value, c.feature_value);
    lemma_text_less_transitive(a.feature_name, b.feature_name, c.feature_name);
    lemma_text_less_transitive(a.feature_value, b.feature_value, c.feature_value);
    lemma_text_less_transitive(c.feature_name, b.feature_name, a.feature_name);
    lemma_text_less_transitive(c.feature_value, b.feature_value, a.feature_value);
}

/// No key of the list sorts before a key that stands earlier in it.
pub open spec fn in_order(keys: Seq<OverrideKeyView>) -> bool {
    forall|i: int, j: int| 0 <= i < j < keys.len() ==> !key_less(keys[j], keys[i])
}

/// Putting a key in its place keeps a list in order, makes it one longer,
/// and adds the key and nothing else.
pub proof fn lemma_inserted_in_order(sorted: Seq<OverrideKeyView>, x: OverrideKeyView)
    requires
        in_order(sorted),
    ensures
        in_order(inserted(sorted, x)),
        inserted(sorted, x).len() == sorted.len() + 1,
        inserted(sorted, x).to_multiset() == sorted.to_multiset().insert(x),
        forall|k: int|
            0 <= k < inserted(sorted, x).len() ==> (#[trigger] inserted(sorted, x)[k]) == x || (
            exists|m: int| 0 <= m < sorted.len() && sorted[m] == inserted(sorted, x)[k]),
    decreases sorted.len(),
{
    let result = inserted(sorted, x);
    if sorted.len() > 0 && key_less(x, sorted.last()) {
        let init = sorted.drop_last();
        let last = sorted.last();
        assert forall|i: int, j: int| 0 <= i < j < init.len() implies !key_less(init[j], init[i]) by {
            assert(init[i] == sorted[i] && init[j] == sorted[j]);
        }
        lemma_inserted_in_order(init, x);
        let inner = inserted(init, x);
        assert(result == inner.push(last));
        to_multiset_build(inner, last);
        to_multiset_build(init, last);
        assert(init.push(last) == sorted);
        assert(inner.push(last).to_multiset() =~= sorted.to_multiset().insert(x));
        assert forall|i: int, j: int| 0 <= i < j < result.len() implies !key_less(
            result[j],
            result[i],
        ) by {
            if j == result.len() - 1 {
                assert(result[i] == inner[i]);
                if inner[i] == x {
                    key_order_is_total(x, last, x);
                } else {
                    let m = choose|m: int| 0 <= m < init.len() && init[m] == inner[i];
                    assert(sorted[m] == inner[i]);
                    assert(!key_less(sorted[sorted.len() - 1], sorted[m]) || m == sorted.len() - 1);
                }
            } else {
                assert(result[i] == inner[i] && result[j] == inner[j]);
            }
        }
        assert forall|k: int| 0 <= k < result.len() implies (#[trigger] result[k]) == x || (
        exists|m: int| 0 <= m < sorted.len() && sorted[m] == result[k]) by {
            if k < inner.len() {
                assert(result[k] == inner[k]);
                if inner[k] != x {
                    let m = choose|m: int| 0 <= m < init.len() && init[m] == inner[k];
                    assert(sorted[m] == result[k]);
                }
            } else {
                assert(sorted[sorted.len() - 1] == result[k]);
            }
        }
    } else {
        to_multiset_build(sorted, x);
        assert forall|i: int, j: int| 0 <= i < j < result.len() implies !key_less(
            result[j],
            result[i],
        ) by {
            if j == result.len() - 1 {
                assert(result[i] == sorted[i]);
                if i < sorted.len() - 1 {
                    key_order_is_total(sorted[i], sorted.last(), x);
                }
            } else {
                assert(result[i] == sorted[i] && result[j] == sorted[j]);
            }
        }
        assert forall|k: int| 0 <= k < result.len() implies (#[trigger] result[k]) == x || (
        exists|m: int| 0 <= m < sorted.len() && sorted[m] == result[k]) by {
            if k < sorted.len() {
                assert(sorted[k] == result[k]);
            }
        }
    }
}

/// Sorting puts the keys in order and neither adds nor loses a key.
pub proof fn sorted_keys_are_in_order(keys: Seq<OverrideKeyView>)
    ensures
        in_order(sorted_keys(keys)),
        sorted_keys(keys).len() == keys.len(),
        sorted_keys(keys).to_multiset() == keys.to_multiset(),
    decreases keys.len(),
{
    if keys.len() > 0 {
        sorted_keys_are_in_order(keys.drop_last());
        lemma_inserted_in_order(sorted_keys(keys.drop_last()), keys.last());
        to_multiset_build(keys.drop_last(), keys.last());
        assert(keys.drop_last().push(keys.last()) == keys);
    } else {
        assert(sorted_keys(keys) =~= keys);
    }
}

} // verus!
