//! The evaluation of a context: which segments the context is in, which
//! override, if any, applies to each feature, and the flag that each feature
//! comes to.

use vstd::prelude::*;
use vstd::string::*;
use crate::decimal::{decimal_text, UNIT};
use crate::engine_eval::context::{
    is_stronger, priority_or_default, stored_by_name, stronger, EngineEvaluationContext,
    FeatureContext, FeatureValue, Priority, SegmentContext,
};
use crate::engine_eval::result::{
    flag_views, segment_views, EvaluationResult, EvaluationView, FlagResult, FlagResultView,
    SegmentResult, SegmentResultView,
};
use crate::engine_eval::segment_evaluator::{
    get_identity_key, identity_key, in_segment, is_context_in_segment,
};
use crate::maps::{lemma_lookup, lookup, StringMap};
use crate::utils::hashing::{
    get_hashed_percentage_for_object_ids, hashed_position, id_texts, HashedPercentage,
    LAST_POSITION,
};

verus! {

/// The place of an override: the position of its segment among the segments
/// of the context, and its position among the overrides of that segment.
#[derive(Clone, Copy, Debug, PartialEq, Eq, Structural)]
pub struct OverrideRef {
    pub segment: usize,
    pub index: usize,
}

/// The override that stands at a place.
pub open spec fn override_at(ec: EngineEvaluationContext, place: OverrideRef) -> FeatureContext {
    ec.segments.entries@[place.segment as int].value.overrides@[place.index as int]
}

/// The priority of the override that stands at a place.
pub open spec fn priority_at(ec: EngineEvaluationContext, place: OverrideRef) -> Priority {
    priority_or_default(override_at(ec, place).priority)
}

/// The override for the feature `name` that is chosen once the first `count`
/// overrides of the segment at position `segment` have been seen, when
/// `best` was chosen before them. A later override replaces an earlier one
/// only if it is strictly stronger.
pub open spec fn pick_in_segment(
    ec: EngineEvaluationContext,
    segment: int,
    count: int,
    name: Seq<char>,
    best: Option<OverrideRef>,
) -> Option<OverrideRef>
    decreases count,
{
    if count <= 0 {
        best
    } else {
        let before = pick_in_segment(ec, segment, count - 1, name, best);
        let here = OverrideRef { segment: segment as usize, index: (count - 1) as usize };
        if override_at(ec, here).name@ == name && (before is None || stronger(
            priority_at(ec, here),
            priority_at(ec, before->0),
        )) {
            Some(here)
        } else {
            before
        }
    }
}

/// The override for the feature `name` that is chosen once the first `seen`
/// segments have been walked. Only segments that the context is in count.
pub open spec fn pick(ec: EngineEvaluationContext, seen: int, name: Seq<char>) -> Option<
    OverrideRef,
>
    decreases seen,
{
    if seen <= 0 {
        None
    } else {
        let before = pick(ec, seen - 1, name);
        let segment = ec.segments.entries@[seen - 1].value;
        if in_segment(ec, segment) {
            pick_in_segment(ec, seen - 1, segment.overrides@.len() as int, name, before)
        } else {
            before
        }
    }
}

/// The override that applies to the feature `name`, if any.
pub open spec fn chosen_override(ec: EngineEvaluationContext, name: Seq<char>) -> Option<
    OverrideRef,
> {
    pick(ec, ec.segments.entries@.len() as int, name)
}

/// A place names an override of a segment that the context is in, for the
/// feature `name`, among the first `seen` segments.
pub open spec fn is_candidate(
    ec: EngineEvaluationContext,
    seen: int,
    name: Seq<char>,
    place: OverrideRef,
) -> bool {
    &&& place.segment < seen
    &&& place.segment < ec.segments.entries@.len()
    &&& in_segment(ec, ec.segments.entries@[place.segment as int].value)
    &&& place.index < ec.segments.entries@[place.segment as int].value.overrides@.len()
    &&& override_at(ec, place).name@ == name
}

/// Whether place `a` is place `b` or is walked before it.
pub open spec fn walked_first(a: OverrideRef, b: OverrideRef) -> bool {
    a.segment < b.segment || (a.segment == b.segment && a.index <= b.index)
}

/// What holds of the choice once some overrides of one segment have been
/// seen: it is an override for the feature, no override seen so far is
/// strictly stronger, and an earlier choice is replaced only by a strictly
/// stronger override.
pub proof fn lemma_pick_in_segment(
    ec: EngineEvaluationContext,
    segment: int,
    count: int,
    name: Seq<char>,
    best: Option<OverrideRef>,
)
    requires
        0 <= segment < ec.segments.entries@.len(),
        segment <= usize::MAX,
        in_segment(ec, ec.segments.entries@[segment].value),
        0 <= count <= ec.segments.entries@[segment].value.overrides@.len(),
        best matches Some(b) ==> is_candidate(ec, segment, name, b),
    ensures
        pick_in_segment(ec, segment, count, name, best) matches Some(p) ==> is_candidate(
            ec,
            segment + 1,
            name,
            p,
        ),
        best is Some ==> pick_in_segment(ec, segment, count, name, best) is Some,
        best matches Some(b) ==> (pick_in_segment(ec, segment, count, name, best) == best
            || stronger(
            priority_at(ec, pick_in_segment(ec, segment, count, name, best)->0),
            priority_at(ec, b),
        )),
        pick_in_segment(ec, segment, count, name, best) matches Some(p) ==> Some(p) == best
            || (p.segment == segment && p.index < count),
        forall|o: int|
            0 <= o < count && (#[trigger] ec.segments.entries@[segment].value.overrides@[o]).name@
                == name ==> pick_in_segment(ec, segment, count, name, best) is Some && !stronger(
                priority_or_default(ec.segments.entries@[segment].value.overrides@[o].priority),
                priority_at(ec, pick_in_segment(ec, segment, count, name, best)->0),
            ) && (stronger(
                priority_at(ec, pick_in_segment(ec, segment, count, name, best)->0),
                priority_or_default(ec.segments.entries@[segment].value.overrides@[o].priority),
            ) || Some(pick_in_segment(ec, segment, count, name, best)->0) == best
                || pick_in_segment(ec, segment, count, name, best)->0.index <= o),
    decreases count,
{
    if count > 0 {
        lemma_pick_in_segment(ec, segment, count - 1, name, best);
        let overrides = ec.segments.entries@[segment].value.overrides;
        let before = pick_in_segment(ec, segment, count - 1, name, best);
        let now = pick_in_segment(ec, segment, count, name, best);
        let here = OverrideRef { segment: segment as usize, index: (count - 1) as usize };
        assert(overrides@.len() == overrides.len());
        assert(override_at(ec, here) == overrides@[count - 1]);
        assert forall|o: int| 0 <= o < count && (#[trigger] overrides@[o]).name@ == name implies now
            is Some && !stronger(priority_or_default(overrides@[o].priority), priority_at(ec, now->0))
            && (stronger(priority_at(ec, now->0), priority_or_default(overrides@[o].priority))
            || Some(now->0) == best || now->0.index <= o) by {
            if o < count - 1 {
                assert(before is Some);
                assert(!stronger(
                    priority_or_default(overrides@[o].priority),
                    priority_at(ec, before->0),
                ));
            }
        }
    }
}

/// The chosen override is an override for that feature in a segment that the
/// context is in; no such override is strictly stronger than it, and of those
/// that are as strong it is the one that is walked first.
pub proof fn lemma_pick(ec: EngineEvaluationContext, seen: int, name: Seq<char>)
    requires
        0 <= seen <= ec.segments.entries@.len(),
        seen <= usize::MAX,
    ensures
        pick(ec, seen, name) matches Some(p) ==> is_candidate(ec, seen, name, p),
        forall|c: OverrideRef| #[trigger]
            is_candidate(ec, seen, name, c) ==> pick(ec, seen, name) is Some && !stronger(
                priority_at(ec, c),
                priority_at(ec, pick(ec, seen, name)->0),
            ) && (stronger(priority_at(ec, pick(ec, seen, name)->0), priority_at(ec, c))
                || walked_first(pick(ec, seen, name)->0, c)),
    decreases seen,
{
    if seen > 0 {
        lemma_pick(ec, seen - 1, name);
        let before = pick(ec, seen - 1, name);
        let segment = ec.segments.entries@[seen - 1].value;
        if in_segment(ec, segment) {
            lemma_pick_in_segment(ec, seen - 1, segment.overrides@.len() as int, name, before);
            let now = pick(ec, seen, name);
            assert forall|c: OverrideRef| #[trigger] is_candidate(ec, seen, name, c) implies now
                is Some && !stronger(priority_at(ec, c), priority_at(ec, now->0)) && (stronger(
                priority_at(ec, now->0),
                priority_at(ec, c),
            ) || walked_first(now->0, c)) by {
                if c.segment < seen - 1 {
                    assert(is_candidate(ec, seen - 1, name, c));
                } else {
                    assert(segment.overrides@[c.index as int].name@ == name);
                    assert(override_at(ec, c) == segment.overrides@[c.index as int]);
                    if before is Some {
                        assert(is_candidate(ec, seen - 1, name, before->0));
                    }
                }
            }
        } else {
            assert forall|c: OverrideRef| #[trigger] is_candidate(ec, seen, name, c) implies pick(
                ec,
                seen,
                name,
            ) is Some && !stronger(priority_at(ec, c), priority_at(ec, pick(ec, seen, name)->0))
                && (stronger(priority_at(ec, pick(ec, seen, name)->0), priority_at(ec, c))
                || walked_first(pick(ec, seen, name)->0, c)) by {
                assert(is_candidate(ec, seen - 1, name, c));
            }
        }
    }
}

/// The result that reports a segment.
pub open spec fn segment_result(segment: SegmentContext) -> SegmentResultView {
    SegmentResultView { name: segment.name@, metadata: segment.metadata }
}

/// The results for those of the first `seen` segments that the context is
/// in, in the order of the segments.
pub open spec fn segment_results(ec: EngineEvaluationContext, seen: int) -> Seq<SegmentResultView>
    decreases seen,
{
    if seen <= 0 {
        Seq::<SegmentResultView>::empty()
    } else {
        let before = segment_results(ec, seen - 1);
        let segment = ec.segments.entries@[seen - 1].value;
        if in_segment(ec, segment) {
            before.push(segment_result(segment))
        } else {
            before
        }
    }
}

/// The part of a weight that counts towards the cumulative distribution: a
/// weight below zero counts as zero.
pub open spec fn counted(weight: int) -> int {
    if weight > 0 {
        weight
    } else {
        0
    }
}

/// Whether variant `j` comes before variant `i` when the variants are put in
/// order of priority, strongest first, and variants of equal priority keep
/// their order.
pub open spec fn precedes(vs: Seq<FeatureValue>, j: int, i: int) -> bool {
    let pj = priority_or_default(vs[j].priority);
    let pi = priority_or_default(vs[i].priority);
    stronger(pj, pi) || (!stronger(pi, pj) && j < i)
}

/// The sum of the weights of those of the first `n` variants that are
/// variant `i` or come before it.
pub open spec fn weight_through(vs: Seq<FeatureValue>, i: int, n: int) -> int
    decreases n,
{
    if n <= 0 {
        0
    } else {
        weight_through(vs, i, n - 1) + if n - 1 == i || precedes(vs, n - 1, i) {
            counted(vs[n - 1].weight@)
        } else {
            0
        }
    }
}

/// Whether the cumulative weight up to and including variant `i` reaches the
/// percentage of `position`.
pub open spec fn reaches(vs: Seq<FeatureValue>, i: int, position: nat) -> bool {
    position * 100 * UNIT <= weight_through(vs, i, vs.len() as int) * LAST_POSITION
}

/// Among the first `n` variants, the one that comes first in order of
/// priority among those whose cumulative weight reaches the percentage.
pub open spec fn select_among(vs: Seq<FeatureValue>, position: nat, n: int) -> Option<int>
    decreases n,
{
    if n <= 0 {
        None
    } else {
        let before = select_among(vs, position, n - 1);
        if reaches(vs, n - 1, position) && (before is None || precedes(vs, n - 1, before->0)) {
            Some(n - 1)
        } else {
            before
        }
    }
}

/// The variant that an identity with this hashed position gets, if any.
pub open spec fn selected_variant(vs: Seq<FeatureValue>, position: nat) -> Option<int> {
    select_among(vs, position, vs.len() as int)
}

/// Whether a feature context is split among variants for this identity key:
/// it has variants, there is an identity, and the feature has a key.
pub open spec fn splits(fc: FeatureContext, key: Option<Seq<char>>) -> bool {
    fc.variants@.len() > 0 && key is Some && fc.key@.len() > 0
}

/// The variant of a feature context that this identity key gets, if any.
pub open spec fn variant_for(fc: FeatureContext, key: Option<Seq<char>>) -> Option<int> {
    if splits(fc, key) {
        selected_variant(fc.variants@, hashed_position(seq![fc.key@, key->0], 1))
    } else {
        None
    }
}

/// The flag that a feature context comes to for an identity key. The value
/// and the reason are those of the selected variant, if there is one, and
/// otherwise the feature's own value and the given reason. Everything else is
/// always the feature context's own.
pub open spec fn flag_of(fc: FeatureContext, key: Option<Seq<char>>, default_reason: Seq<char>) -> FlagResultView {
    match variant_for(fc, key) {
        Some(i) => FlagResultView {
            enabled: fc.enabled,
            name: fc.name@,
            reason: "SPLIT; weight="@ + decimal_text(fc.variants@[i].weight@),
            value: fc.variants@[i].value@,
            metadata: fc.metadata,
        },
        None => FlagResultView {
            enabled: fc.enabled,
            name: fc.name@,
            reason: default_reason,
            value: fc.value@,
            metadata: fc.metadata,
        },
    }
}

/// The flag of a feature of the context, given the place of the override
/// that applies to it: that of the override, if there is one, and else that
/// of the feature itself.
pub open spec fn flag_with(
    ec: EngineEvaluationContext,
    place: Option<OverrideRef>,
    feature: FeatureContext,
) -> FlagResultView {
    match place {
        Some(place) => flag_of(
            override_at(ec, place),
            identity_key(ec),
            "TARGETING_MATCH; segment="@ + ec.segments.entries@[place.segment as int].value.name@,
        ),
        None => flag_of(feature, identity_key(ec), "DEFAULT"@),
    }
}

/// The flag of a feature of the context: that of the override chosen for the
/// feature's name, if there is one, and else that of the feature itself.
pub open spec fn flag_for(ec: EngineEvaluationContext, feature: FeatureContext) -> FlagResultView {
    flag_with(ec, chosen_override(ec, feature.name@), feature)
}

/// A map of flags as two sequences: the keys and, in the same order, the
/// flags.
pub struct FlagsView {
    pub keys: Seq<Seq<char>>,
    pub flags: Seq<FlagResultView>,
}

/// `flags` with `flag` stored under `key`: in place of the flag that the key
/// had, or as a new last flag.
pub open spec fn put(flags: FlagsView, key: Seq<char>, flag: FlagResultView) -> FlagsView {
    match lookup(flags.keys, key) {
        Some(i) => FlagsView { keys: flags.keys, flags: flags.flags.update(i, flag) },
        None => FlagsView { keys: flags.keys.push(key), flags: flags.flags.push(flag) },
    }
}

/// The flags of the first `count` features of the context, each stored under
/// the feature's name.
pub open spec fn flags_through(ec: EngineEvaluationContext, count: int) -> FlagsView
    decreases count,
{
    if count <= 0 {
        FlagsView { keys: Seq::empty(), flags: Seq::empty() }
    } else {
        let feature = ec.features.entries@[count - 1].value;
        put(flags_through(ec, count - 1), feature.name@, flag_for(ec, feature))
    }
}

/// The flags of the first `count` features of the context, each stored under
/// the feature's name, where `overrides` holds the place of the override that
/// applies to each feature name.
pub open spec fn flags_over(
    ec: EngineEvaluationContext,
    overrides: StringMap<OverrideRef>,
    count: int,
) -> FlagsView
    decreases count,
{
    if count <= 0 {
        FlagsView { keys: Seq::empty(), flags: Seq::empty() }
    } else {
        let feature = ec.features.entries@[count - 1].value;
        put(
            flags_over(ec, overrides, count - 1),
            feature.name@,
            flag_with(ec, overrides.value_of(feature.name@), feature),
        )
    }
}

/// Whether every place that `overrides` holds names an override of a segment
/// of the context.
pub open spec fn places_within(ec: EngineEvaluationContext, overrides: StringMap<OverrideRef>) -> bool {
    forall|name: Seq<char>|
        (#[trigger] overrides.value_of(name)) matches Some(place) ==> place.segment
            < ec.segments.entries@.len() && place.index
            < ec.segments.entries@[place.segment as int].value.overrides@.len()
}

/// Over the overrides that are chosen for the context, the flags are those of
/// the evaluation.
pub proof fn lemma_flags_over(
    ec: EngineEvaluationContext,
    overrides: StringMap<OverrideRef>,
    count: int,
)
    requires
        forall|name: Seq<char>| #[trigger] overrides.value_of(name) == chosen_override(ec, name),
    ensures
        flags_over(ec, overrides, count) == flags_through(ec, count),
    decreases count,
{
    if count > 0 {
        lemma_flags_over(ec, overrides, count - 1);
        let feature = ec.features.entries@[count - 1].value;
        assert(overrides.value_of(feature.name@) == chosen_override(ec, feature.name@));
    }
}

/// What the evaluation of a context comes to.
pub open spec fn evaluation_of(ec: EngineEvaluationContext) -> EvaluationView {
    let flags = flags_through(ec, ec.features.entries@.len() as int);
    EvaluationView {
        flag_keys: flags.keys,
        flags: flags.flags,
        segments: segment_results(ec, ec.segments.entries@.len() as int),
    }
}

/// The priority that a feature context or a variant has when none is
/// given: the weakest.
pub fn get_priority_or_default(priority: Option<Priority>) -> (r: Priority)
    ensures
        r == priority_or_default(priority),
{
    match priority {
        Some(p) => p,
        None => Priority::Weakest,
    }
}

/// Whether variant `j` comes before variant `i` in order of priority.
pub fn comes_before(vs: &Vec<FeatureValue>, j: usize, i: usize) -> (r: bool)
    requires
        j < vs.len(),
        i < vs.len(),
    ensures
        r == precedes(vs@, j as int, i as int),
{
    let pj = get_priority_or_default(vs[j].priority);
    let pi = get_priority_or_default(vs[i].priority);
    is_stronger(&pj, &pi) || (!is_stronger(&pi, &pj) && j < i)
}

/// The weight at which cumulative sums stop growing, in units of 10^-18: one
/// hundred per cent. No percentage is beyond it.
pub const FULL: i128 = 100_000_000_000_000_000_000;

/// Whether the cumulative weight up to and including variant `i` reaches the
/// percentage.
pub fn variant_reaches(vs: &Vec<FeatureValue>, i: usize, percentage: HashedPercentage) -> (r: bool)
    requires
        i < vs.len(),
    ensures
        r == reaches(vs@, i as int, percentage@),
{
    let mut sum: i128 = 0;
    let mut n: usize = 0;
    while n < vs.len()
        invariant
            n <= vs.len(),
            i < vs.len(),
            0 <= sum <= FULL,
            0 <= weight_through(vs@, i as int, n as int),
            sum == if weight_through(vs@, i as int, n as int) < FULL {
                weight_through(vs@, i as int, n as int)
            } else {
                FULL as int
            },
        decreases vs.len() - n,
    {
        if n == i || comes_before(vs, n, i) {
            let w = vs[n].weight.units();
            if w > 0 {
                let next: i128 = sum + w;
                sum = if next < FULL { next } else { FULL };
            }
        }
        n += 1;
    }
    let p = percentage.position();
    let ghost total = weight_through(vs@, i as int, vs.len() as int);
    assert((p * 100 * UNIT <= total * LAST_POSITION) == (p * 100 * UNIT <= sum * LAST_POSITION))
        by (nonlinear_arith)
        requires
            0 <= p <= 9998,
            LAST_POSITION == 9998,
            UNIT == 1_000_000_000_000_000_000,
            FULL == 100_000_000_000_000_000_000,
            sum == if total < FULL { total } else { FULL as int },
    ;
    percentage.at_most_units(sum)
}

/// The variant that an identity with this hashed percentage gets, if any.
pub fn select_variant(vs: &Vec<FeatureValue>, percentage: HashedPercentage) -> (r: Option<usize>)
    ensures
        match r {
            Some(i) => selected_variant(vs@, percentage@) == Some(i as int) && i < vs.len(),
            None => selected_variant(vs@, percentage@) is None,
        },
{
    let mut best: Option<usize> = None;
    let mut n: usize = 0;
    while n < vs.len()
        invariant
            n <= vs.len(),
            match best {
                Some(i) => select_among(vs@, percentage@, n as int) == Some(i as int) && i < n,
                None => select_among(vs@, percentage@, n as int) is None,
            },
        decreases vs.len() - n,
    {
        if variant_reaches(vs, n, percentage) {
            let better = match best {
                None => true,
                Some(b) => comes_before(vs, n, b),
            };
            if better {
                best = Some(n);
            }
        }
        n += 1;
    }
    best
}

/// The flag that a feature context comes to for an identity key.
pub fn get_flag_result_from_feature_context(
    feature_context: &FeatureContext,
    identity_key: Option<&String>,
    default_reason: String,
) -> (r: FlagResult)
    ensures
        r@ == flag_of(
            *feature_context,
            match identity_key {
                Some(k) => Some(k@),
                None => None,
            },
            default_reason@,
        ),
{
    let mut reason = default_reason;
    let mut value = feature_context.value.clone();
    if feature_context.variants.len() > 0 && !feature_context.key.as_str().is_empty() {
        match identity_key {
            Some(key) => {
                let mut object_ids: Vec<&str> = Vec::new();
                object_ids.push(feature_context.key.as_str());
                object_ids.push(key.as_str());
                let percentage = get_hashed_percentage_for_object_ids(&object_ids, 1);
                assert(id_texts(object_ids@) =~= seq![feature_context.key@, key@]);
                match select_variant(&feature_context.variants, percentage) {
                    Some(i) => {
                        let variant = &feature_context.variants[i];
                        value = variant.value.clone();
                        reason = "SPLIT; weight=".to_string();
                        let weight = variant.weight.to_text();
                        reason.append(weight.as_str());
                    },
                    None => {},
                }
            },
            None => {},
        }
    }
    FlagResult {
        enabled: feature_context.enabled,
        name: feature_context.name.clone(),
        value,
        reason,
        metadata: feature_context.metadata,
    }
}

/// The segments that the context is in, and the override chosen for each
/// feature name that such a segment overrides.
pub fn get_matching_segments_and_overrides(ec: &EngineEvaluationContext) -> (r: (
    Vec<SegmentResult>,
    StringMap<OverrideRef>,
))
    ensures
        segment_views(r.0@) == segment_results(*ec, ec.segments.entries@.len() as int),
        forall|name: Seq<char>| #[trigger] r.1.value_of(name) == chosen_override(*ec, name),
{
    let mut segments: Vec<SegmentResult> = Vec::new();
    let mut chosen: StringMap<OverrideRef> = StringMap::new();
    let mut i: usize = 0;
    assert(segment_views(segments@) =~= segment_results(*ec, 0));
    assert forall|name: Seq<char>| #[trigger] chosen.value_of(name) == pick(*ec, 0, name) by {
        lemma_lookup(chosen.keys(), name);
    }
    while i < ec.segments.entries.len()
        invariant
            i <= ec.segments.entries@.len(),
            segment_views(segments@) == segment_results(*ec, i as int),
            forall|name: Seq<char>| #[trigger] chosen.value_of(name) == pick(*ec, i as int, name),
        decreases ec.segments.entries@.len() - i,
    {
        let segment = &ec.segments.entries[i].value;
        if is_context_in_segment(ec, segment) {
            let ghost reported = segments@;
            segments.push(SegmentResult { name: segment.name.clone(), metadata: segment.metadata });
            assert(segment_views(segments@) =~= segment_views(reported).push(
                segment_result(*segment),
            ));
            let mut j: usize = 0;
            while j < segment.overrides.len()
                invariant
                    i < ec.segments.entries@.len(),
                    *segment == ec.segments.entries@[i as int].value,
                    in_segment(*ec, *segment),
                    j <= segment.overrides@.len(),
                    forall|name: Seq<char>| #[trigger]
                        chosen.value_of(name) == pick_in_segment(
                            *ec,
                            i as int,
                            j as int,
                            name,
                            pick(*ec, i as int, name),
                        ),
                decreases segment.overrides@.len() - j,
            {
                let candidate = &segment.overrides[j];
                let ghost name = candidate.name@;
                let ghost before = chosen.value_of(name);
                proof {
                    lemma_pick(*ec, i as int, name);
                    lemma_pick_in_segment(*ec, i as int, j as int, name, pick(*ec, i as int, name));
                }
                let should_update = match chosen.get(candidate.name.as_str()) {
                    Some(existing) => {
                        assert(before == Some(*existing));
                        assert(is_candidate(*ec, i + 1, name, *existing));
                        let current =
                            &ec.segments.entries[existing.segment].value.overrides[existing.index];
                        is_stronger(
                            &get_priority_or_default(candidate.priority),
                            &get_priority_or_default(current.priority),
                        )
                    },
                    None => true,
                };
                let ghost old_chosen = chosen;
                if should_update {
                    chosen.insert(candidate.name.clone(), OverrideRef { segment: i, index: j });
                }
                assert forall|other: Seq<char>| #[trigger]
                    chosen.value_of(other) == pick_in_segment(
                        *ec,
                        i as int,
                        j + 1,
                        other,
                        pick(*ec, i as int, other),
                    ) by {
                    assert(old_chosen.value_of(other) == pick_in_segment(
                        *ec,
                        i as int,
                        j as int,
                        other,
                        pick(*ec, i as int, other),
                    ));
                }
                j += 1;
            }
        }
        i += 1;
    }
    (segments, chosen)
}

/// The flags of the features of the context, given the place of the
/// override that applies to each feature name.
pub(crate) fn get_flag_results(
    ec: &EngineEvaluationContext,
    segment_feature_contexts: &StringMap<OverrideRef>,
) -> (flags: StringMap<FlagResult>)
    requires
        places_within(*ec, *segment_feature_contexts),
    ensures
        flags.keys() == flags_over(
            *ec,
            *segment_feature_contexts,
            ec.features.entries@.len() as int,
        ).keys,
        flag_views(flags) == flags_over(
            *ec,
            *segment_feature_contexts,
            ec.features.entries@.len() as int,
        ).flags,
{
    let mut flags: StringMap<FlagResult> = StringMap::new();
    let key_of_identity = get_identity_key(ec);
    let mut i: usize = 0;
    assert(flags.keys() =~= flags_over(*ec, *segment_feature_contexts, 0).keys);
    assert(flag_views(flags) =~= flags_over(*ec, *segment_feature_contexts, 0).flags);
    while i < ec.features.entries.len()
        invariant
            i <= ec.features.entries@.len(),
            places_within(*ec, *segment_feature_contexts),
            match key_of_identity {
                Some(key) => identity_key(*ec) == Some(key@),
                None => identity_key(*ec) is None,
            },
            flags.keys() == flags_over(*ec, *segment_feature_contexts, i as int).keys,
            flag_views(flags) == flags_over(*ec, *segment_feature_contexts, i as int).flags,
        decreases ec.features.entries@.len() - i,
    {
        let feature = &ec.features.entries[i].value;
        let flag = match segment_feature_contexts.get(feature.name.as_str()) {
            Some(place) => {
                proof {
                    assert(segment_feature_contexts.value_of(feature.name@) == Some(*place));
                }
                let segment = &ec.segments.entries[place.segment].value;
                let mut reason = "TARGETING_MATCH; segment=".to_string();
                reason.append(segment.name.as_str());
                get_flag_result_from_feature_context(
                    &segment.overrides[place.index],
                    key_of_identity.as_ref(),
                    reason,
                )
            },
            None => get_flag_result_from_feature_context(
                feature,
                key_of_identity.as_ref(),
                "DEFAULT".to_string(),
            ),
        };
        assert(flag@ == flag_with(
            *ec,
            segment_feature_contexts.value_of(feature.name@),
            *feature,
        ));
        let ghost before = flags;
        let ghost stored = flag@;
        proof {
            lemma_lookup(before.keys(), feature.name@);
        }
        flags.insert(feature.name.clone(), flag);
        assert(flag_views(flags).len() == flags.entries@.len());
        assert(flag_views(flags) =~= put(
            FlagsView { keys: before.keys(), flags: flag_views(before) },
            feature.name@,
            stored,
        ).flags);
        i += 1;
    }
    flags
}

/// Evaluates a context: the flag of every feature, and the segments that the
/// context is in.
pub fn get_evaluation_result(ec: &EngineEvaluationContext) -> (r: EvaluationResult)
    ensures
        r@ == evaluation_of(*ec),
{
    let (segments, segment_feature_contexts) = get_matching_segments_and_overrides(ec);
    proof {
        assert(ec.segments.entries@.len() == ec.segments.entries.len());
        assert forall|name: Seq<char>|
            (#[trigger] segment_feature_contexts.value_of(name)) matches Some(place)
                ==> place.segment < ec.segments.entries@.len() && place.index
                < ec.segments.entries@[place.segment as int].value.overrides@.len() by {
            lemma_pick(*ec, ec.segments.entries@.len() as int, name);
        }
        lemma_flags_over(*ec, segment_feature_contexts, ec.features.entries@.len() as int);
    }
    let flags = get_flag_results(ec, &segment_feature_contexts);
    EvaluationResult { flags, segments }
}

/// Evaluation is a function of the context: any two results of evaluating
/// the same context are the same.
pub proof fn evaluation_is_pure(
    ec: EngineEvaluationContext,
    first: EvaluationResult,
    second: EvaluationResult,
)
    requires
        first@ == evaluation_of(ec),
        second@ == evaluation_of(ec),
    ensures
        first@ == second@,
{
}

/// Whether some feature of the context has this name.
pub open spec fn is_feature_name(ec: EngineEvaluationContext, name: Seq<char>) -> bool {
    exists|i: int|
        0 <= i < ec.features.entries@.len() && (#[trigger] ec.features.entries@[i]).value.name@
            == name
}

/// Whether a flag is the flag of one of the first `count` features.
pub open spec fn is_flag_of_feature(
    ec: EngineEvaluationContext,
    count: int,
    flag: FlagResultView,
) -> bool {
    exists|i: int| 0 <= i < count && flag == flag_for(ec, (#[trigger] ec.features.entries@[i]).value)
}

/// What holds of the flags of the first `count` features: there is a flag
/// under a name exactly when one of these features has the name, no name
/// occurs twice, and every flag is the flag of one of these features.
pub proof fn lemma_flags_through(ec: EngineEvaluationContext, count: int)
    requires
        0 <= count <= ec.features.entries@.len(),
    ensures
        flags_through(ec, count).keys.len() == flags_through(ec, count).flags.len(),
        forall|name: Seq<char>|
            lookup(flags_through(ec, count).keys, name) is Some <==> exists|i: int|
                0 <= i < count && (#[trigger] ec.features.entries@[i]).value.name@ == name,
        forall|a: int, b: int|
            0 <= a < b < flags_through(ec, count).keys.len() ==> flags_through(ec, count).keys[a]
                != flags_through(ec, count).keys[b],
        forall|k: int|
            0 <= k < flags_through(ec, count).flags.len() ==> is_flag_of_feature(
                ec,
                count,
                #[trigger] flags_through(ec, count).flags[k],
            ),
    decreases count,
{
    let now = flags_through(ec, count);
    if count > 0 {
        lemma_flags_through(ec, count - 1);
        let before = flags_through(ec, count - 1);
        let feature = ec.features.entries@[count - 1].value;
        lemma_lookup(before.keys, feature.name@);
        assert forall|name: Seq<char>|
            lookup(now.keys, name) is Some <==> exists|i: int|
                0 <= i < count && (#[trigger] ec.features.entries@[i]).value.name@ == name by {
            lemma_lookup(now.keys, name);
            lemma_lookup(before.keys, name);
            if lookup(now.keys, name) is Some {
                let at = lookup(now.keys, name)->0;
                if lookup(before.keys, name) is None {
                    assert(name == feature.name@);
                    assert(ec.features.entries@[count - 1].value.name@ == name);
                }
            }
            if exists|i: int|
                0 <= i < count && (#[trigger] ec.features.entries@[i]).value.name@ == name {
                let i = choose|i: int|
                    0 <= i < count && (#[trigger] ec.features.entries@[i]).value.name@ == name;
                if i < count - 1 {
                    assert(lookup(before.keys, name) is Some);
                    let at = lookup(before.keys, name)->0;
                    assert(now.keys[at] == name);
                } else {
                    if lookup(before.keys, name) is Some {
                        let at = lookup(before.keys, name)->0;
                        assert(now.keys[at] == name);
                    } else {
                        assert(now.keys[now.keys.len() - 1] == name);
                    }
                }
            }
        }
        assert forall|k: int| 0 <= k < now.flags.len() implies is_flag_of_feature(
            ec,
            count,
            #[trigger] now.flags[k],
        ) by {
            if k < before.flags.len() && now.flags[k] == before.flags[k] {
                assert(is_flag_of_feature(ec, count - 1, before.flags[k]));
                let i = choose|i: int|
                    0 <= i < count - 1 && before.flags[k] == flag_for(
                        ec,
                        (#[trigger] ec.features.entries@[i]).value,
                    );
                assert(now.flags[k] == flag_for(ec, ec.features.entries@[i].value));
            } else {
                assert(now.flags[k] == flag_for(ec, ec.features.entries@[count - 1].value));
            }
        }
    }
}

/// The result holds a flag under a name exactly when a feature of the
/// context has that name, and it holds no name twice.
pub proof fn flags_cover_features(ec: EngineEvaluationContext)
    ensures
        evaluation_of(ec).flag_keys.len() == evaluation_of(ec).flags.len(),
        forall|name: Seq<char>|
            lookup(evaluation_of(ec).flag_keys, name) is Some <==> is_feature_name(ec, name),
        forall|a: int, b: int|
            0 <= a < b < evaluation_of(ec).flag_keys.len() ==> evaluation_of(ec).flag_keys[a]
                != evaluation_of(ec).flag_keys[b],
{
    lemma_flags_through(ec, ec.features.entries@.len() as int);
}

/// Where features are stored under their names and no name is stored twice,
/// the flags of the first `count` features are stored under the first
/// `count` keys of the features.
pub proof fn lemma_flag_keys(ec: EngineEvaluationContext, count: int)
    requires
        0 <= count <= ec.features.entries@.len(),
        stored_by_name(ec.features),
        ec.features.distinct_keys(),
    ensures
        flags_through(ec, count).keys == ec.features.keys().take(count),
    decreases count,
{
    if count > 0 {
        lemma_flag_keys(ec, count - 1);
        let before = flags_through(ec, count - 1);
        let feature = ec.features.entries@[count - 1].value;
        lemma_lookup(before.keys, feature.name@);
        assert(ec.features.entries@[count - 1].key@ == feature.name@);
        assert(lookup(before.keys, feature.name@) is None) by {
            if lookup(before.keys, feature.name@) is Some {
                let at = lookup(before.keys, feature.name@)->0;
                assert(ec.features.entries@[at].key@ == ec.features.entries@[count - 1].key@);
            }
        }
        assert(flags_through(ec, count).keys =~= ec.features.keys().take(count));
    } else {
        assert(flags_through(ec, count).keys =~= ec.features.keys().take(count));
    }
}

/// Where every feature is stored under its own name and no name is stored
/// twice, the names under which the result holds flags are the names under
/// which the context holds features, in the same order.
pub proof fn flag_keys_are_feature_keys(ec: EngineEvaluationContext)
    requires
        stored_by_name(ec.features),
        ec.features.distinct_keys(),
    ensures
        evaluation_of(ec).flag_keys == ec.features.keys(),
{
    lemma_flag_keys(ec, ec.features.entries@.len() as int);
    assert(ec.features.keys().take(ec.features.entries@.len() as int) == ec.features.keys());
}

/// Whether a segment result reports one of the first `seen` segments, and
/// the context is in that segment.
pub open spec fn reports_matched_segment(
    ec: EngineEvaluationContext,
    seen: int,
    result: SegmentResultView,
) -> bool {
    exists|i: int|
        0 <= i < seen && in_segment(ec, (#[trigger] ec.segments.entries@[i]).value)
            && segment_result(ec.segments.entries@[i].value) == result
}

/// A result is among the results for the first `seen` segments exactly when
/// it reports one of these segments and the context is in that segment.
pub proof fn lemma_segment_results(ec: EngineEvaluationContext, seen: int, result: SegmentResultView)
    requires
        0 <= seen <= ec.segments.entries@.len(),
    ensures
        segment_results(ec, seen).contains(result) <==> reports_matched_segment(ec, seen, result),
    decreases seen,
{
    if seen > 0 {
        lemma_segment_results(ec, seen - 1, result);
        let before = segment_results(ec, seen - 1);
        let segment = ec.segments.entries@[seen - 1].value;
        let now = segment_results(ec, seen);
        if now.contains(result) {
            let k = choose|k: int| 0 <= k < now.len() && now[k] == result;
            if k < before.len() {
                assert(before[k] == result);
                assert(before.contains(result));
            } else {
                assert(in_segment(ec, ec.segments.entries@[seen - 1].value));
            }
        }
        if reports_matched_segment(ec, seen, result) {
            let i = choose|i: int|
                0 <= i < seen && in_segment(ec, (#[trigger] ec.segments.entries@[i]).value)
                    && segment_result(ec.segments.entries@[i].value) == result;
            if i < seen - 1 {
                assert(reports_matched_segment(ec, seen - 1, result));
                let k = choose|k: int| 0 <= k < before.len() && before[k] == result;
                assert(now[k] == result);
            } else {
                assert(now[now.len() - 1] == result);
            }
        }
    }
}

/// A segment is reported in the result exactly when the context is in it:
/// the results are those of the segments that the context is in, and of no
/// other.
pub proof fn segments_reported_are_segments_matched(
    ec: EngineEvaluationContext,
    result: SegmentResultView,
)
    ensures
        evaluation_of(ec).segments.contains(result) <==> reports_matched_segment(
            ec,
            ec.segments.entries@.len() as int,
            result,
        ),
{
    lemma_segment_results(ec, ec.segments.entries@.len() as int, result);
}

/// The three kinds of reason: the default, a targeting match with the name
/// of a segment, and a split with the weight of a variant.
pub open spec fn is_reason(reason: Seq<char>) -> bool {
    ||| reason == "DEFAULT"@
    ||| exists|name: Seq<char>| reason == "TARGETING_MATCH; segment="@ + name
    ||| exists|weight: int| reason == "SPLIT; weight="@ + decimal_text(weight)
}

/// The reason of a flag is the given reason or that of a split.
pub proof fn lemma_reason_of(fc: FeatureContext, key: Option<Seq<char>>, default_reason: Seq<char>)
    requires
        is_reason(default_reason),
    ensures
        is_reason(flag_of(fc, key, default_reason).reason),
{
    match variant_for(fc, key) {
        Some(i) => {
            let weight = fc.variants@[i].weight@;
            assert(flag_of(fc, key, default_reason).reason == "SPLIT; weight="@ + decimal_text(
                weight,
            ));
        },
        None => {},
    }
}

/// The reason of every flag in the result is of one of the three kinds.
pub proof fn reasons_are_of_three_kinds(ec: EngineEvaluationContext)
    ensures
        forall|k: int|
            0 <= k < evaluation_of(ec).flags.len() ==> is_reason(
                (#[trigger] evaluation_of(ec).flags[k]).reason,
            ),
{
    let count = ec.features.entries@.len() as int;
    lemma_flags_through(ec, count);
    assert forall|k: int| 0 <= k < evaluation_of(ec).flags.len() implies is_reason(
        (#[trigger] evaluation_of(ec).flags[k]).reason,
    ) by {
        let flag = flags_through(ec, count).flags[k];
        assert(is_flag_of_feature(ec, count, flag));
        let i = choose|i: int|
            0 <= i < count && flag == flag_for(ec, (#[trigger] ec.features.entries@[i]).value);
        let feature = ec.features.entries@[i].value;
        match chosen_override(ec, feature.name@) {
            Some(place) => {
                let name = ec.segments.entries@[place.segment as int].value.name@;
                assert(is_reason("TARGETING_MATCH; segment="@ + name));
                lemma_reason_of(
                    override_at(ec, place),
                    identity_key(ec),
                    "TARGETING_MATCH; segment="@ + name,
                );
            },
            None => {
                lemma_reason_of(feature, identity_key(ec), "DEFAULT"@);
            },
        }
    }
}

/// Of two overrides for the same feature in segments that the context is in,
/// the strictly stronger one wins over the other: the override that is
/// chosen is at least as strong as the stronger one, so it is not the weaker
/// one.
pub proof fn stronger_override_wins(
    ec: EngineEvaluationContext,
    name: Seq<char>,
    first: OverrideRef,
    second: OverrideRef,
)
    requires
        is_candidate(ec, ec.segments.entries@.len() as int, name, first),
        is_candidate(ec, ec.segments.entries@.len() as int, name, second),
        stronger(priority_at(ec, first), priority_at(ec, second)),
    ensures
        chosen_override(ec, name) is Some,
        !stronger(priority_at(ec, first), priority_at(ec, chosen_override(ec, name)->0)),
        chosen_override(ec, name) != Some(second),
        is_candidate(
            ec,
            ec.segments.entries@.len() as int,
            name,
            chosen_override(ec, name)->0,
        ),
{
    assert(ec.segments.entries@.len() == ec.segments.entries.len());
    lemma_pick(ec, ec.segments.entries@.len() as int, name);
}

/// The override that is chosen for a feature is at least as strong as every
/// override for that feature in a segment that the context is in, and it is
/// walked before every such override that is as strong as it is.
pub proof fn chosen_override_is_first_among_the_strongest(
    ec: EngineEvaluationContext,
    name: Seq<char>,
    other: OverrideRef,
)
    requires
        is_candidate(ec, ec.segments.entries@.len() as int, name, other),
    ensures
        chosen_override(ec, name) is Some,
        is_candidate(
            ec,
            ec.segments.entries@.len() as int,
            name,
            chosen_override(ec, name)->0,
        ),
        !stronger(priority_at(ec, other), priority_at(ec, chosen_override(ec, name)->0)),
        stronger(priority_at(ec, chosen_override(ec, name)->0), priority_at(ec, other))
            || walked_first(chosen_override(ec, name)->0, other),
{
    assert(ec.segments.entries@.len() == ec.segments.entries.len());
    lemma_pick(ec, ec.segments.entries@.len() as int, name);
}

/// No feature has an override unless some segment that the context is in
/// overrides it.
pub proof fn no_override_without_candidate(ec: EngineEvaluationContext, name: Seq<char>)
    ensures
        chosen_override(ec, name) matches Some(place) ==> is_candidate(
            ec,
            ec.segments.entries@.len() as int,
            name,
            place,
        ),
{
    assert(ec.segments.entries@.len() == ec.segments.entries.len());
    lemma_pick(ec, ec.segments.entries@.len() as int, name);
}

/// The order of variants by priority is a strict total order: no variant
/// comes before itself, of two variants exactly one comes before the other,
/// and what comes before a variant comes before everything after it.
pub proof fn precedes_is_a_total_order(vs: Seq<FeatureValue>, a: int, b: int, c: int)
    ensures
        !precedes(vs, a, a),
        a != b ==> (precedes(vs, a, b) != precedes(vs, b, a)),
        precedes(vs, a, b) && precedes(vs, b, c) ==> precedes(vs, a, c),
{
}

/// Among the first `n` variants, the one that is selected comes before every
/// other one that reaches the percentage.
pub proof fn lemma_select_among(vs: Seq<FeatureValue>, position: nat, n: int)
    requires
        0 <= n <= vs.len(),
    ensures
        match select_among(vs, position, n) {
            Some(i) => 0 <= i < n && reaches(vs, i, position) && forall|j: int|
                0 <= j < n && j != i && #[trigger] reaches(vs, j, position) ==> precedes(vs, i, j),
            None => forall|j: int| 0 <= j < n ==> !#[trigger] reaches(vs, j, position),
        },
    decreases n,
{
    if n > 0 {
        lemma_select_among(vs, position, n - 1);
        let before = select_among(vs, position, n - 1);
        let now = select_among(vs, position, n);
        match now {
            Some(i) => {
                assert forall|j: int|
                    0 <= j < n && j != i && #[trigger] reaches(vs, j, position) implies precedes(
                    vs,
                    i,
                    j,
                ) by {
                    if before is Some {
                        precedes_is_a_total_order(vs, i, before->0, j);
                        precedes_is_a_total_order(vs, n - 1, before->0, j);
                        precedes_is_a_total_order(vs, before->0, n - 1, j);
                    }
                }
            },
            None => {},
        }
    }
}

/// The variant that is selected is the one that comes first in order of
/// priority among the variants whose cumulative weight reaches the
/// percentage; none is selected only if no variant reaches it.
pub proof fn selected_variant_is_the_first_that_reaches(vs: Seq<FeatureValue>, position: nat)
    ensures
        match selected_variant(vs, position) {
            Some(i) => 0 <= i < vs.len() && reaches(vs, i, position) && forall|j: int|
                0 <= j < vs.len() && j != i && #[trigger] reaches(vs, j, position) ==> precedes(
                    vs,
                    i,
                    j,
                ),
            None => forall|j: int| 0 <= j < vs.len() ==> !#[trigger] reaches(vs, j, position),
        },
{
    lemma_select_among(vs, position, vs.len() as int);
}

} // verus!
