//! Which segments of an environment an identity is in, going by its traits.

use vstd::prelude::*;
use vstd::string::*;
use crate::decimal::nat_text;
use crate::numbers::{number_of, percentage_reaches, read_number, threshold_of};
use crate::engine_eval::context::SegmentRuleType;
use crate::environments::Environment;
use crate::identities::{Identity, Trait};
use crate::maps::{lemma_lookup_prefix, lookup};
use crate::organisations::id_text;
use crate::segments::constants::{is_name, parse_rule_type, rule_type_of};
use crate::segments::{Segment, SegmentCondition, SegmentRule};
use crate::text::chars_of;
use crate::utils::hashing::{get_hashed_percentage_for_object_ids, hashed_position, id_texts};

verus! {

/// The keys of a list of traits, in order.
pub open spec fn trait_keys(traits: Seq<Trait>) -> Seq<Seq<char>> {
    Seq::new(traits.len(), |i: int| traits[i].trait_key@)
}

/// The percentage-split condition: the hash of the segment id and the
/// identity id is no greater than the threshold that the condition gives.
pub open spec fn split_holds(
    condition: SegmentCondition,
    segment_id: Seq<char>,
    identity_id: Seq<char>,
) -> bool {
    match condition.value {
        Some(v) => match number_of(v@) {
            Some(threshold) => threshold_of(
                hashed_position(seq![segment_id, identity_id], 1),
                threshold,
            ),
            None => false,
        },
        None => false,
    }
}

/// Whether the traits of an identity meet a condition. A percentage split
/// looks at the ids alone. Any other condition names a trait: `IS_SET` and
/// `IS_NOT_SET` ask whether the identity has it, and every other operator
/// holds only of a trait that the identity has.
pub open spec fn traits_meet_condition(
    traits: Seq<Trait>,
    condition: SegmentCondition,
    segment_id: Seq<char>,
    identity_id: Seq<char>,
) -> bool {
    if condition.operator@ == "PERCENTAGE_SPLIT"@ {
        split_holds(condition, segment_id, identity_id)
    } else {
        match condition.property {
            Some(property) => {
                let found = lookup(trait_keys(traits), property@);
                if condition.operator@ == "IS_SET"@ {
                    found is Some
                } else if condition.operator@ == "IS_NOT_SET"@ {
                    found is None
                } else {
                    match found {
                        Some(i) => condition.holds_of(traits[i].trait_value@),
                        None => false,
                    }
                }
            },
            None => false,
        }
    }
}

/// Whether the traits of an identity match a rule: its conditions are met as
/// its type asks (all of them for `ALL`, at least one for `ANY`, and whatever
/// they are for `NONE`), and every nested rule matches. A rule of any other
/// type matches nothing.
pub open spec fn traits_match_rule(
    traits: Seq<Trait>,
    rule: SegmentRule,
    segment_id: Seq<char>,
    identity_id: Seq<char>,
) -> bool
    decreases rule,
{
    &&& match rule_type_of(rule.segment_rule_type@) {
        Some(SegmentRuleType::Any) => exists|i: int|
            0 <= i < rule.conditions@.len() && traits_meet_condition(
                traits,
                #[trigger] rule.conditions@[i],
                segment_id,
                identity_id,
            ),
        Some(SegmentRuleType::All) => forall|i: int|
            0 <= i < rule.conditions@.len() ==> traits_meet_condition(
                traits,
                #[trigger] rule.conditions@[i],
                segment_id,
                identity_id,
            ),
        Some(SegmentRuleType::NoneOf) => true,
        None => false,
    }
    &&& forall|i: int|
        0 <= i < rule.rules@.len() ==> traits_match_rule(
            traits,
            *#[trigger] rule.rules@[i],
            segment_id,
            identity_id,
        )
}

/// The id that stands for an identity in hashes: its numeric id, if it has
/// one, and else its composite key.
pub open spec fn identity_id_of(identity: Identity) -> Seq<char> {
    match identity.django_id {
        Some(id) => nat_text(id as nat),
        None => identity.spec_composite_key(),
    }
}

/// Whether an identity is in a segment, going by the given traits: the
/// segment has rules, and the traits match every one of them.
pub open spec fn identity_in_segment(identity: Identity, segment: Segment, traits: Seq<Trait>) -> bool {
    &&& segment.rules@.len() > 0
    &&& forall|i: int|
        0 <= i < segment.rules@.len() ==> traits_match_rule(
            traits,
            #[trigger] segment.rules@[i],
            nat_text(segment.id as nat),
            identity_id_of(identity),
        )
}

/// The traits that count for an identity: the override traits, if any are
/// given, and else the identity's own.
pub open spec fn traits_in_force(identity: Identity, override_traits: Option<&Vec<Trait>>) -> Seq<
    Trait,
> {
    match override_traits {
        Some(traits) => traits@,
        None => identity.identity_traits@,
    }
}

/// Those of the first `n` segments that the identity is in, in order.
pub open spec fn segments_of_identity(
    segments: Seq<Segment>,
    identity: Identity,
    traits: Seq<Trait>,
    n: int,
) -> Seq<Segment>
    decreases n,
{
    if n <= 0 {
        Seq::<Segment>::empty()
    } else {
        let before = segments_of_identity(segments, identity, traits, n - 1);
        if identity_in_segment(identity, segments[n - 1], traits) {
            before.push(segments[n - 1])
        } else {
            before
        }
    }
}

/// The segments that a list of references points to.
pub open spec fn referred(found: Seq<&Segment>) -> Seq<Segment> {
    Seq::new(found.len(), |i: int| *found[i])
}

/// The segments of the environment's project that the identity is in.
pub fn get_identity_segments<'a>(
    environment: &'a Environment,
    identity: &Identity,
    override_traits: Option<&Vec<Trait>>,
) -> (r: Vec<&'a Segment>)
    ensures
        referred(r@) == segments_of_identity(
            environment.project.segments@,
            *identity,
            traits_in_force(*identity, override_traits),
            environment.project.segments@.len() as int,
        ),
{
    let segments = &environment.project.segments;
    let mut found: Vec<&'a Segment> = Vec::new();
    let mut i: usize = 0;
    assert(referred(found@) =~= Seq::<Segment>::empty());
    while i < segments.len()
        invariant
            i <= segments.len(),
            referred(found@) == segments_of_identity(
                segments@,
                *identity,
                traits_in_force(*identity, override_traits),
                i as int,
            ),
        decreases segments.len() - i,
    {
        if evaluate_identity_in_segment(identity, &segments[i], override_traits) {
            let ghost before = found@;
            found.push(&segments[i]);
            assert(referred(found@) =~= referred(before).push(segments@[i as int]));
        }
        i += 1;
    }
    found
}

/// Whether an identity is in a segment, going by the override traits, if any
/// are given, and else by its own.
pub fn evaluate_identity_in_segment(
    identity: &Identity,
    segment: &Segment,
    override_traits: Option<&Vec<Trait>>,
) -> (r: bool)
    ensures
        r == identity_in_segment(*identity, *segment, traits_in_force(*identity, override_traits)),
{
    let traits: &Vec<Trait> = match override_traits {
        Some(traits) => traits,
        None => &identity.identity_traits,
    };
    let identity_id = match identity.django_id {
        Some(id) => id_text(id),
        None => identity.composite_key(),
    };
    let segment_id = id_text(segment.id);
    if segment.rules.len() == 0 {
        return false;
    }
    let mut i: usize = 0;
    while i < segment.rules.len()
        invariant
            i <= segment.rules.len(),
            segment_id@ == nat_text(segment.id as nat),
            identity_id@ == identity_id_of(*identity),
            traits@ == traits_in_force(*identity, override_traits),
            forall|j: int|
                0 <= j < i ==> traits_match_rule(
                    traits@,
                    #[trigger] segment.rules@[j],
                    segment_id@,
                    identity_id@,
                ),
        decreases segment.rules.len() - i,
    {
        if !traits_match_segment_rule(
            traits,
            &segment.rules[i],
            segment_id.as_str(),
            identity_id.as_str(),
        ) {
            return false;
        }
        i += 1;
    }
    true
}

/// Whether the traits of an identity match a rule.
pub fn traits_match_segment_rule(
    identity_traits: &Vec<Trait>,
    rule: &SegmentRule,
    segment_id: &str,
    identity_id: &str,
) -> (r: bool)
    ensures
        r == traits_match_rule(identity_traits@, *rule, segment_id@, identity_id@),
    decreases rule,
{
    let matches_condition = match parse_rule_type(rule.segment_rule_type.as_str()) {
        Some(SegmentRuleType::Any) => {
            let mut hit = false;
            let mut i: usize = 0;
            while i < rule.conditions.len() && !hit
                invariant
                    i <= rule.conditions.len(),
                    hit ==> exists|j: int|
                        0 <= j < rule.conditions@.len() && traits_meet_condition(
                            identity_traits@,
                            #[trigger] rule.conditions@[j],
                            segment_id@,
                            identity_id@,
                        ),
                    !hit ==> forall|j: int|
                        0 <= j < i ==> !traits_meet_condition(
                            identity_traits@,
                            #[trigger] rule.conditions@[j],
                            segment_id@,
                            identity_id@,
                        ),
                decreases rule.conditions.len() - i + if hit { 0int } else { 1int },
            {
                if traits_match_segment_condition(
                    identity_traits,
                    &rule.conditions[i],
                    segment_id,
                    identity_id,
                ) {
                    hit = true;
                } else {
                    i += 1;
                }
            }
            hit
        },
        Some(SegmentRuleType::All) => {
            let mut all = true;
            let mut i: usize = 0;
            while i < rule.conditions.len() && all
                invariant
                    i <= rule.conditions.len(),
                    all ==> forall|j: int|
                        0 <= j < i ==> traits_meet_condition(
                            identity_traits@,
                            #[trigger] rule.conditions@[j],
                            segment_id@,
                            identity_id@,
                        ),
                    !all ==> exists|j: int|
                        0 <= j < rule.conditions@.len() && !traits_meet_condition(
                            identity_traits@,
                            #[trigger] rule.conditions@[j],
                            segment_id@,
                            identity_id@,
                        ),
                decreases rule.conditions.len() - i + if all { 1int } else { 0int },
            {
                if traits_match_segment_condition(
                    identity_traits,
                    &rule.conditions[i],
                    segment_id,
                    identity_id,
                ) {
                    i += 1;
                } else {
                    all = false;
                }
            }
            all
        },
        Some(SegmentRuleType::NoneOf) => true,
        None => false,
    };
    if !matches_condition {
        return false;
    }
    let mut i: usize = 0;
    while i < rule.rules.len()
        invariant
            i <= rule.rules.len(),
            forall|j: int|
                0 <= j < i ==> traits_match_rule(
                    identity_traits@,
                    *#[trigger] rule.rules@[j],
                    segment_id@,
                    identity_id@,
                ),
        decreases rule.rules.len() - i,
    {
        if !traits_match_segment_rule(identity_traits, &*rule.rules[i], segment_id, identity_id) {
            return false;
        }
        i += 1;
    }
    true
}

/// The position of the first trait with the given key.
pub fn find_trait(traits: &Vec<Trait>, key: &str) -> (r: Option<usize>)
    ensures
        match r {
            Some(i) => lookup(trait_keys(traits@), key@) == Some(i as int) && i < traits.len(),
            None => lookup(trait_keys(traits@), key@) is None,
        },
{
    let wanted = key.to_string();
    let ghost keys = trait_keys(traits@);
    let mut i: usize = 0;
    assert(keys.take(0) == Seq::<Seq<char>>::empty());
    while i < traits.len()
        invariant
            i <= traits.len(),
            wanted@ == key@,
            keys == trait_keys(traits@),
            lookup(keys.take(i as int), key@) is None,
        decreases traits.len() - i,
    {
        assert(keys.take(i + 1).drop_last() == keys.take(i as int));
        if traits[i].trait_key == wanted {
            proof {
                lemma_lookup_prefix(keys, key@, i + 1);
            }
            return Some(i);
        }
        i += 1;
    }
    assert(keys.take(i as int) == keys);
    None
}

/// Whether the traits of an identity meet a condition.
pub fn traits_match_segment_condition(
    identity_traits: &Vec<Trait>,
    condition: &SegmentCondition,
    segment_id: &str,
    identity_id: &str,
) -> (r: bool)
    ensures
        r == traits_meet_condition(identity_traits@, *condition, segment_id@, identity_id@),
{
    let operator = chars_of(condition.operator.as_str());
    if is_name(&operator, "PERCENTAGE_SPLIT") {
        let threshold = match &condition.value {
            Some(v) => match read_number(v.as_str()) {
                Some(t) => t,
                None => { return false; },
            },
            None => { return false; },
        };
        let mut object_ids: Vec<&str> = Vec::new();
        object_ids.push(segment_id);
        object_ids.push(identity_id);
        let percentage = get_hashed_percentage_for_object_ids(&object_ids, 1);
        assert(id_texts(object_ids@) =~= seq![segment_id@, identity_id@]);
        return percentage_reaches(percentage, &threshold);
    }
    match &condition.property {
        Some(property) => {
            let found = find_trait(identity_traits, property.as_str());
            if is_name(&operator, "IS_SET") {
                return found.is_some();
            }
            if is_name(&operator, "IS_NOT_SET") {
                return found.is_none();
            }
            match found {
                Some(i) => condition.matches_trait_value(&identity_traits[i].trait_value),
                None => false,
            }
        },
        None => false,
    }
}

} // verus!
