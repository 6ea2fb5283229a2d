//! Features and feature states as environment documents hold them.

use vstd::prelude::*;
use vstd::string::*;
use crate::decimal::{nat_text, Decimal, UNIT};
use crate::organisations::id_text;
use crate::text::{chars_of, less, same_chars, text_less};
use crate::types::{FlagsmithValue, ValueView};
use crate::utils::hashing::{
    get_hashed_percentage_for_object_ids, hashed_position, id_texts, HashedPercentage,
    LAST_POSITION,
};

verus! {

/// A feature.
#[derive(Clone, Debug, PartialEq, Eq)]
pub struct Feature {
    pub id: u32,
    pub name: String,
    pub feature_type: Option<String>,
}

/// One of the values that a multivariate feature can take.
#[derive(Clone, Debug, PartialEq, Eq)]
pub struct MultivariateFeatureOption {
    pub value: FlagsmithValue,
    pub id: Option<u32>,
}

/// A multivariate option with the share of identities that get it.
#[derive(Clone, Debug, PartialEq, Eq)]
pub struct MultivariateFeatureStateValue {
    pub multivariate_feature_option: MultivariateFeatureOption,
    /// The share of identities that get this option, in per cent.
    pub percentage_allocation: Decimal,
    pub id: Option<u32>,
    pub mv_fs_value_uuid: String,
}

/// The place of a segment override among the overrides of a feature.
#[derive(Clone, Copy, Debug, PartialEq, Eq, Structural)]
pub struct FeatureSegment {
    pub priority: u32,
}

/// The state of a feature in an environment, for a segment or for an
/// identity.
#[derive(Clone, Debug, PartialEq, Eq)]
pub struct FeatureState {
    pub feature: Feature,
    pub enabled: bool,
    pub django_id: Option<u32>,
    pub feature_segment: Option<FeatureSegment>,
    pub featurestate_uuid: String,
    pub multivariate_feature_state_values: Vec<MultivariateFeatureStateValue>,
    pub value: FlagsmithValue,
}

/// The text by which a multivariate value is ordered: its id, if it has one,
/// and else its UUID.
pub open spec fn sort_key(v: MultivariateFeatureStateValue) -> Seq<char> {
    match v.id {
        Some(id) => nat_text(id as nat),
        None => v.mv_fs_value_uuid@,
    }
}

/// Whether value `j` comes before value `i` when the values are put in order
/// of their sort keys and values of equal key keep their order.
pub open spec fn key_precedes(vs: Seq<MultivariateFeatureStateValue>, j: int, i: int) -> bool {
    text_less(sort_key(vs[j]), sort_key(vs[i])) || (sort_key(vs[j]) == sort_key(vs[i]) && j < i)
}

/// The part of an allocation that counts: an allocation below zero counts as
/// zero.
pub open spec fn allocated(v: MultivariateFeatureStateValue) -> int {
    if v.percentage_allocation@ > 0 {
        v.percentage_allocation@
    } else {
        0
    }
}

/// The sum of the allocations of those of the first `n` values that come
/// before value `i`.
pub open spec fn allocated_before(vs: Seq<MultivariateFeatureStateValue>, i: int, n: int) -> int
    decreases n,
{
    if n <= 0 {
        0
    } else {
        allocated_before(vs, i, n - 1) + if key_precedes(vs, n - 1, i) {
            allocated(vs[n - 1])
        } else {
            0
        }
    }
}

/// Whether the percentage of `position` falls into the share of value `i`:
/// at or above the allocations before it, and below them plus its own.
pub open spec fn falls_to(vs: Seq<MultivariateFeatureStateValue>, i: int, position: nat) -> bool {
    let start = allocated_before(vs, i, vs.len() as int);
    start * LAST_POSITION <= position * 100 * UNIT && position * 100 * UNIT < (start + allocated(
        vs[i],
    )) * LAST_POSITION
}

/// Among the first `n` values, the one that comes first in key order among
/// those whose share the percentage falls into.
pub open spec fn option_among(vs: Seq<MultivariateFeatureStateValue>, position: nat, n: int) -> Option<
    int,
>
    decreases n,
{
    if n <= 0 {
        None
    } else {
        let before = option_among(vs, position, n - 1);
        if falls_to(vs, n - 1, position) && (before is None || key_precedes(vs, n - 1, before->0)) {
            Some(n - 1)
        } else {
            before
        }
    }
}

impl FeatureState {
    /// The id that stands for this feature state in hashes: its numeric id,
    /// if it has one, and else its UUID.
    pub open spec fn object_id(&self) -> Seq<char> {
        match self.django_id {
            Some(id) => nat_text(id as nat),
            None => self.featurestate_uuid@,
        }
    }

    /// The value of this feature state for an identity: that of the
    /// multivariate value whose share the identity falls into, and the
    /// feature state's own value when there is none.
    pub open spec fn multivariate_value(&self, identity_id: Seq<char>) -> ValueView {
        let vs = self.multivariate_feature_state_values@;
        match option_among(
            vs,
            hashed_position(seq![self.object_id(), identity_id], 1),
            vs.len() as int,
        ) {
            Some(i) => vs[i].multivariate_feature_option.value@,
            None => self.value@,
        }
    }

    /// The value of this feature state: for an identity, if one is given and
    /// the feature is multivariate, and else its own value.
    pub open spec fn value_for(&self, identity_id: Option<Seq<char>>) -> ValueView {
        match identity_id {
            Some(id) if self.multivariate_feature_state_values@.len() > 0 => self.multivariate_value(
                id,
            ),
            _ => self.value@,
        }
    }

    /// The value of this feature state, for an identity if one is given.
    pub fn get_value(&self, identity_id: Option<&str>) -> (r: FlagsmithValue)
        ensures
            r@ == self.value_for(
                match identity_id {
                    Some(id) => Some(id@),
                    None => None,
                },
            ),
            identity_id is None ==> r == self.value,
    {
        match identity_id {
            Some(id) => {
                if self.multivariate_feature_state_values.len() > 0 {
                    self.get_multivariate_value(id)
                } else {
                    self.value.clone()
                }
            },
            None => self.value.clone(),
        }
    }

    /// Whether this feature state is a segment override of higher priority
    /// than `other`: it has a feature segment, and `other` has none or one of
    /// a greater priority number.
    pub fn is_higher_segment_priority(&self, other: &FeatureState) -> (r: bool)
        ensures
            r == match (self.feature_segment, other.feature_segment) {
                (Some(mine), Some(theirs)) => mine.priority < theirs.priority,
                (Some(_), None) => true,
                (None, _) => false,
            },
    {
        match (&self.feature_segment, &other.feature_segment) {
            (Some(mine), Some(theirs)) => mine.priority < theirs.priority,
            (Some(_), None) => true,
            (None, _) => false,
        }
    }

    /// The value of this feature state for an identity.
    pub fn get_multivariate_value(&self, identity_id: &str) -> (r: FlagsmithValue)
        ensures
            r@ == self.multivariate_value(identity_id@),
    {
        let object_id = match self.django_id {
            Some(id) => id_text(id),
            None => self.featurestate_uuid.clone(),
        };
        let mut object_ids: Vec<&str> = Vec::new();
        object_ids.push(object_id.as_str());
        object_ids.push(identity_id);
        let percentage = get_hashed_percentage_for_object_ids(&object_ids, 1);
        assert(id_texts(object_ids@) =~= seq![self.object_id(), identity_id@]);
        match select_option(&self.multivariate_feature_state_values, percentage) {
            Some(i) => self.multivariate_feature_state_values[i].multivariate_feature_option.value.clone(),
            None => self.value.clone(),
        }
    }
}

/// The text by which a multivariate value is ordered.
pub fn key_of(v: &MultivariateFeatureStateValue) -> (r: Vec<char>)
    ensures
        r@ == sort_key(*v),
{
    match v.id {
        Some(id) => {
            let text = id_text(id);
            chars_of(text.as_str())
        },
        None => chars_of(v.mv_fs_value_uuid.as_str()),
    }
}

/// Whether value `j` comes before value `i` in key order.
pub fn comes_first(vs: &Vec<MultivariateFeatureStateValue>, j: usize, i: usize) -> (r: bool)
    requires
        j < vs.len(),
        i < vs.len(),
    ensures
        r == key_precedes(vs@, j as int, i as int),
{
    let kj = key_of(&vs[j]);
    let ki = key_of(&vs[i]);
    less(&kj, &ki) || (same_chars(&kj, &ki) && j < i)
}

/// The allocation beyond which sums stop growing, in units of 10^-18: just
/// above one hundred per cent. No percentage reaches it.
pub const BEYOND: i128 = 100_000_000_000_000_000_001;

/// Whether the percentage falls into the share of value `i`.
pub fn share_holds(vs: &Vec<MultivariateFeatureStateValue>, i: usize, percentage: HashedPercentage) -> (r:
    bool)
    requires
        i < vs.len(),
    ensures
        r == falls_to(vs@, i as int, percentage@),
{
    let mut start: i128 = 0;
    let mut n: usize = 0;
    while n < vs.len()
        invariant
            n <= vs.len(),
            i < vs.len(),
            0 <= start <= BEYOND,
            0 <= allocated_before(vs@, i as int, n as int),
            start == if allocated_before(vs@, i as int, n as int) < BEYOND {
                allocated_before(vs@, i as int, n as int)
            } else {
                BEYOND as int
            },
        decreases vs.len() - n,
    {
        if comes_first(vs, n, i) {
            let w = vs[n].percentage_allocation.units();
            if w > 0 {
                let next: i128 = start + w;
                start = if next < BEYOND { next } else { BEYOND };
            }
        }
        n += 1;
    }
    let own = vs[i].percentage_allocation.units();
    let reach: i128 = if own > 0 { start + own } else { start };
    let limit: i128 = if reach < BEYOND { reach } else { BEYOND };
    let p = percentage.position();
    let ghost before = allocated_before(vs@, i as int, vs.len() as int);
    let ghost end = before + allocated(vs@[i as int]);
    assert((before * LAST_POSITION <= p * 100 * UNIT) == (start * LAST_POSITION <= p * 100 * UNIT))
        by (nonlinear_arith)
        requires
            0 <= p <= 9998,
            LAST_POSITION == 9998,
            UNIT == 1_000_000_000_000_000_000,
            BEYOND == 100_000_000_000_000_000_001,
            0 <= before,
            start == if before < BEYOND { before } else { BEYOND as int },
    ;
    assert((p * 100 * UNIT < end * LAST_POSITION) == (p * 100 * UNIT < limit * LAST_POSITION))
        by (nonlinear_arith)
        requires
            0 <= p <= 9998,
            LAST_POSITION == 9998,
            UNIT == 1_000_000_000_000_000_000,
            BEYOND == 100_000_000_000_000_000_001,
            0 <= end,
            limit == if end < BEYOND { end } else { BEYOND as int },
    ;
    !percentage.below_units(start) && percentage.below_units(limit)
}

/// The multivariate value whose share the percentage falls into, if any.
pub fn select_option(vs: &Vec<MultivariateFeatureStateValue>, percentage: HashedPercentage) -> (r:
    Option<usize>)
    ensures
        match r {
            Some(i) => option_among(vs@, percentage@, vs@.len() as int) == Some(i as int) && i
                < vs.len(),
            None => option_among(vs@, percentage@, vs@.len() as int) is None,
        },
{
    let mut best: Option<usize> = None;
    let mut n: usize = 0;
    while n < vs.len()
        invariant
            n <= vs.len(),
            match best {
                Some(i) => option_among(vs@, percentage@, n as int) == Some(i as int) && i < n,
                None => option_among(vs@, percentage@, n as int) is None,
            },
        decreases vs.len() - n,
    {
        if share_holds(vs, n, percentage) {
            let better = match best {
                None => true,
                Some(b) => comes_first(vs, n, b),
            };
            if better {
                best = Some(n);
            }
        }
        n += 1;
    }
    best
}

} // verus!
