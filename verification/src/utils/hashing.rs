//! The deterministic bucketing that percentage splits and multivariate
//! selection rest on.
//!
//! The object ids are joined with commas, the MD5 digest of that text is read
//! as a big-endian number, and the number is reduced modulo 9999. The result
//! is a position between 0 and 9998; the percentage it stands for is
//! `position / 9998 * 100`, between 0 and 100 inclusive.

use vstd::prelude::*;
use vstd::string::*;
use md5::{Digest, Md5};
use crate::decimal::{Decimal, UNIT};
use crate::text::joined;

verus! {

/// The number of positions: digests are reduced modulo this.
pub const POSITIONS: u32 = 9999;

/// The last position, which stands for 100 per cent.
pub const LAST_POSITION: u32 = 9998;

/// The MD5 digest of the UTF-8 encoding of a text.
pub uninterp spec fn md5_of(text: Seq<char>) -> Seq<u8>;

/// `md5::Md5::digest` (the `Digest::digest` convenience function of the MD5
/// hasher): the digest of the bytes of `data`, which depends on nothing but
/// those bytes.
#[verifier::external_body]
fn md5_digest(data: &str) -> (out: Vec<u8>)
    ensures
        out@ == md5_of(data@),
{
    Md5::digest(data.as_bytes()).to_vec()
}

/// The number that `bytes` denote, most significant byte first.
pub open spec fn be_value(bytes: Seq<u8>) -> nat
    decreases bytes.len(),
{
    if bytes.len() == 0 {
        0
    } else {
        be_value(bytes.drop_last()) * 256 + bytes.last() as nat
    }
}

/// `count` copies of `s`, one after the other.
pub open spec fn repeated(s: Seq<char>, count: nat) -> Seq<char>
    decreases count,
{
    if count == 0 {
        Seq::<char>::empty()
    } else {
        repeated(s, (count - 1) as nat) + s
    }
}

/// The texts of a list of object ids.
pub open spec fn id_texts(ids: Seq<&str>) -> Seq<Seq<char>> {
    Seq::new(ids.len(), |i: int| ids[i]@)
}

/// The text that is hashed: the comma-joined ids, once for each iteration and
/// at least once.
pub open spec fn hash_input(ids: Seq<Seq<char>>, iterations: nat) -> Seq<char> {
    repeated(joined(ids, seq![',']), if iterations == 0 { 1 } else { iterations })
}

/// The position that a list of object ids hashes to.
pub open spec fn hashed_position(ids: Seq<Seq<char>>, iterations: nat) -> nat {
    be_value(md5_of(hash_input(ids, iterations))) % (POSITIONS as nat)
}

/// A percentage produced by hashing: `position / 9998 * 100`.
#[derive(Clone, Copy, Debug, PartialEq, Eq, Structural)]
pub struct HashedPercentage {
    position: u32,
}

impl View for HashedPercentage {
    type V = nat;

    /// The position, between 0 and 9998.
    closed spec fn view(&self) -> nat {
        self.position as nat
    }
}

/// `bytes` read as a big-endian number, modulo 9999.
pub fn residue(bytes: &Vec<u8>) -> (r: u32)
    ensures
        r == be_value(bytes@) % (POSITIONS as nat),
{
    let mut acc: u32 = 0;
    let mut i: usize = 0;
    assert(bytes@.take(0) == Seq::<u8>::empty());
    while i < bytes.len()
        invariant
            i <= bytes.len(),
            acc < POSITIONS,
            acc == be_value(bytes@.take(i as int)) % (POSITIONS as nat),
        decreases bytes.len() - i,
    {
        let b = bytes[i];
        assert(bytes@.take(i + 1).drop_last() == bytes@.take(i as int));
        let ghost before = be_value(bytes@.take(i as int));
        assert((before * 256 + b as nat) % 9999 == ((before % 9999) * 256 + b as nat) % 9999)
            by (nonlinear_arith);
        acc = (acc * 256 + (b as u32)) % POSITIONS;
        i += 1;
    }
    assert(bytes@.take(bytes.len() as int) == bytes@);
    acc
}

/// The comma-joined ids.
pub fn join_ids(object_ids: &Vec<&str>) -> (r: String)
    ensures
        r@ == joined(id_texts(object_ids@), seq![',']),
{
    let mut out = String::new();
    let mut i: usize = 0;
    proof {
        reveal_strlit(",");
    }
    assert(id_texts(object_ids@).take(0) == Seq::<Seq<char>>::empty());
    while i < object_ids.len()
        invariant
            i <= object_ids.len(),
            ","@ == seq![','],
            out@ == joined(id_texts(object_ids@).take(i as int), seq![',']),
        decreases object_ids.len() - i,
    {
        assert(id_texts(object_ids@).take(i + 1).drop_last() == id_texts(object_ids@).take(
            i as int,
        ));
        if i > 0 {
            out.append(",");
        } else {
            assert(Seq::<char>::empty() + object_ids@[0]@ == object_ids@[0]@);
        }
        out.append(object_ids[i]);
        i += 1;
    }
    assert(id_texts(object_ids@).take(object_ids.len() as int) == id_texts(object_ids@));
    out
}

/// The percentage that a list of object ids hashes to.
///
/// The ids are joined with commas; the joined text is taken `iterations`
/// times over, and once when `iterations` is zero.
pub fn get_hashed_percentage_for_object_ids(object_ids: &Vec<&str>, iterations: u32) -> (r:
    HashedPercentage)
    ensures
        r@ == hashed_position(id_texts(object_ids@), iterations as nat),
        r@ <= LAST_POSITION,
{
    let once = join_ids(object_ids);
    let mut to_hash = once.clone();
    let mut done: u32 = 1;
    assert(repeated(once@, 1) == once@) by {
        reveal_with_fuel(repeated, 2);
        assert(Seq::<char>::empty() + once@ == once@);
    }
    while done < iterations
        invariant
            1 <= done,
            done <= iterations || (iterations == 0 && done == 1),
            once@ == joined(id_texts(object_ids@), seq![',']),
            to_hash@ == repeated(once@, done as nat),
        decreases iterations - done,
    {
        to_hash.append(once.as_str());
        done += 1;
    }
    let digest = md5_digest(to_hash.as_str());
    HashedPercentage { position: residue(&digest) }
}

impl HashedPercentage {
    #[verifier::type_invariant]
    spec fn in_range(self) -> bool {
        self.position <= LAST_POSITION
    }

    /// The percentage of a position; positions beyond the last count as the
    /// last.
    pub fn from_position(position: u32) -> (r: HashedPercentage)
        ensures
            r@ == if position <= LAST_POSITION { position } else { LAST_POSITION },
    {
        if position <= LAST_POSITION {
            HashedPercentage { position }
        } else {
            HashedPercentage { position: LAST_POSITION }
        }
    }

    /// The position, between 0 and 9998.
    pub fn position(&self) -> (r: u32)
        ensures
            r == self@,
            r <= LAST_POSITION,
    {
        proof {
            use_type_invariant(self);
        }
        self.position
    }

    /// Whether this percentage is no greater than `units` units of 10^-18.
    pub open spec fn spec_at_most(self, units: int) -> bool {
        self@ * 100 * UNIT <= units * LAST_POSITION
    }

    /// Whether this percentage is less than `units` units of 10^-18.
    pub open spec fn spec_below(self, units: int) -> bool {
        self@ * 100 * UNIT < units * LAST_POSITION
    }

    /// Whether this percentage is no greater than `units` units of 10^-18.
    pub fn at_most_units(&self, units: i128) -> (r: bool)
        ensures
            r == self.spec_at_most(units as int),
    {
        let p = self.position();
        if units < 0 {
            assert(units * LAST_POSITION < 0) by (nonlinear_arith)
                requires
                    units < 0,
                    LAST_POSITION == 9998,
            ;
            false
        } else if units >= 100 * UNIT {
            assert(p * 100 * UNIT <= units * LAST_POSITION) by (nonlinear_arith)
                requires
                    0 <= p <= 9998,
                    units >= 100 * UNIT,
                    UNIT > 0,
                    LAST_POSITION == 9998,
            ;
            true
        } else {
            assert(units * LAST_POSITION < 1_000_000_000_000_000_000_000_000) by (nonlinear_arith)
                requires
                    0 <= units < 100 * UNIT,
                    UNIT == 1_000_000_000_000_000_000,
                    LAST_POSITION == 9998,
            ;
            (p as i128) * 100 * UNIT <= units * (LAST_POSITION as i128)
        }
    }

    /// Whether this percentage is less than `units` units of 10^-18.
    pub fn below_units(&self, units: i128) -> (r: bool)
        ensures
            r == self.spec_below(units as int),
    {
        let p = self.position();
        if units <= 0 {
            assert(units * LAST_POSITION <= 0) by (nonlinear_arith)
                requires
                    units <= 0,
                    LAST_POSITION == 9998,
            ;
            false
        } else if units > 100 * UNIT {
            assert(p * 100 * UNIT < units * LAST_POSITION) by (nonlinear_arith)
                requires
                    0 <= p <= 9998,
                    units > 100 * UNIT,
                    UNIT > 0,
                    LAST_POSITION == 9998,
            ;
            true
        } else {
            assert(units * LAST_POSITION < 1_000_000_000_000_000_000_000_000) by (nonlinear_arith)
                requires
                    0 <= units <= 100 * UNIT,
                    UNIT == 1_000_000_000_000_000_000,
                    LAST_POSITION == 9998,
            ;
            (p as i128) * 100 * UNIT < units * (LAST_POSITION as i128)
        }
    }

    /// Whether this percentage is no greater than `limit`.
    pub fn at_most(&self, limit: &Decimal) -> (r: bool)
        ensures
            r == self.spec_at_most(limit@),
    {
        self.at_most_units(limit.units())
    }

    /// Whether this percentage is less than `limit`.
    pub fn below(&self, limit: &Decimal) -> (r: bool)
        ensures
            r == self.spec_below(limit@),
    {
        self.below_units(limit.units())
    }
}

/// Hashing is a function of the object ids: any two percentages of the same
/// ids are the same, and they lie between 0 and 100 per cent.
pub proof fn hashing_is_deterministic(
    ids: Seq<Seq<char>>,
    first: HashedPercentage,
    second: HashedPercentage,
)
    requires
        first@ == hashed_position(ids, 1),
        second@ == hashed_position(ids, 1),
    ensures
        first@ == second@,
        0 <= first@ * 100 <= 100 * LAST_POSITION,
{
}

/// Every position but the last stands for a percentage strictly below 100.
pub proof fn percentage_is_below_hundred(ids: Seq<Seq<char>>)
    requires
        hashed_position(ids, 1) != LAST_POSITION,
    ensures
        hashed_position(ids, 1) * 100 < 100 * LAST_POSITION,
{
}

} // verus!
