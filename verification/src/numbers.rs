//! Texts read as numbers.
//!
//! Segment conditions compare texts as 64-bit floating-point numbers. This
//! library holds no floating-point numbers: it reads a text as an exact
//! decimal of up to eighteen places below 10^18, as an infinity, or as "not
//! a number", and it says so when a numeral is of a greater magnitude, has
//! more places, or otherwise lies beyond what its decimals hold.
//!
//! A comparison is *decided* when the exact reading and the floating-point
//! reading cannot differ: `comparison_decided`, `modulo_decided` and
//! `threshold_decided` say when, and `is_comparison_decided`,
//! `is_modulo_decided` and `is_threshold_decided` test it. What a comparison
//! that is not decided comes to is a function of the operands, and nothing
//! more is stated of it.

use vstd::prelude::*;
use vstd::string::*;
use crate::decimal::{
    digit, digit_of, digit_run, digits_value, is_digit, magnitude, read_digits, scan_digits,
    sign_len, truncated_rem, Decimal, LIMIT, UNIT,
};
use crate::engine_eval::context::ConditionOperator;
use crate::engine_eval::segment_evaluator::{compares, dispatch_operator, within, TOLERANCE};
use crate::text::{ascii_lowered, chars_of, same_chars, slice_of, to_ascii_lower};
use crate::utils::hashing::{HashedPercentage, LAST_POSITION};

verus! {

/// The digits of a numeral, read as one whole number, must stay below this
/// for the numeral to be read: 10^37.
pub const DIGITS_LIMIT: u128 = 10_000_000_000_000_000_000_000_000_000_000_000_000;

/// The exponent of a numeral must stay below this in magnitude for the
/// numeral to be read: 10^9.
pub const EXPONENT_LIMIT: u128 = 1_000_000_000;

/// Two decimals that differ by more than one part in this many of the
/// larger are different floating-point numbers: 2^51.
pub const SPAN: u128 = 2_251_799_813_685_248;

/// The finest binary fraction that decimals hold, 2^-18, in units: 5^18.
pub const FINEST: u128 = 3_814_697_265_625;

/// Floating-point numbers hold the odd numbers below this one: 2^53.
pub const ODD_LIMIT: u128 = 9_007_199_254_740_992;

/// A decimal of at most this magnitude, in units, is a smaller
/// floating-point number than any numeral of magnitude 10^18 or more:
/// 10^18 - 1000.
pub const CLEAR_LIMIT: u128 = 999_999_999_999_999_000_000_000_000_000_000_000;

/// A percentage and a threshold that differ by at least this many units of
/// 10^-18 are apart: 2 * 10^-5.
pub const MARGIN: i128 = 20_000_000_000_000;

/// What a text denotes as a number.
pub enum Number {
    /// Not a number: `nan`.
    Nan,
    /// An infinity: `inf` or `infinity`; negative after a minus sign.
    Infinite(bool),
    /// A decimal, in units of 10^-18.
    Finite(int),
    /// A numeral of magnitude 10^18 or more; negative after a minus sign.
    Huge(bool),
    /// A numeral of more than eighteen places: it lies between this many
    /// units and the next one away from nought, and is neither. It is
    /// negative after a minus sign.
    Between(bool, int),
    /// Any other numeral whose value the decimals of this library do not
    /// hold.
    Beyond,
}

/// A text read as a number.
#[derive(Clone, Copy, Debug, PartialEq, Eq)]
pub enum Reading {
    /// Not a number: `nan`.
    Nan,
    /// An infinity: `inf` or `infinity`.
    Infinite { negative: bool },
    /// A decimal.
    Finite(Decimal),
    /// A numeral of magnitude 10^18 or more.
    Huge { negative: bool },
    /// A numeral of more than eighteen places, which lies between a decimal
    /// and the next one away from nought.
    Between { negative: bool, nearer: Decimal },
    /// Any other numeral whose value the decimals of this library do not
    /// hold.
    Beyond,
}

impl View for Reading {
    type V = Number;

    open spec fn view(&self) -> Number {
        match self {
            Reading::Nan => Number::Nan,
            Reading::Infinite { negative } => Number::Infinite(*negative),
            Reading::Finite(d) => Number::Finite(d@),
            Reading::Huge { negative } => Number::Huge(*negative),
            Reading::Between { negative, nearer } => Number::Between(*negative, nearer@),
            Reading::Beyond => Number::Beyond,
        }
    }
}

/// The whole number that the digits of `s` denote when they follow digits
/// that denote `acc`.
pub open spec fn digits_onto(acc: nat, s: Seq<char>) -> nat
    decreases s.len(),
{
    if s.len() == 0 {
        acc
    } else {
        digits_onto(acc, s.drop_last()) * 10 + digit_of(s.last())
    }
}

/// `n` times ten, `k` times over, as long as it stays below the bound of
/// decimals.
pub open spec fn times_ten(n: nat, k: nat) -> Option<nat>
    decreases k,
{
    if n == 0 {
        Some(0)
    } else if k == 0 {
        if n < LIMIT {
            Some(n)
        } else {
            None
        }
    } else if n * 10 < LIMIT {
        times_ten(n * 10, (k - 1) as nat)
    } else {
        None
    }
}

/// `n` divided by ten, `k` times over, as long as nothing is left over.
pub open spec fn tenth(n: nat, k: nat) -> Option<nat>
    decreases k,
{
    if n == 0 {
        Some(0)
    } else if k == 0 {
        Some(n)
    } else if n % 10 == 0 {
        tenth(n / 10, (k - 1) as nat)
    } else {
        None
    }
}

/// `n` divided by ten, `k` times over, with what is left over dropped.
pub open spec fn tenths_floor(n: nat, k: nat) -> nat
    decreases k,
{
    if n == 0 || k == 0 {
        n
    } else {
        tenths_floor(n / 10, (k - 1) as nat)
    }
}

/// `n` times ten to the power of `k`, if that is a whole number below the
/// bound of decimals.
pub open spec fn shifted(n: nat, k: int) -> Option<nat> {
    if k >= 0 {
        times_ten(n, k as nat)
    } else {
        match tenth(n, (-k) as nat) {
            Some(m) if m < LIMIT => Some(m),
            _ => None,
        }
    }
}

/// The number of units that `digits` times ten to the power of `k - 18`
/// comes to, if the decimals of this library hold it. Where they do not, the
/// number is of magnitude 10^18 or more if nothing was to be divided, and
/// else lies between two decimals.
pub open spec fn placed(digits: nat, k: int) -> Number {
    if digits < DIGITS_LIMIT {
        match shifted(digits, k) {
            Some(m) => Number::Finite(m as int),
            None => if k >= 0 {
                Number::Huge(false)
            } else {
                Number::Between(false, tenths_floor(digits, (-k) as nat) as int)
            },
        }
    } else {
        Number::Beyond
    }
}

/// The number of characters that a sign takes at position `i` of `s`.
pub open spec fn sign_at(s: Seq<char>, i: int) -> int {
    if 0 <= i < s.len() && (s[i] == '+' || s[i] == '-') {
        1
    } else {
        0
    }
}

/// The exponent that stands at position `d` of `s`: none where the text
/// ends there, and else `e` or `E`, an optional sign, and at least one digit.
/// The outer result is `None` where something else stands there; the inner
/// one is `None` where the exponent is too large to be read.
pub open spec fn exponent(s: Seq<char>, d: int) -> Option<Option<int>> {
    if d == s.len() {
        Some(Some(0))
    } else if 0 <= d < s.len() && (s[d] == 'e' || s[d] == 'E') {
        let x = d + 1 + sign_at(s, d + 1);
        let y = digit_run(s, x);
        let e = digits_value(s.subrange(x, y));
        if y == s.len() && y > x {
            if e < EXPONENT_LIMIT {
                Some(Some(if sign_at(s, d + 1) == 1 && s[d + 1] == '-' { -(e as int) } else { e as int }))
            } else {
                Some(None)
            }
        } else {
            None
        }
    } else {
        None
    }
}

/// The magnitude that the numeral from position `a` of `s` denotes, if what
/// stands there is a numeral: digits, optionally a point and digits, with at
/// least one digit in all, and optionally an exponent.
pub open spec fn numeral(s: Seq<char>, a: int) -> Option<Number> {
    let b = digit_run(s, a);
    let c = if b < s.len() && s[b] == '.' { b + 1 } else { b };
    let d = digit_run(s, c);
    let digits = digits_onto(digits_value(s.subrange(a, b)), s.subrange(c, d));
    if (b - a) + (d - c) == 0 {
        None
    } else {
        match exponent(s, d) {
            None => None,
            Some(None) => Some(Number::Beyond),
            Some(Some(e)) => Some(placed(digits, 18 - (d - c) + e)),
        }
    }
}

/// A number with the sign that stands before it.
pub open spec fn signed(negative: bool, n: Number) -> Number {
    match n {
        Number::Finite(m) => Number::Finite(if negative { -m } else { m }),
        Number::Huge(_) => Number::Huge(negative),
        Number::Between(_, m) => Number::Between(negative, if negative { -m } else { m }),
        other => other,
    }
}

/// The number that the word after the sign is: an infinity or not a number.
pub open spec fn special(negative: bool, word: Seq<char>) -> Option<Number> {
    if word == "inf"@ || word == "infinity"@ {
        Some(Number::Infinite(negative))
    } else if word == "nan"@ {
        Some(Number::Nan)
    } else {
        None
    }
}

/// The number that a text denotes, if it denotes one: after an optional
/// sign, `inf`, `infinity` or `nan` in any mix of upper and lower case, or a
/// numeral.
pub open spec fn number_of(s: Seq<char>) -> Option<Number> {
    let a = sign_len(s);
    let negative = a == 1 && s[0] == '-';
    match special(negative, ascii_lowered(s.skip(a))) {
        Some(n) => Some(n),
        None => match numeral(s, a) {
            Some(n) => Some(signed(negative, n)),
            None => None,
        },
    }
}

/// `n` divided by two as often as it can be.
pub open spec fn odd_part(n: nat) -> nat
    decreases n,
{
    if n > 0 && n % 2 == 0 {
        odd_part(n / 2)
    } else {
        n
    }
}

/// Whether floating-point numbers hold a decimal exactly: it is a binary
/// fraction of at most fifty-three bits. The whole numbers up to 2^53 are
/// exact, and so are their halves and quarters; a tenth is not.
pub open spec fn exact(units: int) -> bool {
    magnitude(units) % (FINEST as nat) == 0 && odd_part(magnitude(units) / (FINEST as nat))
        < ODD_LIMIT
}

/// The larger of two magnitudes.
pub open spec fn larger(a: nat, b: nat) -> nat {
    if a >= b {
        a
    } else {
        b
    }
}

/// Whether two decimals differ by more than one part in 2^51 of the larger:
/// they are then different floating-point numbers, in the same order. Any
/// two different decimals of at most fifteen significant digits do.
pub open spec fn far(x: int, y: int) -> bool {
    magnitude(x - y) * SPAN > larger(magnitude(x), magnitude(y))
}

/// Whether the percentage of a position and a threshold are the same or
/// apart: floating-point numbers of either width then stand as they do.
pub open spec fn apart(position: nat, threshold: int) -> bool {
    let gap = position * 100 * UNIT - threshold * LAST_POSITION;
    gap == 0 || gap >= MARGIN * LAST_POSITION || -gap >= MARGIN * LAST_POSITION
}

/// Where a number stands among the numbers: a decimal at its units, a
/// number between two decimals at the one nearer to nought, the infinities
/// and the numbers of magnitude 10^18 or more beyond every decimal.
pub open spec fn rank(a: Number) -> int {
    match a {
        Number::Infinite(true) => -LIMIT,
        Number::Infinite(false) => LIMIT as int,
        Number::Huge(true) => -LIMIT,
        Number::Huge(false) => LIMIT as int,
        Number::Finite(u) => u,
        Number::Between(_, u) => u,
        _ => 0,
    }
}

/// The greatest decimal that is no greater than a number.
pub open spec fn low(a: Number) -> int {
    match a {
        Number::Between(true, u) => u - 1,
        _ => rank(a),
    }
}

/// The least decimal that is no less than a number.
pub open spec fn high(a: Number) -> int {
    match a {
        Number::Between(false, u) => u + 1,
        _ => rank(a),
    }
}

/// Whether one of two numbers lies below the other with decimals between
/// them that are far from one another.
pub open spec fn separated(a: Number, b: Number) -> bool {
    (high(a) < low(b) && far(high(a), low(b))) || (high(b) < low(a) && far(high(b), low(a)))
}

/// Whether a decimal is clear of the numbers of magnitude 10^18 or more
/// that are negative, or of those that are not: it is of the other sign, or
/// its magnitude is at most 10^18 - 1000.
pub open spec fn clear(negative: bool, units: int) -> bool {
    magnitude(units) <= CLEAR_LIMIT || negative != (units < 0)
}

/// Whether the comparison of two numbers is decided. It is when one of them
/// is not a number. Two decimals are decided when they are equal, far from
/// one another, or both exact; a number between two decimals is decided
/// against a decimal or such a number from which it is separated; a number
/// of magnitude 10^18 or more is decided against what is clear of it, and
/// against such a number or an infinity of the other sign; an infinity is
/// decided against everything smaller and against every infinity. Nothing
/// else is.
pub open spec fn comparison_decided(a: Number, b: Number) -> bool {
    match (a, b) {
        (Number::Nan, _) => true,
        (_, Number::Nan) => true,
        (Number::Beyond, _) => false,
        (_, Number::Beyond) => false,
        (Number::Finite(x), Number::Finite(y)) => x == y || far(x, y) || (exact(x) && exact(y)),
        (Number::Huge(p), Number::Huge(q)) => p != q,
        (Number::Huge(p), Number::Infinite(q)) => p != q,
        (Number::Infinite(p), Number::Huge(q)) => p != q,
        (Number::Huge(p), Number::Finite(y)) => clear(p, y),
        (Number::Finite(x), Number::Huge(q)) => clear(q, x),
        (Number::Huge(p), Number::Between(_, _)) => clear(p, low(b)) && clear(p, high(b)),
        (Number::Between(_, _), Number::Huge(q)) => clear(q, low(a)) && clear(q, high(a)),
        (Number::Between(_, _), Number::Finite(_)) => separated(a, b),
        (Number::Finite(_), Number::Between(_, _)) => separated(a, b),
        (Number::Between(_, _), Number::Between(_, _)) => separated(a, b),
        _ => true,
    }
}

/// Whether two numbers are compared by where they stand even where their
/// comparison is not decided.
pub closed spec fn ordered(a: Number, b: Number) -> bool {
    match (a, b) {
        (Number::Nan, _) => false,
        (_, Number::Nan) => false,
        (Number::Beyond, _) => false,
        (_, Number::Beyond) => false,
        (Number::Huge(p), Number::Huge(q)) => p != q,
        (Number::Huge(p), Number::Infinite(q)) => p != q,
        (Number::Infinite(p), Number::Huge(q)) => p != q,
        _ => true,
    }
}

/// What a comparison that is decided comes to: what is not a number differs
/// from everything and is neither above nor below anything; all other
/// numbers are compared by where they stand.
pub open spec fn decided_comparison(op: ConditionOperator, a: Number, b: Number) -> bool {
    if a is Nan || b is Nan {
        op == ConditionOperator::NotEqual
    } else {
        compares(op, rank(a), rank(b))
    }
}

/// What a comparison that is not decided comes to.
pub closed spec fn undecided_comparison(op: ConditionOperator, a: Number, b: Number) -> bool {
    if ordered(a, b) {
        compares(op, rank(a), rank(b))
    } else {
        op == ConditionOperator::NotEqual
    }
}

/// What the comparison of two numbers comes to.
pub open spec fn comparison_of(op: ConditionOperator, a: Number, b: Number) -> bool {
    if comparison_decided(a, b) {
        decided_comparison(op, a, b)
    } else {
        undecided_comparison(op, a, b)
    }
}

/// What the comparison of two texts as numbers comes to, where both are
/// numbers. A text that denotes a number, however large or fine, stands to
/// itself as a number stands to itself: equal, and neither above nor below.
/// Any other two texts are compared as the numbers that they denote.
pub open spec fn texts_compared(op: ConditionOperator, a: Seq<char>, b: Seq<char>) -> Option<bool> {
    match (number_of(a), number_of(b)) {
        (Some(x), Some(y)) => Some(
            if a == b && !(x is Nan) {
                compares(op, 0, 0)
            } else {
                comparison_of(op, x, y)
            },
        ),
        _ => None,
    }
}

/// Whether `t` leaves `r` when divided by `d` is decided: one of the three is
/// not a number, `t` or `r` is infinite, `d` is zero, or `t` and `r` are
/// exact and `d` is exact, infinite, or of magnitude 10^18 or more.
pub open spec fn modulo_decided(t: Number, d: Number, r: Number) -> bool {
    ||| t is Nan || d is Nan || r is Nan
    ||| t is Infinite || r is Infinite
    ||| d == Number::Finite(0)
    ||| (t matches Number::Finite(x) && r matches Number::Finite(z) && exact(x) && exact(z) && (
    d is Infinite || d is Huge || (d matches Number::Finite(y) && exact(y))))
}

/// Whether `t` leaves `r` when divided by `d`, where that is decided. What
/// is not a number, an infinite `t` or `r`, and a divisor of zero leave
/// nothing; a divisor that is infinite or of magnitude 10^18 or more leaves
/// `t` itself.
pub open spec fn decided_modulo(t: Number, d: Number, r: Number) -> bool {
    match (t, d, r) {
        (Number::Finite(x), Number::Finite(y), Number::Finite(z)) => y != 0 && truncated_rem(x, y)
            == z,
        (Number::Finite(x), Number::Infinite(_), Number::Finite(z)) => x == z,
        (Number::Finite(x), Number::Huge(_), Number::Finite(z)) => x == z,
        _ => false,
    }
}

/// Whether `t` leaves `r` when divided by `d`, where that is not decided.
pub closed spec fn undecided_modulo(t: Number, d: Number, r: Number) -> bool {
    match (t, d, r) {
        (Number::Finite(x), Number::Finite(y), Number::Finite(z)) => y != 0 && -TOLERANCE
            < truncated_rem(x, y) - z && truncated_rem(x, y) - z < TOLERANCE,
        (Number::Finite(x), Number::Infinite(_), Number::Finite(z)) => -TOLERANCE < x - z && x - z
            < TOLERANCE,
        (Number::Finite(x), Number::Huge(_), Number::Finite(z)) => -TOLERANCE < x - z && x - z
            < TOLERANCE,
        _ => false,
    }
}

/// Whether `t` leaves `r`, to within 10^-10, when divided by `d`.
pub open spec fn modulo_of(t: Number, d: Number, r: Number) -> bool {
    if modulo_decided(t, d, r) {
        decided_modulo(t, d, r)
    } else {
        undecided_modulo(t, d, r)
    }
}

/// Whether it is decided that the percentage of a position is no greater
/// than a decimal: the decimal is below zero or at least one hundred, or is
/// the percentage itself or apart from it.
pub open spec fn decimal_decided(position: nat, u: int) -> bool {
    u < 0 || u >= 100 * UNIT || apart(position, u)
}

/// Whether it is decided that the percentage of a position is no greater
/// than a threshold: the threshold is not a number, is infinite or of
/// magnitude 10^18 or more, is a decimal for which it is decided, or lies
/// between two decimals for which the same is decided.
pub open spec fn threshold_decided(position: nat, t: Number) -> bool {
    match t {
        Number::Nan => true,
        Number::Infinite(_) => true,
        Number::Huge(_) => true,
        Number::Finite(u) => decimal_decided(position, u),
        Number::Between(_, _) => decimal_decided(position, low(t)) && decimal_decided(
            position,
            high(t),
        ) && within(position, low(t)) == within(position, high(t)),
        Number::Beyond => false,
    }
}

/// Whether a percentage is no greater than a threshold, where that is
/// decided: nothing is within what is not a number or within a negative
/// number, and everything is within a number of a hundred or more.
pub open spec fn decided_threshold(position: nat, t: Number) -> bool {
    match t {
        Number::Infinite(negative) => !negative,
        Number::Huge(negative) => !negative,
        Number::Finite(u) => within(position, u),
        Number::Between(_, _) => within(position, low(t)),
        _ => false,
    }
}

/// Whether a percentage is no greater than a threshold, where that is not
/// decided.
pub closed spec fn undecided_threshold(position: nat, t: Number) -> bool {
    match t {
        Number::Finite(u) => within(position, u),
        Number::Between(_, _) => within(position, low(t)),
        _ => false,
    }
}

/// Whether the percentage of a position is no greater than a threshold.
pub open spec fn threshold_of(position: nat, t: Number) -> bool {
    if threshold_decided(position, t) {
        decided_threshold(position, t)
    } else {
        undecided_threshold(position, t)
    }
}

/// Whatever two texts that are numbers are, they are equal exactly when
/// they are not unequal.
pub proof fn equal_texts_are_not_unequal(a: Seq<char>, b: Seq<char>)
    requires
        number_of(a) is Some,
        number_of(b) is Some,
    ensures
        texts_compared(ConditionOperator::Equal, a, b) == Some(
            !(texts_compared(ConditionOperator::NotEqual, a, b)->0),
        ),
{
}

/// Whatever two numbers are, they are equal exactly when they are not
/// unequal.
pub proof fn equality_negates_inequality(a: Number, b: Number)
    ensures
        comparison_of(ConditionOperator::Equal, a, b) == !comparison_of(
            ConditionOperator::NotEqual,
            a,
            b,
        ),
{
}

/// The digits of a number are worth no less than any beginning of them.
pub proof fn lemma_digits_onto_grows(acc: nat, s: Seq<char>, k: int)
    requires
        0 <= k <= s.len(),
    ensures
        digits_onto(acc, s.take(k)) <= digits_onto(acc, s),
        acc <= digits_onto(acc, s),
    decreases s.len() - k,
{
    if k == s.len() {
        assert(s.take(k) == s);
    } else {
        assert(s.take(k + 1).drop_last() == s.take(k));
        lemma_digits_onto_grows(acc, s, k + 1);
    }
    lemma_digits_onto_least(acc, s);
}

/// Digits that follow a number make it no smaller.
pub proof fn lemma_digits_onto_least(acc: nat, s: Seq<char>)
    ensures
        acc <= digits_onto(acc, s),
    decreases s.len(),
{
    if s.len() > 0 {
        lemma_digits_onto_least(acc, s.drop_last());
    }
}

/// The whole number that the digits `s[from..to]` denote when they follow
/// digits that denote `start`, if it is below `bound`.
pub fn read_digits_onto(s: &Vec<char>, from: usize, to: usize, start: u128, bound: u128) -> (r:
    Option<u128>)
    requires
        from <= to <= s.len(),
        forall|k: int| from <= k < to ==> is_digit(#[trigger] s@[k]),
        start < bound <= 0x1000_0000_0000_0000_0000_0000_0000_0000,
    ensures
        match r {
            Some(v) => v == digits_onto(start as nat, s@.subrange(from as int, to as int)) && v
                < bound,
            None => digits_onto(start as nat, s@.subrange(from as int, to as int)) >= bound,
        },
{
    let ghost all = s@.subrange(from as int, to as int);
    let mut acc: u128 = start;
    let mut i: usize = from;
    assert(all.take(0) == Seq::<char>::empty());
    while i < to
        invariant
            from <= i <= to <= s.len(),
            all == s@.subrange(from as int, to as int),
            forall|k: int| from <= k < to ==> is_digit(#[trigger] s@[k]),
            acc == digits_onto(start as nat, all.take(i - from)),
            acc < bound,
            bound <= 0x1000_0000_0000_0000_0000_0000_0000_0000,
        decreases to - i,
    {
        let d = digit(s[i]);
        assert(all.take(i - from + 1).drop_last() == all.take(i - from));
        assert(all.take(i - from + 1).last() == s@[i as int]);
        let next: u128 = acc * 10 + (d as u128);
        if next >= bound {
            proof {
                lemma_digits_onto_grows(start as nat, all, i - from + 1);
            }
            return None;
        }
        acc = next;
        i += 1;
    }
    assert(all.take(to - from) == all);
    Some(acc)
}

/// `n` times ten to the power of `k`, if that is a whole number below the
/// bound of decimals.
pub fn shift(n: u128, k: i128) -> (r: Option<u128>)
    ensures
        match r {
            Some(m) => shifted(n as nat, k as int) == Some(m as nat) && m < LIMIT,
            None => shifted(n as nat, k as int) is None,
        },
{
    let mut acc: u128 = n;
    if k >= 0 {
        let mut j: i128 = k;
        loop
            invariant
                0 <= j <= k,
                times_ten(n as nat, k as nat) == times_ten(acc as nat, j as nat),
            decreases j,
        {
            if acc == 0 {
                return Some(0);
            }
            if j == 0 {
                return if acc < (LIMIT as u128) { Some(acc) } else { None };
            }
            if acc >= (LIMIT as u128) || acc * 10 >= (LIMIT as u128) {
                return None;
            }
            acc = acc * 10;
            j -= 1;
        }
    } else {
        let mut j: i128 = k;
        loop
            invariant
                k <= j <= 0,
                tenth(n as nat, (-k) as nat) == tenth(acc as nat, (-j) as nat),
            decreases -j,
        {
            if acc == 0 {
                return Some(0);
            }
            if j == 0 {
                return if acc < (LIMIT as u128) { Some(acc) } else { None };
            }
            if acc % 10 != 0 {
                return None;
            }
            acc = acc / 10;
            j += 1;
        }
    }
}

/// `n` divided by ten to the power of `-k`, with what is left over dropped.
fn shift_floor(n: u128, k: i128) -> (r: u128)
    requires
        n < DIGITS_LIMIT,
        k < 0,
    ensures
        r == tenths_floor(n as nat, (-k) as nat),
        r < LIMIT,
{
    let mut acc: u128 = n;
    let mut j: i128 = k;
    while j < 0 && acc > 0
        invariant
            k <= j <= 0,
            k < 0,
            acc < DIGITS_LIMIT,
            j > k || acc == 0 ==> acc < LIMIT,
            tenths_floor(n as nat, (-k) as nat) == tenths_floor(acc as nat, (-j) as nat),
        decreases -j,
    {
        acc = acc / 10;
        j += 1;
    }
    acc
}

/// Reads a text as a number.
pub fn read_number(text: &str) -> (r: Option<Reading>)
    ensures
        match r {
            Some(x) => number_of(text@) == Some(x@),
            None => number_of(text@) is None,
        },
{
    let s = chars_of(text);
    read_number_chars(&s)
}

/// Reads the word after the sign as an infinity or as not a number.
pub fn read_special(negative: bool, word: &Vec<char>) -> (r: Option<Reading>)
    ensures
        match r {
            Some(x) => special(negative, ascii_lowered(word@)) == Some(x@),
            None => special(negative, ascii_lowered(word@)) is None,
        },
{
    let lowered = to_ascii_lower(word);
    let inf = chars_of("inf");
    let infinity = chars_of("infinity");
    let nan = chars_of("nan");
    if same_chars(&lowered, &inf) || same_chars(&lowered, &infinity) {
        Some(Reading::Infinite { negative })
    } else if same_chars(&lowered, &nan) {
        Some(Reading::Nan)
    } else {
        None
    }
}

/// Reads the exponent that stands at position `d`.
pub fn read_exponent(s: &Vec<char>, d: usize) -> (r: Option<Option<i128>>)
    requires
        d <= s.len(),
    ensures
        match r {
            Some(Some(e)) => exponent(s@, d as int) == Some(Some(e as int)) && -EXPONENT_LIMIT < e
                < EXPONENT_LIMIT,
            Some(None) => exponent(s@, d as int) == Some(None::<int>),
            None => exponent(s@, d as int) is None,
        },
{
    let n = s.len();
    if d == n {
        return Some(Some(0));
    }
    if !(s[d] == 'e' || s[d] == 'E') {
        return None;
    }
    let sign: usize = if d + 1 < n && (s[d + 1] == '+' || s[d + 1] == '-') { 1 } else { 0 };
    let x: usize = d + 1 + sign;
    let y = scan_digits(s, x);
    if y != n || y == x {
        return None;
    }
    match read_digits(s, x, y, EXPONENT_LIMIT) {
        Some(e) => {
            if sign == 1 && s[d + 1] == '-' {
                Some(Some(-(e as i128)))
            } else {
                Some(Some(e as i128))
            }
        },
        None => Some(None),
    }
}

/// Reads the numeral that stands from position `a`, with the sign that
/// stands before it.
pub fn read_numeral(s: &Vec<char>, a: usize, negative: bool) -> (r: Option<Reading>)
    requires
        a <= s.len(),
    ensures
        match r {
            Some(x) => numeral(s@, a as int) matches Some(n) && x@ == signed(negative, n),
            None => numeral(s@, a as int) is None,
        },
{
    let n = s.len();
    let b = scan_digits(s, a);
    let c: usize = if b < n && s[b] == '.' { b + 1 } else { b };
    let d = scan_digits(s, c);
    if (b - a) + (d - c) == 0 {
        return None;
    }
    let e = match read_exponent(s, d) {
        None => { return None; },
        Some(None) => { return Some(Reading::Beyond); },
        Some(Some(e)) => e,
    };
    let ghost whole_digits = s@.subrange(a as int, b as int);
    let ghost fraction = s@.subrange(c as int, d as int);
    let digits: u128 = match read_digits(s, a, b, DIGITS_LIMIT) {
        Some(w) => match read_digits_onto(s, c, d, w, DIGITS_LIMIT) {
            Some(v) => v,
            None => { return Some(Reading::Beyond); },
        },
        None => {
            proof {
                lemma_digits_onto_least(digits_value(whole_digits), fraction);
            }
            return Some(Reading::Beyond);
        },
    };
    let k: i128 = 18 - ((d - c) as i128) + e;
    match shift(digits, k) {
        Some(m) => {
            let units: i128 = if negative { -(m as i128) } else { m as i128 };
            match Decimal::from_units(units) {
                Some(value) => Some(Reading::Finite(value)),
                None => Some(Reading::Beyond),
            }
        },
        None => if k >= 0 {
            Some(Reading::Huge { negative })
        } else {
            let m = shift_floor(digits, k);
            let units: i128 = if negative { -(m as i128) } else { m as i128 };
            match Decimal::from_units(units) {
                Some(nearer) => Some(Reading::Between { negative, nearer }),
                None => Some(Reading::Beyond),
            }
        },
    }
}

/// Reads the characters of a text as a number.
pub fn read_number_chars(s: &Vec<char>) -> (r: Option<Reading>)
    ensures
        match r {
            Some(x) => number_of(s@) == Some(x@),
            None => number_of(s@) is None,
        },
{
    let n = s.len();
    let a: usize = if n > 0 && (s[0] == '+' || s[0] == '-') { 1 } else { 0 };
    let negative = a == 1 && s[0] == '-';
    let rest = slice_of(s, a, n);
    assert(rest@ == s@.skip(a as int));
    match read_special(negative, &rest) {
        Some(x) => Some(x),
        None => read_numeral(s, a, negative),
    }
}

/// Whether floating-point numbers hold a decimal exactly.
pub fn is_exact(value: &Decimal) -> (r: bool)
    ensures
        r == exact(value@),
{
    let m: u128 = value.magnitude();
    if m % FINEST != 0 {
        return false;
    }
    let mut n: u128 = m / FINEST;
    while n > 0 && n % 2 == 0
        invariant
            odd_part(n as nat) == odd_part(magnitude(value@) / (FINEST as nat)),
        decreases n,
    {
        n = n / 2;
    }
    n < ODD_LIMIT
}

/// Whether a decimal is clear of the numbers of magnitude 10^18 or more of
/// one sign.
pub fn is_clear(negative: bool, value: &Decimal) -> (r: bool)
    ensures
        r == clear(negative, value@),
{
    value.magnitude() <= CLEAR_LIMIT || negative != (value.units() < 0)
}

/// Whether two decimals differ by more than one part in 2^51 of the larger.
pub fn is_far(x: &Decimal, y: &Decimal) -> (r: bool)
    ensures
        r == far(x@, y@),
{
    units_are_far(x.units(), y.units())
}

/// Whether two numbers of units differ by more than one part in 2^51 of the
/// larger.
fn units_are_far(x: i128, y: i128) -> (r: bool)
    requires
        -LIMIT <= x <= LIMIT,
        -LIMIT <= y <= LIMIT,
    ensures
        r == far(x as int, y as int),
{
    let p: u128 = if x < 0 { (-x) as u128 } else { x as u128 };
    let q: u128 = if y < 0 { (-y) as u128 } else { y as u128 };
    let most: u128 = if p >= q { p } else { q };
    let difference: i128 = x - y;
    let gap: u128 = if difference < 0 { (-difference) as u128 } else { difference as u128 };
    assert((gap * SPAN > most) == (gap > most / SPAN)) by (nonlinear_arith)
        requires
            SPAN == 2_251_799_813_685_248,
    ;
    gap > most / SPAN
}

/// Whether it is decided that a percentage is no greater than a number of
/// units.
pub fn is_decimal_decided(percentage: HashedPercentage, units: i128) -> (r: bool)
    ensures
        r == decimal_decided(percentage@, units as int),
{
    units < 0 || units >= 100 * UNIT || is_apart(percentage, units)
}

/// Whether a percentage and a number of units between nought and a hundred
/// are the same or apart.
fn is_apart(percentage: HashedPercentage, units: i128) -> (r: bool)
    requires
        0 <= units < 100 * UNIT,
    ensures
        r == apart(percentage@, units as int),
{
    let at: i128 = (percentage.position() as i128) * 100 * UNIT;
    assert(0 <= units * 9998 < 1_000_000_000_000_000_000_000_000) by (nonlinear_arith)
        requires
            0 <= units < 100 * UNIT,
            UNIT == 1_000_000_000_000_000_000,
    ;
    let gap: i128 = at - units * (LAST_POSITION as i128);
    let least: i128 = MARGIN * (LAST_POSITION as i128);
    gap == 0 || gap >= least || -gap >= least
}

/// The greatest decimal that is no greater than a reading, in units.
pub fn low_of(a: &Reading) -> (r: i128)
    ensures
        r == low(a@),
        -LIMIT <= r <= LIMIT,
{
    match a {
        Reading::Between { negative, nearer } => if *negative {
            nearer.units() - 1
        } else {
            nearer.units()
        },
        _ => rank_of(a),
    }
}

/// The least decimal that is no less than a reading, in units.
pub fn high_of(a: &Reading) -> (r: i128)
    ensures
        r == high(a@),
        -LIMIT <= r <= LIMIT,
{
    match a {
        Reading::Between { negative, nearer } => if *negative {
            nearer.units()
        } else {
            nearer.units() + 1
        },
        _ => rank_of(a),
    }
}

/// Whether one of two readings lies below the other with decimals between
/// them that are far from one another.
pub fn is_separated(a: &Reading, b: &Reading) -> (r: bool)
    ensures
        r == separated(a@, b@),
{
    (high_of(a) < low_of(b) && units_are_far(high_of(a), low_of(b))) || (high_of(b) < low_of(a)
        && units_are_far(high_of(b), low_of(a)))
}

/// Whether the units between which a reading lies are clear of the numbers
/// of magnitude 10^18 or more of one sign.
pub fn is_clear_of(negative: bool, a: &Reading) -> (r: bool)
    ensures
        r == (clear(negative, low(a@)) && clear(negative, high(a@))),
{
    let l = low_of(a);
    let h = high_of(a);
    let below: u128 = if l < 0 { (-l) as u128 } else { l as u128 };
    let above: u128 = if h < 0 { (-h) as u128 } else { h as u128 };
    (below <= CLEAR_LIMIT || negative != (l < 0)) && (above <= CLEAR_LIMIT || negative != (h < 0))
}

/// Whether the comparison of two numbers is decided.
pub fn is_comparison_decided(a: &Reading, b: &Reading) -> (r: bool)
    ensures
        r == comparison_decided(a@, b@),
{
    match (a, b) {
        (Reading::Nan, _) => true,
        (_, Reading::Nan) => true,
        (Reading::Beyond, _) => false,
        (_, Reading::Beyond) => false,
        (Reading::Finite(x), Reading::Finite(y)) => x.units() == y.units() || is_far(x, y) || (
        is_exact(x) && is_exact(y)),
        (Reading::Huge { negative: p }, Reading::Huge { negative: q }) => *p != *q,
        (Reading::Huge { negative: p }, Reading::Infinite { negative: q }) => *p != *q,
        (Reading::Infinite { negative: p }, Reading::Huge { negative: q }) => *p != *q,
        (Reading::Huge { negative: p }, Reading::Finite(y)) => is_clear(*p, y),
        (Reading::Finite(x), Reading::Huge { negative: q }) => is_clear(*q, x),
        (Reading::Huge { negative: p }, Reading::Between { .. }) => is_clear_of(*p, b),
        (Reading::Between { .. }, Reading::Huge { negative: q }) => is_clear_of(*q, a),
        (Reading::Between { .. }, Reading::Finite(_)) => is_separated(a, b),
        (Reading::Finite(_), Reading::Between { .. }) => is_separated(a, b),
        (Reading::Between { .. }, Reading::Between { .. }) => is_separated(a, b),
        _ => true,
    }
}

/// Whether a remainder is decided.
pub fn is_modulo_decided(t: &Reading, d: &Reading, r: &Reading) -> (decided: bool)
    ensures
        decided == modulo_decided(t@, d@, r@),
{
    let not_a_number = match (t, d, r) {
        (Reading::Nan, _, _) => true,
        (_, Reading::Nan, _) => true,
        (_, _, Reading::Nan) => true,
        _ => false,
    };
    let infinite = match (t, r) {
        (Reading::Infinite { .. }, _) => true,
        (_, Reading::Infinite { .. }) => true,
        _ => false,
    };
    let by_zero = match d {
        Reading::Finite(y) => y.units() == 0,
        _ => false,
    };
    let whole_numbers = match (t, r) {
        (Reading::Finite(x), Reading::Finite(z)) => is_exact(x) && is_exact(z) && match d {
            Reading::Infinite { .. } => true,
            Reading::Huge { .. } => true,
            Reading::Finite(y) => is_exact(y),
            _ => false,
        },
        _ => false,
    };
    not_a_number || infinite || by_zero || whole_numbers
}

/// Whether it is decided that a percentage is no greater than a threshold.
pub fn is_threshold_decided(percentage: HashedPercentage, t: &Reading) -> (r: bool)
    ensures
        r == threshold_decided(percentage@, t@),
{
    match t {
        Reading::Nan => true,
        Reading::Infinite { .. } => true,
        Reading::Huge { .. } => true,
        Reading::Finite(u) => is_decimal_decided(percentage, u.units()),
        Reading::Between { .. } => is_decimal_decided(percentage, low_of(t)) && is_decimal_decided(
            percentage,
            high_of(t),
        ) && percentage.at_most_units(low_of(t)) == percentage.at_most_units(high_of(t)),
        Reading::Beyond => false,
    }
}

/// A percentage that is no greater than a decimal is no greater than any
/// greater decimal, decided or not.
pub proof fn thresholds_are_monotone(position: nat, x: int, y: int)
    requires
        x <= y,
    ensures
        threshold_of(position, Number::Finite(x)) ==> threshold_of(position, Number::Finite(y)),
{
    assert(x * LAST_POSITION <= y * LAST_POSITION) by (nonlinear_arith)
        requires
            x <= y,
            LAST_POSITION == 9998,
    ;
}

/// A threshold with at most one digit after the point is the percentage of a
/// position or apart from it.
pub proof fn tenths_are_apart(position: nat, tenths: int)
    requires
        position <= LAST_POSITION,
    ensures
        apart(position, tenths * (UNIT / 10)),
{
    let gap = position * 100 * UNIT - tenths * (UNIT / 10) * LAST_POSITION;
    let steps = position * 500 - tenths * 4999;
    let least = MARGIN * LAST_POSITION;
    assert(gap == steps * 200_000_000_000_000_000 && least == 199_960_000_000_000_000)
        by (nonlinear_arith)
        requires
            gap == position * 100 * UNIT - tenths * (UNIT / 10) * LAST_POSITION,
            steps == position * 500 - tenths * 4999,
            least == MARGIN * LAST_POSITION,
            UNIT == 1_000_000_000_000_000_000,
            LAST_POSITION == 9998,
            MARGIN == 20_000_000_000_000,
    ;
    if steps >= 1 {
        assert(gap >= least);
    } else if steps <= -1 {
        assert(-gap >= least);
    } else {
        assert(gap == 0);
    }
}

/// Where a reading stands among the numbers.
pub fn rank_of(a: &Reading) -> (r: i128)
    ensures
        r == rank(a@),
        -LIMIT <= r <= LIMIT,
{
    match a {
        Reading::Infinite { negative } => if *negative { -LIMIT } else { LIMIT },
        Reading::Huge { negative } => if *negative { -LIMIT } else { LIMIT },
        Reading::Finite(x) => x.units(),
        Reading::Between { nearer, .. } => nearer.units(),
        _ => 0,
    }
}

/// What the comparison of two numbers comes to.
pub fn compare_readings(operator: &ConditionOperator, a: &Reading, b: &Reading) -> (r: bool)
    ensures
        r == comparison_of(*operator, a@, b@),
{
    let unequal = match operator {
        ConditionOperator::NotEqual => true,
        _ => false,
    };
    let ordered = match (a, b) {
        (Reading::Nan, _) => false,
        (_, Reading::Nan) => false,
        (Reading::Beyond, _) => false,
        (_, Reading::Beyond) => false,
        (Reading::Huge { negative: p }, Reading::Huge { negative: q }) => *p != *q,
        (Reading::Huge { negative: p }, Reading::Infinite { negative: q }) => *p != *q,
        (Reading::Infinite { negative: p }, Reading::Huge { negative: q }) => *p != *q,
        _ => true,
    };
    if ordered {
        dispatch_operator(operator, rank_of(a), rank_of(b))
    } else {
        unequal
    }
}

/// What the comparison of two texts as numbers comes to.
pub fn compare_number_chars(operator: &ConditionOperator, a: &Vec<char>, b: &Vec<char>) -> (r:
    Option<bool>)
    ensures
        r == texts_compared(*operator, a@, b@),
{
    match (read_number_chars(a), read_number_chars(b)) {
        (Some(x), Some(y)) => {
            let number = match x {
                Reading::Nan => false,
                _ => true,
            };
            if number && same_chars(a, b) {
                Some(dispatch_operator(operator, 0, 0))
            } else {
                Some(compare_readings(operator, &x, &y))
            }
        },
        _ => None,
    }
}

/// What the comparison of two texts as numbers comes to.
pub fn compare_numbers(operator: &ConditionOperator, a: &str, b: &str) -> (r: Option<bool>)
    ensures
        r == texts_compared(*operator, a@, b@),
{
    let left = chars_of(a);
    let right = chars_of(b);
    compare_number_chars(operator, &left, &right)
}

/// Whether `t` leaves `r`, to within 10^-10, when divided by `d`.
pub fn modulo_holds(t: &Reading, d: &Reading, r: &Reading) -> (holds: bool)
    ensures
        holds == modulo_of(t@, d@, r@),
{
    let decided = is_modulo_decided(t, d, r);
    match (t, r) {
        (Reading::Finite(x), Reading::Finite(z)) => {
            let left_over: i128 = match d {
                Reading::Finite(y) => match x.rem(y) {
                    Some(rest) => rest.units(),
                    None => { return false; },
                },
                Reading::Infinite { .. } => x.units(),
                Reading::Huge { .. } => x.units(),
                _ => { return false; },
            };
            let distance: i128 = left_over - z.units();
            if decided {
                distance == 0
            } else {
                -TOLERANCE < distance && distance < TOLERANCE
            }
        },
        _ => false,
    }
}

/// Whether a percentage is no greater than a threshold.
pub fn percentage_reaches(percentage: HashedPercentage, t: &Reading) -> (r: bool)
    ensures
        r == threshold_of(percentage@, t@),
{
    match t {
        Reading::Infinite { negative } => !*negative,
        Reading::Huge { negative } => !*negative,
        Reading::Finite(u) => percentage.at_most(u),
        Reading::Between { .. } => percentage.at_most_units(low_of(t)),
        _ => false,
    }
}

} // verus!
