//! Exact decimal numbers.
//!
//! Weights and priorities are decimal fixed-point values: a whole number of
//! units of 10^-18, of magnitude below 10^18. Arithmetic on them is integer
//! arithmetic on the units and is exact. How the texts of segment conditions
//! are read as numbers, with exponents and infinities, is the matter of the
//! module `numbers`.

use vstd::prelude::*;
use vstd::string::*;
use crate::text::{chars_of, text_of};

verus! {

/// The number of units in one: 10^18.
pub const UNIT: i128 = 1_000_000_000_000_000_000;

/// The bound on the magnitude of a decimal, in units: 10^36.
pub const LIMIT: i128 = 1_000_000_000_000_000_000_000_000_000_000_000_000;

/// Whether a character is a decimal digit.
pub open spec fn is_digit(c: char) -> bool {
    '0' <= c && c <= '9'
}

/// The value of a digit character.
pub open spec fn digit_of(c: char) -> nat {
    (c as u32 - 48) as nat
}

/// The character of a digit value.
pub open spec fn digit_char(d: nat) -> char {
    ((48 + d) as u8) as char
}

/// The number that a run of digits denotes, most significant digit first.
pub open spec fn digits_value(s: Seq<char>) -> nat
    decreases s.len(),
{
    if s.len() == 0 {
        0
    } else {
        digits_value(s.drop_last()) * 10 + digit_of(s.last())
    }
}

/// The number of characters that a sign takes at the front of `s`.
pub open spec fn sign_len(s: Seq<char>) -> int {
    if s.len() > 0 && (s[0] == '+' || s[0] == '-') {
        1
    } else {
        0
    }
}

/// The end of the run of digits that starts at `from`.
pub open spec fn digit_run(s: Seq<char>, from: int) -> int
    decreases s.len() - from,
{
    if 0 <= from < s.len() && is_digit(s[from]) {
        digit_run(s, from + 1)
    } else {
        from
    }
}

/// The first eighteen digits of a fraction, as a number of units. Missing
/// digits count as zero.
pub open spec fn fraction_units(f: Seq<char>) -> nat {
    digits_value(Seq::new(18, |k: int| if k < f.len() { f[k] } else { '0' }))
}

/// A fraction loses nothing when cut to eighteen digits.
pub open spec fn fraction_exact(f: Seq<char>) -> bool {
    forall|k: int| 18 <= k < f.len() ==> f[k] == '0'
}

/// The decimal that `s` denotes, in units, if it denotes one.
///
/// A numeral is an optional sign, digits, and optionally a point followed by
/// digits; at least one digit must be present. It denotes a decimal when its
/// whole part is below 10^18 and its fraction has no non-zero digit beyond
/// the eighteenth.
pub open spec fn decimal_units(s: Seq<char>) -> Option<int> {
    let a = sign_len(s);
    let b = digit_run(s, a);
    let c = if b < s.len() && s[b] == '.' { b + 1 } else { b };
    let d = digit_run(s, c);
    let whole = digits_value(s.subrange(a, b));
    let fraction = s.subrange(c, d);
    if d == s.len() && (b - a) + (d - c) > 0 && whole < UNIT && fraction_exact(fraction) {
        let magnitude = whole * UNIT + fraction_units(fraction);
        if a == 1 && s[0] == '-' {
            Some(-magnitude)
        } else {
            Some(magnitude as int)
        }
    } else {
        None
    }
}

/// The signed whole number that `s` denotes, if it is an optional sign
/// followed by at least one digit.
pub open spec fn integer_value(s: Seq<char>) -> Option<int> {
    let a = sign_len(s);
    let b = digit_run(s, a);
    if b == s.len() && b > a {
        let magnitude = digits_value(s.subrange(a, b));
        if s[0] == '-' {
            Some(-magnitude)
        } else {
            Some(magnitude as int)
        }
    } else {
        None
    }
}

/// The 64-bit signed integer that `s` denotes, if any.
pub open spec fn i64_value(s: Seq<char>) -> Option<int> {
    match integer_value(s) {
        Some(v) if -0x8000_0000_0000_0000 <= v && v <= 0x7fff_ffff_ffff_ffff => Some(v),
        _ => None,
    }
}

/// The digits of `n`, most significant first, without leading zeros.
pub open spec fn nat_text(n: nat) -> Seq<char>
    decreases n,
{
    if n < 10 {
        seq![digit_char(n)]
    } else {
        nat_text(n / 10) + seq![digit_char(n % 10)]
    }
}

/// The digits of a fraction of `width` digits whose value is `f`, without
/// trailing zeros.
pub open spec fn fraction_text(f: nat, width: nat) -> Seq<char>
    decreases width,
{
    if f == 0 || width == 0 {
        Seq::<char>::empty()
    } else {
        let unit = pow10((width - 1) as nat);
        seq![digit_char(f / unit)] + fraction_text(f % unit, (width - 1) as nat)
    }
}

/// Ten to the power of `k`.
pub open spec fn pow10(k: nat) -> nat
    decreases k,
{
    if k == 0 {
        1
    } else {
        10 * pow10((k - 1) as nat)
    }
}

/// The size of a number, whatever its sign.
pub open spec fn magnitude(v: int) -> nat {
    if v < 0 {
        (-v) as nat
    } else {
        v as nat
    }
}

/// The shortest numeral of a decimal: a minus sign if it is negative, the
/// whole part, and the fraction, if it is not zero, after a point.
pub open spec fn decimal_text(units: int) -> Seq<char> {
    let m = magnitude(units);
    let sign = if units < 0 { seq!['-'] } else { Seq::<char>::empty() };
    let whole = nat_text(m / (UNIT as nat));
    let rest = m % (UNIT as nat);
    if rest == 0 {
        sign + whole
    } else {
        sign + whole + seq!['.'] + fraction_text(rest, 18)
    }
}

/// The remainder of `t` divided by `d` that has the sign of `t`.
pub open spec fn truncated_rem(t: int, d: int) -> int
    recommends
        d != 0,
{
    if t >= 0 {
        (t % (magnitude(d) as int))
    } else {
        -((-t) % (magnitude(d) as int))
    }
}

/// Ten to the power of eighteen is the number of units in one.
pub proof fn lemma_pow10_18()
    ensures
        pow10(18) == UNIT,
        pow10(17) == 100_000_000_000_000_000,
{
    reveal_with_fuel(pow10, 19);
}

/// A run of digits is worth no less than any of its prefixes.
pub proof fn lemma_digits_value_grows(s: Seq<char>, k: int)
    requires
        0 <= k <= s.len(),
    ensures
        digits_value(s.take(k)) <= digits_value(s),
    decreases s.len() - k,
{
    if k == s.len() {
        assert(s.take(k) == s);
    } else {
        assert(s.take(k + 1).drop_last() == s.take(k));
        lemma_digits_value_grows(s, k + 1);
    }
}

/// A decimal number with eighteen digits after the point.
#[derive(Clone, Copy, Debug, PartialEq, Eq, Structural)]
pub struct Decimal {
    units: i128,
}

impl View for Decimal {
    type V = int;

    /// The number of units of 10^-18 that make up this decimal.
    closed spec fn view(&self) -> int {
        self.units as int
    }
}

/// The value of a digit character.
pub fn digit(c: char) -> (d: u8)
    requires
        is_digit(c),
    ensures
        d == digit_of(c),
        d <= 9,
{
    ((c as u32) - 48) as u8
}

/// Whether a character is a decimal digit.
pub fn digit_test(c: char) -> (r: bool)
    ensures
        r == is_digit(c),
{
    '0' <= c && c <= '9'
}

/// The end of the run of digits that starts at `from`.
pub fn scan_digits(s: &Vec<char>, from: usize) -> (end: usize)
    requires
        from <= s.len(),
    ensures
        end == digit_run(s@, from as int),
        from <= end <= s.len(),
        forall|k: int| from <= k < end ==> is_digit(#[trigger] s@[k]),
{
    let mut i: usize = from;
    while i < s.len() && digit_test(s[i])
        invariant
            from <= i <= s.len(),
            digit_run(s@, from as int) == digit_run(s@, i as int),
            forall|k: int| from <= k < i ==> is_digit(#[trigger] s@[k]),
        decreases s.len() - i,
    {
        i += 1;
    }
    i
}

/// The value of the digits `s[from..to]`, if it is below `bound`.
pub fn read_digits(s: &Vec<char>, from: usize, to: usize, bound: u128) -> (r: Option<u128>)
    requires
        from <= to <= s.len(),
        forall|k: int| from <= k < to ==> is_digit(#[trigger] s@[k]),
        bound <= 0x1000_0000_0000_0000_0000_0000_0000_0000,
    ensures
        match r {
            Some(v) => v == digits_value(s@.subrange(from as int, to as int)) && v < bound,
            None => digits_value(s@.subrange(from as int, to as int)) >= bound,
        },
{
    let ghost all = s@.subrange(from as int, to as int);
    let mut acc: u128 = 0;
    let mut i: usize = from;
    if bound == 0 {
        return None;
    }
    assert(all.take(0) == Seq::<char>::empty());
    while i < to
        invariant
            from <= i <= to <= s.len(),
            all == s@.subrange(from as int, to as int),
            forall|k: int| from <= k < to ==> is_digit(#[trigger] s@[k]),
            acc == digits_value(all.take(i - from)),
            acc < bound,
            bound <= 0x1000_0000_0000_0000_0000_0000_0000_0000,
        decreases to - i,
    {
        let d = digit(s[i]);
        assert(all.take(i - from + 1).drop_last() == all.take(i - from));
        assert(all.take(i - from + 1).last() == s@[i as int]);
        let next: u128 = acc * 10 + (d as u128);
        if next >= bound {
            proof {
                lemma_digits_value_grows(all, i - from + 1);
            }
            return None;
        }
        acc = next;
        i += 1;
    }
    assert(all.take(to - from) == all);
    Some(acc)
}

impl Decimal {
    #[verifier::type_invariant]
    spec fn in_range(self) -> bool {
        -LIMIT < self.units && self.units < LIMIT
    }

    /// The decimal zero.
    pub fn zero() -> (r: Decimal)
        ensures
            r@ == 0,
    {
        Decimal { units: 0 }
    }

    /// The decimal of a whole number of units of 10^-18, if it is within
    /// bounds.
    pub fn from_units(units: i128) -> (r: Option<Decimal>)
        ensures
            match r {
                Some(d) => d@ == units && -LIMIT < units < LIMIT,
                None => !(-LIMIT < units < LIMIT),
            },
    {
        if -LIMIT < units && units < LIMIT {
            Some(Decimal { units })
        } else {
            None
        }
    }

    /// The decimal of a whole number.
    pub fn from_integer(n: i32) -> (r: Decimal)
        ensures
            r@ == n * UNIT,
    {
        Decimal { units: (n as i128) * UNIT }
    }

    /// The decimal of a whole number that is not negative.
    pub fn from_whole(n: u32) -> (r: Decimal)
        ensures
            r@ == n * UNIT,
    {
        Decimal { units: (n as i128) * UNIT }
    }

    /// The number of units of 10^-18 that make up this decimal.
    pub fn units(&self) -> (r: i128)
        ensures
            r == self@,
            -LIMIT < r < LIMIT,
    {
        proof {
            use_type_invariant(self);
        }
        self.units
    }

    /// Reads a numeral.
    pub fn parse(text: &str) -> (r: Option<Decimal>)
        ensures
            match r {
                Some(d) => decimal_units(text@) == Some(d@),
                None => decimal_units(text@) is None,
            },
    {
        let s = chars_of(text);
        Decimal::parse_chars(&s)
    }

    /// Reads a numeral from its characters.
    pub fn parse_chars(s: &Vec<char>) -> (r: Option<Decimal>)
        ensures
            match r {
                Some(d) => decimal_units(s@) == Some(d@),
                None => decimal_units(s@) is None,
            },
    {
        let n = s.len();
        let a: usize = if n > 0 && (s[0] == '+' || s[0] == '-') { 1 } else { 0 };
        let b = scan_digits(s, a);
        let c: usize = if b < n && s[b] == '.' { b + 1 } else { b };
        let d = scan_digits(s, c);
        if d != n || (b - a) + (d - c) == 0 {
            return None;
        }
        let whole = match read_digits(s, a, b, UNIT as u128) {
            Some(w) => w,
            None => { return None; },
        };
        let ghost f = s@.subrange(c as int, d as int);
        let ghost padded = Seq::new(18, |k: int| if k < f.len() { f[k] } else { '0' });
        let mut acc: u128 = 0;
        let mut k: usize = 0;
        assert(padded.take(0) == Seq::<char>::empty());
        proof {
            lemma_pow10_18();
            lemma_pow10_grows(0, 18);
        }
        while k < 18
            invariant
                k <= 18,
                c <= d <= s.len(),
                f == s@.subrange(c as int, d as int),
                padded == Seq::new(18, |k: int| if k < f.len() { f[k] } else { '0' }),
                forall|j: int| c <= j < d ==> is_digit(#[trigger] s@[j]),
                acc == digits_value(padded.take(k as int)),
                acc < pow10(k as nat),
                pow10(k as nat) <= pow10(18),
                pow10(18) == UNIT,
            decreases 18 - k,
        {
            let digit_here: u8 = if k < d - c { digit(s[c + k]) } else { 0 };
            assert(padded.take(k + 1).drop_last() == padded.take(k as int));
            assert(digit_of(padded.take(k + 1).last()) == digit_here);
            proof {
                lemma_pow10_18();
                lemma_pow10_grows((k + 1) as nat, 18);
            }
            acc = acc * 10 + (digit_here as u128);
            k += 1;
        }
        assert(padded.take(18) == padded);
        assert(!fraction_exact(f) ==> decimal_units(s@) is None);
        if d - c > 18 {
            let mut j: usize = c + 18;
            while j < d
                invariant
                    c + 18 <= j <= d <= s.len(),
                    f == s@.subrange(c as int, d as int),
                    !fraction_exact(f) ==> decimal_units(s@) is None,
                    forall|i: int| 18 <= i < j - c ==> f[i] == '0',
                decreases d - j,
            {
                if s[j] != '0' {
                    assert(f[j - c] != '0');
                    assert(!fraction_exact(f));
                    return None;
                }
                j += 1;
            }
        }
        assert(fraction_exact(f));
        proof {
            lemma_pow10_18();
            assert(whole * UNIT + acc < LIMIT) by (nonlinear_arith)
                requires
                    whole < UNIT,
                    acc < UNIT,
                    UNIT == 1_000_000_000_000_000_000,
                    LIMIT == 1_000_000_000_000_000_000_000_000_000_000_000_000,
            ;
            assert(whole * UNIT + acc >= 0) by (nonlinear_arith)
                requires
                    whole >= 0,
                    acc >= 0,
                    UNIT == 1_000_000_000_000_000_000,
            ;
        }
        let total: i128 = ((whole * (UNIT as u128)) + acc) as i128;
        if a == 1 && s[0] == '-' {
            Some(Decimal { units: -total })
        } else {
            Some(Decimal { units: total })
        }
    }
}

/// Reads a 64-bit signed integer: an optional sign and at least one digit.
pub fn parse_i64(s: &Vec<char>) -> (r: Option<i64>)
    ensures
        match r {
            Some(v) => i64_value(s@) == Some(v as int),
            None => i64_value(s@) is None,
        },
{
    let n = s.len();
    let a: usize = if n > 0 && (s[0] == '+' || s[0] == '-') { 1 } else { 0 };
    let b = scan_digits(s, a);
    if b != n || b == a {
        return None;
    }
    match read_digits(s, a, b, 0x8000_0000_0000_0001) {
        None => None,
        Some(m) => {
            if s[0] == '-' {
                Some((-(m as i128)) as i64)
            } else if m <= 0x7fff_ffff_ffff_ffff {
                Some(m as i64)
            } else {
                None
            }
        },
    }
}

/// The character of a digit value.
pub fn digit_to_char(d: u8) -> (c: char)
    requires
        d <= 9,
    ensures
        c == digit_char(d as nat),
{
    (48 + d) as char
}

/// Appends the digits of `n` to `out`.
pub fn push_nat(out: &mut Vec<char>, n: u128)
    ensures
        final(out)@ == old(out)@ + nat_text(n as nat),
    decreases n,
{
    if n >= 10 {
        push_nat(out, n / 10);
    }
    out.push(digit_to_char((n % 10) as u8));
}

impl Decimal {
    /// The magnitude of this decimal, in units.
    pub fn magnitude(&self) -> (m: u128)
        ensures
            m == magnitude(self@),
            m < LIMIT,
    {
        let u = self.units();
        if u < 0 {
            (-u) as u128
        } else {
            u as u128
        }
    }

    /// The remainder of this decimal divided by `divisor`, with the sign of
    /// this decimal; none when the divisor is zero.
    pub fn rem(&self, divisor: &Decimal) -> (r: Option<Decimal>)
        ensures
            match r {
                Some(d) => divisor@ != 0 && d@ == truncated_rem(self@, divisor@),
                None => divisor@ == 0,
            },
    {
        let d = divisor.magnitude();
        if d == 0 {
            return None;
        }
        let t = self.magnitude();
        let m: u128 = t % d;
        if self.units() < 0 {
            Some(Decimal { units: -(m as i128) })
        } else {
            Some(Decimal { units: m as i128 })
        }
    }

    /// Appends the shortest numeral of this decimal to `out`.
    pub fn push_text(&self, out: &mut Vec<char>)
        ensures
            final(out)@ == old(out)@ + decimal_text(self@),
    {
        let m = self.magnitude();
        if self.units() < 0 {
            out.push('-');
        }
        let ghost signed = out@;
        push_nat(out, m / (UNIT as u128));
        let rest: u128 = m % (UNIT as u128);
        if rest != 0 {
            out.push('.');
            let ghost base = out@;
            let ghost mut prefix = Seq::<char>::empty();
            let mut f: u128 = rest;
            let mut w: usize = 18;
            let mut unit: u128 = 100_000_000_000_000_000;
            proof {
                lemma_pow10_18();
                assert(base + prefix == base);
                assert(prefix + fraction_text(f as nat, 18) == fraction_text(rest as nat, 18));
            }
            while f != 0 && w > 0
                invariant
                    w <= 18,
                    f < pow10(w as nat),
                    w > 0 ==> unit == pow10((w - 1) as nat),
                    out@ == base + prefix,
                    prefix + fraction_text(f as nat, w as nat) == fraction_text(rest as nat, 18),
                decreases w,
            {
                assert(f / unit < 10) by (nonlinear_arith)
                    requires
                        f < 10 * unit,
                        unit > 0,
                ;
                let d: u8 = (f / unit) as u8;
                out.push(digit_to_char(d));
                proof {
                    let tail = fraction_text((f % unit) as nat, (w - 1) as nat);
                    assert(prefix.push(digit_char(d as nat)) + tail == prefix + (seq![
                        digit_char(d as nat),
                    ] + tail));
                    prefix = prefix.push(digit_char(d as nat));
                }
                f = f % unit;
                w -= 1;
                unit = unit / 10;
            }
            proof {
                assert(prefix + Seq::<char>::empty() == prefix);
                assert(base + prefix == signed + nat_text((m / (UNIT as u128)) as nat) + seq!['.']
                    + fraction_text(rest as nat, 18));
            }
        }
    }

    /// The shortest numeral of this decimal.
    pub fn to_text(&self) -> (r: String)
        ensures
            r@ == decimal_text(self@),
    {
        let mut out: Vec<char> = Vec::new();
        self.push_text(&mut out);
        text_of(&out)
    }
}


/// The digits of a number are digits, and denote the number.
pub proof fn lemma_nat_text(n: nat)
    ensures
        nat_text(n).len() >= 1,
        forall|i: int| 0 <= i < nat_text(n).len() ==> is_digit(#[trigger] nat_text(n)[i]),
        digits_value(nat_text(n)) == n,
    decreases n,
{
    let t = nat_text(n);
    if n >= 10 {
        lemma_nat_text(n / 10);
        let init = nat_text(n / 10);
        assert(t.drop_last() == init);
        assert(t.last() == digit_char(n % 10));
        assert forall|i: int| 0 <= i < t.len() implies is_digit(#[trigger] t[i]) by {
            if i < init.len() {
                assert(t[i] == init[i]);
            }
        }
    } else {
        assert(t.drop_last() == Seq::<char>::empty());
        assert(digits_value(t.drop_last()) == 0);
    }
}

/// A run of digits with one more digit in front.
pub proof fn lemma_digits_value_front(d: char, rest: Seq<char>)
    ensures
        digits_value(seq![d] + rest) == digit_of(d) * pow10(rest.len()) + digits_value(rest),
    decreases rest.len(),
{
    let all = seq![d] + rest;
    let front = digit_of(d);
    if rest.len() == 0 {
        assert(all.drop_last() == Seq::<char>::empty());
        assert(digits_value(all.drop_last()) == 0);
        assert(all.last() == d);
        assert(digits_value(all) == front);
        assert(pow10(0) == 1);
        assert(front * pow10(rest.len()) == front) by (nonlinear_arith)
            requires
                pow10(rest.len()) == 1,
        ;
    } else {
        let shorter = rest.drop_last();
        lemma_digits_value_front(d, shorter);
        assert(all.drop_last() == seq![d] + shorter);
        assert(all.last() == rest.last());
        let lower = pow10(shorter.len());
        assert(pow10(rest.len()) == 10 * lower);
        assert(front * pow10(rest.len()) == (front * lower) * 10) by (nonlinear_arith)
            requires
                pow10(rest.len()) == 10 * lower,
        ;
        assert(digits_value(all) == digits_value(all.drop_last()) * 10 + digit_of(rest.last()));
        assert(digits_value(rest) == digits_value(shorter) * 10 + digit_of(rest.last()));
        assert(digits_value(all.drop_last()) == front * lower + digits_value(shorter));
    }
}

/// The digits of `f`, followed by zeros up to `width` digits.
pub open spec fn padded(t: Seq<char>, width: nat) -> Seq<char> {
    Seq::new(width, |k: int| if k < t.len() { t[k] } else { '0' })
}

/// Zeros denote zero.
pub proof fn lemma_zeros(width: nat)
    ensures
        digits_value(padded(Seq::<char>::empty(), width)) == 0,
    decreases width,
{
    let z = padded(Seq::<char>::empty(), width);
    if width > 0 {
        lemma_zeros((width - 1) as nat);
        assert(z.drop_last() == padded(Seq::<char>::empty(), (width - 1) as nat));
    }
}

/// The digits of a fraction are digits, no more than the width, and denote
/// the fraction when zeros are put behind them.
pub proof fn lemma_fraction_text(f: nat, width: nat)
    requires
        f < pow10(width),
    ensures
        fraction_text(f, width).len() <= width,
        forall|i: int|
            0 <= i < fraction_text(f, width).len() ==> is_digit(
                #[trigger] fraction_text(f, width)[i],
            ),
        digits_value(padded(fraction_text(f, width), width)) == f,
        f != 0 ==> fraction_text(f, width).len() >= 1,
    decreases width,
{
    let t = fraction_text(f, width);
    if f == 0 || width == 0 {
        lemma_zeros(width);
    } else {
        let unit = pow10((width - 1) as nat);
        lemma_pow10_grows((width - 1) as nat, (width - 1) as nat);
        let d = f / unit;
        let rest = f % unit;
        assert(d < 10) by (nonlinear_arith)
            requires
                f < 10 * unit,
                unit > 0,
                d == f / unit,
        ;
        assert(f == d * unit + rest) by (nonlinear_arith)
            requires
                unit > 0,
                d == f / unit,
                rest == f % unit,
        ;
        lemma_fraction_text(rest, (width - 1) as nat);
        let tail = fraction_text(rest, (width - 1) as nat);
        assert(t == seq![digit_char(d)] + tail);
        assert forall|i: int| 0 <= i < t.len() implies is_digit(#[trigger] t[i]) by {
            if i > 0 {
                assert(t[i] == tail[i - 1]);
            }
        }
        let whole = padded(t, width);
        let inner = padded(tail, (width - 1) as nat);
        assert(whole =~= seq![digit_char(d)] + inner);
        lemma_digits_value_front(digit_char(d), inner);
    }
}

/// The end of a run of digits that is followed by something else, or by
/// nothing.
pub proof fn lemma_digit_run(s: Seq<char>, from: int, to: int)
    requires
        0 <= from <= to <= s.len(),
        forall|k: int| from <= k < to ==> is_digit(#[trigger] s[k]),
        to == s.len() || !is_digit(s[to]),
    ensures
        digit_run(s, from) == to,
    decreases to - from,
{
    if from < to {
        lemma_digit_run(s, from + 1, to);
    }
}

/// Reading the numeral that a decimal is written as gives the decimal back.
pub proof fn reading_what_was_written(units: int)
    requires
        -LIMIT < units < LIMIT,
    ensures
        decimal_units(decimal_text(units)) == Some(units),
{
    let m = magnitude(units);
    let whole = m / (UNIT as nat);
    let rest = m % (UNIT as nat);
    let sign = if units < 0 { seq!['-'] } else { Seq::<char>::empty() };
    let digits = nat_text(whole);
    let text = decimal_text(units);
    lemma_nat_text(whole);
    lemma_pow10_18();
    assert(whole < UNIT) by (nonlinear_arith)
        requires
            m < LIMIT,
            whole == m / (UNIT as nat),
            UNIT == 1_000_000_000_000_000_000,
            LIMIT == 1_000_000_000_000_000_000_000_000_000_000_000_000,
    ;
    assert(m == whole * UNIT + rest) by (nonlinear_arith)
        requires
            whole == m / (UNIT as nat),
            rest == m % (UNIT as nat),
            UNIT == 1_000_000_000_000_000_000,
    ;
    let a = sign.len() as int;
    let b = a + digits.len();
    assert(text.len() >= b);
    assert forall|k: int| a <= k < b implies is_digit(#[trigger] text[k]) by {
        assert(text[k] == digits[k - a]);
    }
    assert(text[0] == if units < 0 { '-' } else { digits[0] });
    assert(is_digit(digits[0]));
    assert(sign_len(text) == a);
    if rest == 0 {
        assert(text == sign + digits);
        assert(text.len() == b);
        lemma_digit_run(text, a, b);
        lemma_digit_run(text, b, b);
        assert(text.subrange(a, b) == digits);
        let fraction = text.subrange(b, b);
        assert(fraction == Seq::<char>::empty());
        lemma_zeros(18);
        assert(padded(fraction, 18) == Seq::new(
            18,
            |k: int| if k < fraction.len() { fraction[k] } else { '0' },
        ));
    } else {
        lemma_fraction_text(rest, 18);
        let t = fraction_text(rest, 18);
        assert(text == sign + digits + seq!['.'] + t);
        let c = b + 1;
        let d = c + t.len();
        assert(text.len() == d);
        assert(text[b] == '.');
        lemma_digit_run(text, a, b);
        assert forall|k: int| c <= k < d implies is_digit(#[trigger] text[k]) by {
            assert(text[k] == t[k - c]);
        }
        lemma_digit_run(text, c, d);
        assert(text.subrange(a, b) == digits);
        assert(text.subrange(c, d) == t);
        assert(fraction_exact(t));
        assert(padded(t, 18) == Seq::new(18, |k: int| if k < t.len() { t[k] } else { '0' }));
    }
}

/// Powers of ten are positive and grow with the exponent.
pub proof fn lemma_pow10_grows(a: nat, b: nat)
    requires
        a <= b,
    ensures
        pow10(a) <= pow10(b),
        pow10(a) >= 1,
    decreases b,
{
    if a < b {
        lemma_pow10_grows(a, (b - 1) as nat);
    } else if a > 0 {
        lemma_pow10_grows((a - 1) as nat, (a - 1) as nat);
    }
}

} // verus!
