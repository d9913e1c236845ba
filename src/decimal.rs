//! Exact decimal prices: a mantissa and a power-of-ten scale.
//!
//! A value is modelled as an integer count of `10^-28` units, the finest
//! scale a decimal can carry, so sums and differences are exact integers in
//! the contracts. The arithmetic itself is done by `rust_decimal`.

use vstd::prelude::*;
use rust_decimal::Decimal;
use std::cmp::Ordering;

verus! {

/// Largest magnitude of a mantissa: 96 bits.
pub const MAX_MANTISSA: i128 = 0xFFFF_FFFF_FFFF_FFFF_FFFF_FFFF;

/// Largest number of digits after the decimal point.
pub const MAX_SCALE: u32 = 28;

pub open spec fn pow10(n: nat) -> int
    decreases n,
{
    if n == 0 {
        1
    } else {
        10 * pow10((n - 1) as nat)
    }
}

pub proof fn lemma_pow10_positive(n: nat)
    ensures
        pow10(n) >= 1,
    decreases n,
{
    if n > 0 {
        lemma_pow10_positive((n - 1) as nat);
    }
}

pub proof fn lemma_pow10_monotone(a: nat, b: nat)
    requires
        a <= b,
    ensures
        pow10(a) <= pow10(b),
    decreases b,
{
    if a < b {
        lemma_pow10_monotone(a, (b - 1) as nat);
        lemma_pow10_positive((b - 1) as nat);
    }
}

pub proof fn lemma_pow10_add(a: nat, b: nat)
    ensures
        pow10(a + b) == pow10(a) * pow10(b),
    decreases a,
{
    if a > 0 {
        lemma_pow10_add((a - 1) as nat, b);
        assert(pow10(a + b) == 10 * pow10((a - 1 + b) as nat));
        assert(10 * (pow10((a - 1) as nat) * pow10(b)) == (10 * pow10((a - 1) as nat)) * pow10(b))
            by (nonlinear_arith);
    }
}

pub proof fn lemma_pow10_28()
    ensures
        pow10(26) == 100000000000000000000000000,
        pow10(28) == 10000000000000000000000000000,
{
    reveal_with_fuel(pow10, 29);
}

/// `10^n` for a scale `n`.
pub fn pow10_u128(n: u32) -> (r: u128)
    requires
        n <= MAX_SCALE,
    ensures
        r == pow10(n as nat),
{
    let mut r: u128 = 1;
    let mut k: u32 = 0;
    while k < n
        invariant
            k <= n <= MAX_SCALE,
            r == pow10(k as nat),
        decreases n - k,
    {
        proof {
            lemma_pow10_monotone((k + 1) as nat, 28);
            lemma_pow10_28();
        }
        r = r * 10;
        k = k + 1;
    }
    r
}

/// A decimal number `mantissa * 10^-scale`.
#[derive(Clone, Copy, Debug)]
pub struct Dec {
    pub mantissa: i128,
    pub scale: u32,
}

/// `a` and `b`, brought to the larger of their scales, and `total` all fit
/// in a 96-bit mantissa there.
pub open spec fn operands_fit(a: Dec, b: Dec, total: int) -> bool {
    let s = max_nat(a.scale as nat, b.scale as nat);
    &&& fits_at_scale(a.units(), s)
    &&& fits_at_scale(b.units(), s)
    &&& fits_at_scale(total, s)
}

/// `units` fits in a 96-bit mantissa at scale `scale`.
pub open spec fn fits_at_scale(units: int, scale: nat) -> bool {
    &&& scale <= 28
    &&& -(MAX_MANTISSA as int) * pow10((28 - scale) as nat) <= units
    &&& units <= (MAX_MANTISSA as int) * pow10((28 - scale) as nat)
}

pub open spec fn max_nat(a: nat, b: nat) -> nat {
    if a >= b {
        a
    } else {
        b
    }
}

impl Dec {
    pub open spec fn wf(self) -> bool {
        &&& self.scale <= MAX_SCALE
        &&& -MAX_MANTISSA <= self.mantissa <= MAX_MANTISSA
    }

    /// The value as a count of `10^-28` units.
    pub open spec fn units(self) -> int {
        self.mantissa * pow10((28 - self.scale) as nat)
    }

    /// The decimal `mantissa * 10^-scale`, if it is representable.
    pub fn new(mantissa: i128, scale: u32) -> (r: Option<Dec>)
        ensures
            r is Some <==> (scale <= MAX_SCALE && -MAX_MANTISSA <= mantissa <= MAX_MANTISSA),
            r matches Some(d) ==> d.mantissa == mantissa && d.scale == scale && d.wf(),
    {
        if scale <= MAX_SCALE && -MAX_MANTISSA <= mantissa && mantissa <= MAX_MANTISSA {
            Some(Dec { mantissa, scale })
        } else {
            None
        }
    }

    pub fn is_valid(self) -> (r: bool)
        ensures
            r == self.wf(),
    {
        self.scale <= MAX_SCALE && -MAX_MANTISSA <= self.mantissa && self.mantissa <= MAX_MANTISSA
    }

    pub fn zero() -> (r: Dec)
        ensures
            r.wf(),
            r.units() == 0,
            r.mantissa == 0 && r.scale == 0,
    {
        Dec { mantissa: 0, scale: 0 }
    }

    pub fn one() -> (r: Dec)
        ensures
            r.wf(),
            r.units() == pow10(28),
            r.mantissa == 1 && r.scale == 0,
    {
        Dec { mantissa: 1, scale: 0 }
    }

    /// Exact sum; the caller guarantees that it is representable.
    pub fn add(self, other: Dec) -> (r: Dec)
        requires
            self.wf(),
            other.wf(),
            operands_fit(self, other, self.units() + other.units()),
        ensures
            r.wf(),
            r.units() == self.units() + other.units(),
            r.scale <= max_nat(self.scale as nat, other.scale as nat),
    {
        decimal_add(self, other)
    }

    /// Exact difference; the caller guarantees that it is representable.
    pub fn sub(self, other: Dec) -> (r: Dec)
        requires
            self.wf(),
            other.wf(),
            operands_fit(self, other, self.units() - other.units()),
        ensures
            r.wf(),
            r.units() == self.units() - other.units(),
            r.scale <= max_nat(self.scale as nat, other.scale as nat),
    {
        decimal_sub(self, other)
    }

    pub fn lt(self, other: Dec) -> (r: bool)
        requires
            self.wf(),
            other.wf(),
        ensures
            r == (self.units() < other.units()),
    {
        match decimal_cmp(self, other) {
            Ordering::Less => true,
            _ => false,
        }
    }

    pub fn le(self, other: Dec) -> (r: bool)
        requires
            self.wf(),
            other.wf(),
        ensures
            r == (self.units() <= other.units()),
    {
        match decimal_cmp(self, other) {
            Ordering::Greater => false,
            _ => true,
        }
    }

    /// Numeric equality: `0.4` equals `0.40`.
    pub fn same_value(self, other: Dec) -> (r: bool)
        requires
            self.wf(),
            other.wf(),
        ensures
            r == (self.units() == other.units()),
    {
        match decimal_cmp(self, other) {
            Ordering::Equal => true,
            _ => false,
        }
    }
}

/// Numeric equality for decimals in range; others compare by their parts.
pub open spec fn dec_eq(a: Dec, b: Dec) -> bool {
    if a.wf() && b.wf() {
        a.units() == b.units()
    } else {
        a.mantissa == b.mantissa && a.scale == b.scale
    }
}

impl PartialEq for Dec {
    fn eq(&self, other: &Dec) -> (r: bool)
        ensures
            r == dec_eq(*self, *other),
    {
        if self.is_valid() && other.is_valid() {
            self.same_value(*other)
        } else {
            self.mantissa == other.mantissa && self.scale == other.scale
        }
    }
}

impl vstd::std_specs::cmp::PartialEqSpecImpl for Dec {
    open spec fn obeys_eq_spec() -> bool {
        false
    }

    open spec fn eq_spec(&self, other: &Dec) -> bool {
        dec_eq(*self, *other)
    }
}

/// Relies on rust_decimal's `Add for Decimal`: when both operands and the
/// exact sum fit in 96 bits at the larger of the two scales, the sum is exact
/// and kept at that scale at most (it rounds only on overflow).
#[verifier::external_body]
fn decimal_add(a: Dec, b: Dec) -> (r: Dec)
    requires
        a.wf(),
        b.wf(),
        operands_fit(a, b, a.units() + b.units()),
    ensures
        r.wf(),
        r.units() == a.units() + b.units(),
        r.scale <= max_nat(a.scale as nat, b.scale as nat),
{
    let s = Decimal::from_i128_with_scale(a.mantissa, a.scale) + Decimal::from_i128_with_scale(
        b.mantissa,
        b.scale,
    );
    Dec { mantissa: s.mantissa(), scale: s.scale() }
}

/// Relies on rust_decimal's `Sub for Decimal`, which shares the addition
/// routine: exact when both operands and the difference fit in 96 bits at
/// the larger scale.
#[verifier::external_body]
fn decimal_sub(a: Dec, b: Dec) -> (r: Dec)
    requires
        a.wf(),
        b.wf(),
        operands_fit(a, b, a.units() - b.units()),
    ensures
        r.wf(),
        r.units() == a.units() - b.units(),
        r.scale <= max_nat(a.scale as nat, b.scale as nat),
{
    let s = Decimal::from_i128_with_scale(a.mantissa, a.scale) - Decimal::from_i128_with_scale(
        b.mantissa,
        b.scale,
    );
    Dec { mantissa: s.mantissa(), scale: s.scale() }
}

/// Relies on rust_decimal's `Ord for Decimal`: numeric comparison.
#[verifier::external_body]
fn decimal_cmp(a: Dec, b: Dec) -> (r: Ordering)
    requires
        a.wf(),
        b.wf(),
    ensures
        (r == Ordering::Less) == (a.units() < b.units()),
        (r == Ordering::Equal) == (a.units() == b.units()),
        (r == Ordering::Greater) == (a.units() > b.units()),
{
    Decimal::from_i128_with_scale(a.mantissa, a.scale).cmp(
        &Decimal::from_i128_with_scale(b.mantissa, b.scale),
    )
}

/// What rust_decimal's `FromStr for Decimal` reads from a text: mantissa and scale.
pub uninterp spec fn parsed_decimal(s: Seq<char>) -> Option<(int, int)>;

pub open spec fn is_digit(c: char) -> bool {
    '0' <= c && c <= '9'
}

pub open spec fn has_point(s: Seq<char>) -> bool {
    exists|i: int| 0 <= i < s.len() && s[i] == '.'
}

/// Digits with at most one decimal point, starting with a digit.
pub open spec fn plain_numeral(s: Seq<char>) -> bool {
    &&& s.len() > 0
    &&& is_digit(s[0])
    &&& forall|i: int| 0 <= i < s.len() ==> is_digit(#[trigger] s[i]) || s[i] == '.'
    &&& forall|i: int, j: int| 0 <= i < s.len() && 0 <= j < s.len() && s[i] == '.' && s[j] == '.' ==> i == j
}

/// The integer that the digits of a numeral spell, the point ignored.
pub open spec fn digits_value(s: Seq<char>) -> int
    decreases s.len(),
{
    if s.len() == 0 {
        0
    } else if s.last() == '.' {
        digits_value(s.drop_last())
    } else {
        digits_value(s.drop_last()) * 10 + (s.last() as int - '0' as int)
    }
}

/// The number of digits after the decimal point.
pub open spec fn fraction_len(s: Seq<char>) -> int
    decreases s.len(),
{
    if s.len() == 0 || s.last() == '.' {
        0
    } else if has_point(s.drop_last()) {
        fraction_len(s.drop_last()) + 1
    } else {
        0
    }
}

/// Relies on rust_decimal's `FromStr for Decimal`. Every decimal it returns
/// is in range; a plain numeral whose digits fit in 96 bits, with at most 28
/// after the point, is read exactly.
#[verifier::external_body]
pub fn parse_decimal(v: &Vec<char>) -> (r: Option<Dec>)
    ensures
        r is Some <==> parsed_decimal(v@) is Some,
        r matches Some(d) ==> d.wf() && parsed_decimal(v@) == Some((d.mantissa as int, d.scale as int)),
        (plain_numeral(v@) && digits_value(v@) <= MAX_MANTISSA && fraction_len(v@) <= 28) ==> (r is Some
            && r->0.mantissa == digits_value(v@) && r->0.scale == fraction_len(v@)),
{
    let s: String = v.iter().collect();
    match s.parse::<Decimal>() {
        Ok(d) => Some(Dec { mantissa: d.mantissa(), scale: d.scale() }),
        Err(_) => None,
    }
}

} // verus!
