//! Volume-weighted average price of order fills.

use vstd::prelude::*;
use rust_decimal::Decimal;
use crate::decimal::{Dec, pow10, parse_decimal, parsed_decimal, MAX_MANTISSA, lemma_pow10_28};
use crate::ranges::dec_of;
use crate::text::chars_of;

verus! {

/// What rust_decimal's division returns, as mantissa and scale, for two
/// decimals given by mantissa and scale.
pub uninterp spec fn decimal_quotient(a: (int, int), b: (int, int)) -> (int, int);

/// Relies on rust_decimal's `Div for Decimal`: the quotient rounded to what a
/// decimal can hold. With a divisor of at least one it cannot overflow.
#[verifier::external_body]
fn decimal_div(a: Dec, b: Dec) -> (r: Dec)
    requires
        a.wf(),
        b.wf(),
        a.units() >= 0,
        b.units() >= pow10(28),
    ensures
        r.wf(),
        (r.mantissa as int, r.scale as int) == decimal_quotient((a.mantissa as int, a.scale as int), (b.mantissa as int, b.scale as int)),
{
    let q = Decimal::from_i128_with_scale(a.mantissa, a.scale) / Decimal::from_i128_with_scale(b.mantissa, b.scale);
    Dec { mantissa: q.mantissa(), scale: q.scale() }
}

/// One order fill: the amount the maker gave and the amount the taker paid.
#[derive(Debug, Clone, Copy)]
pub struct Fill {
    pub maker_fill_amount: Dec,
    pub taker_fill_amount: Dec,
}

/// A decimal read from text; unreadable text counts as zero.
pub open spec fn amount_of(s: Seq<char>) -> Dec {
    match parsed_decimal(s) {
        Some(p) => dec_of(p),
        None => Dec { mantissa: 0, scale: 0 },
    }
}

/// A whole, non-negative amount.
pub open spec fn whole_amount(d: Dec) -> bool {
    d.wf() && d.scale == 0 && d.mantissa >= 0
}

/// Total maker amount of the first `k` fills with a non-zero maker amount.
pub open spec fn volume(fills: Seq<Fill>, k: int) -> int
    decreases k,
{
    if k <= 0 {
        0
    } else if fills[k - 1].maker_fill_amount.mantissa == 0 {
        volume(fills, k - 1)
    } else {
        volume(fills, k - 1) + fills[k - 1].maker_fill_amount.mantissa
    }
}

/// Total taker amount of the first `k` fills with a non-zero maker amount.
pub open spec fn cost(fills: Seq<Fill>, k: int) -> int
    decreases k,
{
    if k <= 0 {
        0
    } else if fills[k - 1].maker_fill_amount.mantissa == 0 {
        cost(fills, k - 1)
    } else {
        cost(fills, k - 1) + fills[k - 1].taker_fill_amount.mantissa
    }
}

/// Whole amounts whose totals fit in a decimal.
pub open spec fn fills_fit(fills: Seq<Fill>) -> bool {
    &&& forall|i: int| 0 <= i < fills.len() ==> whole_amount(#[trigger] fills[i].maker_fill_amount)
    &&& forall|i: int| 0 <= i < fills.len() ==> whole_amount(#[trigger] fills[i].taker_fill_amount)
    &&& volume(fills, fills.len() as int) <= MAX_MANTISSA
    &&& cost(fills, fills.len() as int) <= MAX_MANTISSA
}

/// Total cost over total volume; zero without volume.
pub open spec fn vwap_of(fills: Seq<Fill>) -> Dec {
    let v = volume(fills, fills.len() as int);
    let c = cost(fills, fills.len() as int);
    if v == 0 {
        Dec { mantissa: 0, scale: 0 }
    } else {
        dec_of(decimal_quotient((c, 0), (v, 0)))
    }
}

proof fn lemma_totals_nonneg(fills: Seq<Fill>, n: int)
    requires
        0 <= n <= fills.len(),
        forall|i: int| 0 <= i < fills.len() ==> whole_amount(#[trigger] fills[i].maker_fill_amount),
        forall|i: int| 0 <= i < fills.len() ==> whole_amount(#[trigger] fills[i].taker_fill_amount),
    ensures
        0 <= volume(fills, n),
        0 <= cost(fills, n),
    decreases n,
{
    if n > 0 {
        lemma_totals_nonneg(fills, n - 1);
        assert(whole_amount(fills[n - 1].maker_fill_amount));
        assert(whole_amount(fills[n - 1].taker_fill_amount));
    }
}

proof fn lemma_totals_grow(fills: Seq<Fill>, k: int, n: int)
    requires
        0 <= k <= n <= fills.len(),
        forall|i: int| 0 <= i < fills.len() ==> whole_amount(#[trigger] fills[i].maker_fill_amount),
        forall|i: int| 0 <= i < fills.len() ==> whole_amount(#[trigger] fills[i].taker_fill_amount),
    ensures
        0 <= volume(fills, k) <= volume(fills, n),
        0 <= cost(fills, k) <= cost(fills, n),
    decreases n - k,
{
    lemma_totals_nonneg(fills, k);
    if k < n {
        lemma_totals_grow(fills, k, n - 1);
        assert(whole_amount(fills[n - 1].maker_fill_amount));
        assert(whole_amount(fills[n - 1].taker_fill_amount));
    }
}

impl Fill {
    /// The fill with the amounts these texts spell; an unreadable amount is zero.
    pub fn from_texts(maker: &str, taker: &str) -> (r: Fill)
        ensures
            r.maker_fill_amount == amount_of(maker@),
            r.taker_fill_amount == amount_of(taker@),
    {
        let m = match parse_decimal(&chars_of(maker)) {
            Some(d) => d,
            None => Dec::zero(),
        };
        let t = match parse_decimal(&chars_of(taker)) {
            Some(d) => d,
            None => Dec::zero(),
        };
        Fill { maker_fill_amount: m, taker_fill_amount: t }
    }
}

pub struct VwapCalculator;

impl VwapCalculator {
    /// Whether the fills hold whole amounts whose totals fit in a decimal.
    pub fn fills_fit_exec(fills: &[Fill]) -> (r: bool)
        ensures
            r == fills_fit(fills@),
    {
        let n = fills.len();
        let mut i: usize = 0;
        while i < n
            invariant
                i <= n == fills@.len(),
                forall|q: int| 0 <= q < i ==> whole_amount(#[trigger] fills@[q].maker_fill_amount),
                forall|q: int| 0 <= q < i ==> whole_amount(#[trigger] fills@[q].taker_fill_amount),
            decreases n - i,
        {
            let f = fills[i];
            if !(f.maker_fill_amount.is_valid() && f.maker_fill_amount.scale == 0 && f.maker_fill_amount.mantissa >= 0
                && f.taker_fill_amount.is_valid() && f.taker_fill_amount.scale == 0 && f.taker_fill_amount.mantissa >= 0) {
                return false;
            }
            assert(whole_amount(fills@[i as int].maker_fill_amount));
            assert(whole_amount(fills@[i as int].taker_fill_amount));
            i = i + 1;
        }
        let mut v: i128 = 0;
        let mut c: i128 = 0;
        let mut k: usize = 0;
        while k < n
            invariant
                k <= n == fills@.len(),
                forall|q: int| 0 <= q < n ==> whole_amount(#[trigger] fills@[q].maker_fill_amount),
                forall|q: int| 0 <= q < n ==> whole_amount(#[trigger] fills@[q].taker_fill_amount),
                v == volume(fills@, k as int),
                c == cost(fills@, k as int),
                0 <= v <= MAX_MANTISSA,
                0 <= c <= MAX_MANTISSA,
            decreases n - k,
        {
            proof {
                lemma_totals_grow(fills@, k as int + 1, n as int);
            }
            let f = fills[k];
            assert(whole_amount(fills@[k as int].maker_fill_amount));
            if f.maker_fill_amount.mantissa != 0 {
                v = v + f.maker_fill_amount.mantissa;
                c = c + f.taker_fill_amount.mantissa;
                if v > MAX_MANTISSA || c > MAX_MANTISSA {
                    return false;
                }
            }
            k = k + 1;
        }
        true
    }

    /// Total taker amount over total maker amount of the fills with a
    /// non-zero maker amount; zero when there are none.
    pub fn calculate_vwap(fills: &[Fill]) -> (r: Dec)
        requires
            fills_fit(fills@),
        ensures
            r.wf(),
            r == vwap_of(fills@),
    {
        let n = fills.len();
        let mut total_vol = Dec::zero();
        let mut total_cost = Dec::zero();
        let mut k: usize = 0;
        proof {
            lemma_pow10_28();
            lemma_totals_grow(fills@, 0, n as int);
        }
        while k < n
            invariant
                k <= n == fills@.len(),
                fills_fit(fills@),
                pow10(28) == 10000000000000000000000000000,
                whole_amount(total_vol),
                whole_amount(total_cost),
                total_vol.mantissa == volume(fills@, k as int),
                total_cost.mantissa == cost(fills@, k as int),
            decreases n - k,
        {
            proof {
                lemma_totals_grow(fills@, k as int + 1, n as int);
            }
            let f = fills[k];
            assert(whole_amount(fills@[k as int].maker_fill_amount));
            if f.maker_fill_amount.mantissa != 0 {
                let ghost nv = total_vol.mantissa + f.maker_fill_amount.mantissa;
                let ghost nc = total_cost.mantissa + f.taker_fill_amount.mantissa;
                assert(total_vol.units() + f.maker_fill_amount.units() == nv * pow10(28));
                assert(total_cost.units() + f.taker_fill_amount.units() == nc * pow10(28));
                assert(nv * pow10(28) <= (MAX_MANTISSA as int) * pow10(28)) by (nonlinear_arith)
                    requires nv <= MAX_MANTISSA, pow10(28) >= 1;
                assert(nc * pow10(28) <= (MAX_MANTISSA as int) * pow10(28)) by (nonlinear_arith)
                    requires nc <= MAX_MANTISSA, pow10(28) >= 1;
                assert(nv * pow10(28) >= 0 && nc * pow10(28) >= 0) by (nonlinear_arith)
                    requires nv >= 0, nc >= 0, pow10(28) >= 1;
                total_vol = total_vol.add(f.maker_fill_amount);
                total_cost = total_cost.add(f.taker_fill_amount);
                assert(total_vol.scale == 0);
                assert(total_vol.mantissa == nv) by (nonlinear_arith)
                    requires total_vol.mantissa * pow10(28) == nv * pow10(28), pow10(28) >= 1;
                assert(total_cost.mantissa == nc) by (nonlinear_arith)
                    requires total_cost.mantissa * pow10(28) == nc * pow10(28), pow10(28) >= 1;
            }
            k = k + 1;
        }
        if total_vol.mantissa == 0 {
            Dec::zero()
        } else {
            assert(total_vol.units() >= pow10(28)) by (nonlinear_arith)
                requires total_vol.units() == total_vol.mantissa * pow10(28), total_vol.mantissa >= 1, pow10(28) >= 1;
            assert(total_cost.units() >= 0) by (nonlinear_arith)
                requires total_cost.units() == total_cost.mantissa * pow10(28), total_cost.mantissa >= 0, pow10(28) >= 1;
            decimal_div(total_cost, total_vol)
        }
    }
}

} // verus!
