//! Numeric ranges in condition names: `A-B%`, `>A%` and `<A%`.
//!
//! The first form is searched first, then the second, then the third; each
//! search takes the leftmost place where the form occurs. A numeral is one or
//! more digits, optionally followed by a point and more digits. Spaces are
//! allowed around the hyphen; the percent sign is optional.

use vstd::prelude::*;
use crate::decimal::{Dec, parsed_decimal, parse_decimal, is_digit};
use crate::text::{whitespace_of, is_whitespace};

verus! {

/// The upper end of a range.
#[derive(Debug, Clone, Copy)]
pub enum Upper {
    Closed(Dec),
    Open(Dec),
    Unbounded,
}

/// The values from `low` (included) up to `high`.
#[derive(Debug, Clone, Copy)]
pub struct NumRange {
    pub low: Dec,
    pub high: Upper,
}

impl NumRange {
    pub open spec fn wf(self) -> bool {
        &&& self.low.wf()
        &&& match self.high {
            Upper::Closed(d) => d.wf(),
            Upper::Open(d) => d.wf(),
            Upper::Unbounded => true,
        }
    }
}

/// Every value below or at upper end `a` is below or at upper end `b`.
pub open spec fn upper_within(a: Upper, b: Upper) -> bool {
    match (a, b) {
        (_, Upper::Unbounded) => true,
        (Upper::Unbounded, _) => false,
        (Upper::Closed(x), Upper::Closed(y)) => x.units() <= y.units(),
        (Upper::Open(x), Upper::Open(y)) => x.units() <= y.units(),
        (Upper::Open(x), Upper::Closed(y)) => x.units() <= y.units(),
        (Upper::Closed(x), Upper::Open(y)) => x.units() < y.units(),
    }
}

pub open spec fn same_upper(a: Upper, b: Upper) -> bool {
    match (a, b) {
        (Upper::Unbounded, Upper::Unbounded) => true,
        (Upper::Closed(x), Upper::Closed(y)) => x.units() == y.units(),
        (Upper::Open(x), Upper::Open(y)) => x.units() == y.units(),
        _ => false,
    }
}

/// `a` lies within `b` and they differ.
pub open spec fn strictly_within(a: NumRange, b: NumRange) -> bool {
    &&& b.low.units() <= a.low.units()
    &&& upper_within(a.high, b.high)
    &&& !(a.low.units() == b.low.units() && same_upper(a.high, b.high))
}

pub fn upper_within_exec(a: Upper, b: Upper) -> (r: bool)
    requires
        (NumRange { low: Dec { mantissa: 0, scale: 0 }, high: a }).wf(),
        (NumRange { low: Dec { mantissa: 0, scale: 0 }, high: b }).wf(),
    ensures
        r == upper_within(a, b),
{
    match (a, b) {
        (_, Upper::Unbounded) => true,
        (Upper::Unbounded, _) => false,
        (Upper::Closed(x), Upper::Closed(y)) => x.le(y),
        (Upper::Open(x), Upper::Open(y)) => x.le(y),
        (Upper::Open(x), Upper::Closed(y)) => x.le(y),
        (Upper::Closed(x), Upper::Open(y)) => x.lt(y),
    }
}

fn same_upper_exec(a: Upper, b: Upper) -> (r: bool)
    requires
        (NumRange { low: Dec { mantissa: 0, scale: 0 }, high: a }).wf(),
        (NumRange { low: Dec { mantissa: 0, scale: 0 }, high: b }).wf(),
    ensures
        r == same_upper(a, b),
{
    match (a, b) {
        (Upper::Unbounded, Upper::Unbounded) => true,
        (Upper::Closed(x), Upper::Closed(y)) => x.same_value(y),
        (Upper::Open(x), Upper::Open(y)) => x.same_value(y),
        _ => false,
    }
}

/// `a` lies within `b` and they differ.
pub fn strictly_within_exec(a: &NumRange, b: &NumRange) -> (r: bool)
    requires
        a.wf(),
        b.wf(),
    ensures
        r == strictly_within(*a, *b),
{
    b.low.le(a.low) && upper_within_exec(a.high, b.high) && !(a.low.same_value(b.low)
        && same_upper_exec(a.high, b.high))
}

/// End of the run of digits that starts at `i`.
pub open spec fn digits_end(s: Seq<char>, i: int) -> int
    decreases s.len() - i,
{
    if 0 <= i < s.len() && is_digit(s[i]) {
        digits_end(s, i + 1)
    } else {
        i
    }
}

/// End of the run of whitespace that starts at `i`.
pub open spec fn spaces_end(s: Seq<char>, i: int) -> int
    decreases s.len() - i,
{
    if 0 <= i < s.len() && whitespace_of(s[i]) {
        spaces_end(s, i + 1)
    } else {
        i
    }
}

/// End of the longest numeral that starts at `i`.
pub open spec fn numeral_end(s: Seq<char>, i: int) -> int {
    let j = digits_end(s, i);
    if 0 <= j < s.len() && s[j] == '.' {
        digits_end(s, j + 1)
    } else {
        j
    }
}

/// Where the second numeral of a range that starts at `i` begins.
pub open spec fn second_start(s: Seq<char>, i: int) -> int {
    spaces_end(s, spaces_end(s, numeral_end(s, i)) + 1)
}

/// A range `A-B` starts at `i`.
pub open spec fn range_at(s: Seq<char>, i: int) -> bool {
    &&& 0 <= i < s.len()
    &&& is_digit(s[i])
    &&& spaces_end(s, numeral_end(s, i)) < s.len()
    &&& s[spaces_end(s, numeral_end(s, i))] == '-'
    &&& second_start(s, i) < s.len()
    &&& is_digit(s[second_start(s, i)])
}

/// A bound `>A` (when `sign` is `>`) or `<A` starts at `i`.
pub open spec fn bound_at(s: Seq<char>, i: int, sign: char) -> bool {
    &&& 0 <= i
    &&& i + 1 < s.len()
    &&& s[i] == sign
    &&& is_digit(s[i + 1])
}

/// The first position from `i` on where a range `A-B` starts, if any.
pub open spec fn first_range_from(s: Seq<char>, i: int) -> Option<int>
    decreases s.len() - i,
{
    if i < 0 || i >= s.len() {
        None
    } else if range_at(s, i) {
        Some(i)
    } else {
        first_range_from(s, i + 1)
    }
}

/// The first position from `i` on where a bound starts, if any.
pub open spec fn first_bound_from(s: Seq<char>, i: int, sign: char) -> Option<int>
    decreases s.len() - i,
{
    if i < 0 || i >= s.len() {
        None
    } else if bound_at(s, i, sign) {
        Some(i)
    } else {
        first_bound_from(s, i + 1, sign)
    }
}

pub open spec fn numeral_at(s: Seq<char>, i: int) -> Seq<char> {
    s.subrange(i, numeral_end(s, i))
}

pub open spec fn dec_of(p: (int, int)) -> Dec {
    Dec { mantissa: p.0 as i128, scale: p.1 as u32 }
}

/// The range that a condition name states, if any.
pub open spec fn range_of(s: Seq<char>) -> Option<NumRange> {
    match first_range_from(s, 0) {
        Some(i) => match (parsed_decimal(numeral_at(s, i)), parsed_decimal(numeral_at(s, second_start(s, i)))) {
            (Some(a), Some(b)) => Some(NumRange { low: dec_of(a), high: Upper::Closed(dec_of(b)) }),
            _ => None,
        },
        None => match first_bound_from(s, 0, '>') {
            Some(i) => match parsed_decimal(numeral_at(s, i + 1)) {
                Some(a) => Some(NumRange { low: dec_of(a), high: Upper::Unbounded }),
                None => None,
            },
            None => match first_bound_from(s, 0, '<') {
                Some(i) => match parsed_decimal(numeral_at(s, i + 1)) {
                    Some(a) => Some(NumRange { low: Dec { mantissa: 0, scale: 0 }, high: Upper::Open(dec_of(a)) }),
                    None => None,
                },
                None => None,
            },
        },
    }
}

fn is_digit_exec(c: char) -> (r: bool)
    ensures
        r == is_digit(c),
{
    '0' <= c && c <= '9'
}

fn digits_end_exec(s: &Vec<char>, i: usize) -> (r: usize)
    requires
        i <= s.len(),
    ensures
        r == digits_end(s@, i as int),
        i <= r <= s.len(),
{
    let mut j = i;
    while j < s.len() && is_digit_exec(s[j])
        invariant
            i <= j <= s.len(),
            digits_end(s@, i as int) == digits_end(s@, j as int),
        decreases s.len() - j,
    {
        j = j + 1;
    }
    j
}

fn spaces_end_exec(s: &Vec<char>, i: usize) -> (r: usize)
    requires
        i <= s.len(),
    ensures
        r == spaces_end(s@, i as int),
        i <= r <= s.len(),
{
    let mut j = i;
    while j < s.len() && is_whitespace(s[j])
        invariant
            i <= j <= s.len(),
            spaces_end(s@, i as int) == spaces_end(s@, j as int),
        decreases s.len() - j,
    {
        j = j + 1;
    }
    j
}

fn numeral_end_exec(s: &Vec<char>, i: usize) -> (r: usize)
    requires
        i <= s.len(),
    ensures
        r == numeral_end(s@, i as int),
        i <= r <= s.len(),
{
    let j = digits_end_exec(s, i);
    if j < s.len() && s[j] == '.' {
        digits_end_exec(s, j + 1)
    } else {
        j
    }
}

fn range_at_exec(s: &Vec<char>, i: usize) -> (r: bool)
    requires
        i < s.len(),
    ensures
        r == range_at(s@, i as int),
{
    if !is_digit_exec(s[i]) {
        return false;
    }
    let e = numeral_end_exec(s, i);
    let k = spaces_end_exec(s, e);
    if k >= s.len() || s[k] != '-' {
        return false;
    }
    let k2 = spaces_end_exec(s, k + 1);
    k2 < s.len() && is_digit_exec(s[k2])
}

fn bound_at_exec(s: &Vec<char>, i: usize, sign: char) -> (r: bool)
    requires
        i < s.len(),
    ensures
        r == bound_at(s@, i as int, sign),
{
    i + 1 < s.len() && s[i] == sign && is_digit_exec(s[i + 1])
}

/// Leftmost start of a range `A-B`.
fn first_range(s: &Vec<char>) -> (r: Option<usize>)
    ensures
        r matches Some(i) ==> first_range_from(s@, 0) == Some(i as int) && i < s.len() && range_at(
            s@,
            i as int,
        ),
        r is None ==> first_range_from(s@, 0) is None,
{
    let mut i: usize = 0;
    while i < s.len()
        invariant
            i <= s.len(),
            first_range_from(s@, 0) == first_range_from(s@, i as int),
        decreases s.len() - i,
    {
        if range_at_exec(s, i) {
            return Some(i);
        }
        i = i + 1;
    }
    None
}

/// Leftmost start of a bound `>A` or `<A`.
fn first_bound(s: &Vec<char>, sign: char) -> (r: Option<usize>)
    ensures
        r matches Some(i) ==> first_bound_from(s@, 0, sign) == Some(i as int) && i + 1 < s.len()
            && bound_at(s@, i as int, sign),
        r is None ==> first_bound_from(s@, 0, sign) is None,
{
    let mut i: usize = 0;
    while i < s.len()
        invariant
            i <= s.len(),
            first_bound_from(s@, 0, sign) == first_bound_from(s@, i as int, sign),
        decreases s.len() - i,
    {
        if bound_at_exec(s, i, sign) {
            return Some(i);
        }
        i = i + 1;
    }
    None
}

/// The characters of `s` from `a` up to `b`.
fn slice_chars(s: &Vec<char>, a: usize, b: usize) -> (r: Vec<char>)
    requires
        a <= b <= s.len(),
    ensures
        r@ == s@.subrange(a as int, b as int),
{
    let mut r: Vec<char> = Vec::new();
    let mut j = a;
    while j < b
        invariant
            a <= j <= b <= s.len(),
            r@ == s@.subrange(a as int, j as int),
        decreases b - j,
    {
        r.push(s[j]);
        j = j + 1;
        assert(r@ =~= s@.subrange(a as int, j as int));
    }
    r
}

fn numeral_from(s: &Vec<char>, i: usize) -> (r: Option<Dec>)
    requires
        i <= s.len(),
    ensures
        r is Some <==> parsed_decimal(numeral_at(s@, i as int)) is Some,
        r matches Some(d) ==> d.wf() && d == dec_of(parsed_decimal(numeral_at(s@, i as int))->0),
{
    let e = numeral_end_exec(s, i);
    let v = slice_chars(s, i, e);
    parse_decimal(&v)
}

/// The range that a condition name states: `A-B` as `[A, B]`, `>A` as
/// `[A, +inf)` and `<A` as `[0, A)`.
pub fn parse_range(name: &Vec<char>) -> (r: Option<NumRange>)
    ensures
        r == range_of(name@),
        r matches Some(x) ==> x.wf(),
{
    match first_range(name) {
        Some(i) => {
            let e = numeral_end_exec(name, i);
            let k = spaces_end_exec(name, e);
            let k2 = spaces_end_exec(name, k + 1);
            assert(k2 == second_start(name@, i as int));
            let a = numeral_from(name, i);
            let b = numeral_from(name, k2);
            match (a, b) {
                (Some(a), Some(b)) => Some(NumRange { low: a, high: Upper::Closed(b) }),
                _ => None,
            }
        },
        None => match first_bound(name, '>') {
            Some(i) => match numeral_from(name, i + 1) {
                Some(a) => Some(NumRange { low: a, high: Upper::Unbounded }),
                None => None,
            },
            None => match first_bound(name, '<') {
                Some(i) => match numeral_from(name, i + 1) {
                    Some(a) => Some(NumRange { low: Dec::zero(), high: Upper::Open(a) }),
                    None => None,
                },
                None => None,
            },
        },
    }
}

} // verus!
