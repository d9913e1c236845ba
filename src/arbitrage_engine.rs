//! Dependency rules between conditions of two markets, and the detectors of
//! rebalancing and combinatorial opportunities.

use vstd::prelude::*;
use crate::text::{seq_contains, occurs_at, lower_of, chars_of, to_lowercase, contains, contains_str, chars_eq};
use crate::entities::{
    VOCABULARY_SIZE, keyword, keyword_chars, mentions, entity_mask, masks_overlap, extract_entities,
    shares_entity,
};
use crate::ranges::{range_of, strictly_within, parse_range, strictly_within_exec};
use crate::shared_types::{
    Market, Condition, Direction, Dependency, PatternType, CombinatorialOpportunity, is_probability,
    RebalancingOpportunity,
};
use crate::decimal::{
    Dec, pow10, operands_fit, max_nat, MAX_MANTISSA, lemma_pow10_positive, lemma_pow10_monotone,
    lemma_pow10_add, lemma_pow10_28, pow10_u128,
};
use crate::text::string_of;
use crate::shared_types::DependencyGraph;

verus! {

pub open spec fn winner_title(t: Seq<char>) -> bool {
    seq_contains(t, "win"@) || seq_contains(t, "winner"@) || seq_contains(t, "victory"@)
}

pub open spec fn margin_title(t: Seq<char>) -> bool {
    seq_contains(t, "margin"@) || seq_contains(t, "points"@) || seq_contains(t, "by"@)
}

pub open spec fn both_affirmative(c1: Condition, c2: Condition) -> bool {
    c1.outcome == Some(true) && c2.outcome == Some(true)
}

/// Vocabulary word `k` is named by the title or by the condition's name.
pub open spec fn refers_to(t: Seq<char>, c: Condition, k: int) -> bool {
    seq_contains(t, keyword(k)) || seq_contains(c.name@, keyword(k))
}

/// A shared candidate to which both sides refer.
pub open spec fn candidate_linked(t1: Seq<char>, c1: Condition, t2: Seq<char>, c2: Condition, shared: Seq<bool>) -> bool {
    exists|k: int|
        0 <= k < VOCABULARY_SIZE && #[trigger] shared[k] && refers_to(t1, c1, k) && refers_to(t2, c2, k)
}

/// Exactly one of two orientations holds: the first gives `first`, the
/// second its inverse. When both hold, the rule does not apply.
pub open spec fn one_way(forward: bool, backward: bool, first: Direction) -> Option<Direction> {
    if forward && !backward {
        Some(first)
    } else if backward && !forward {
        Some(first.inverse())
    } else {
        None
    }
}

/// A margin of victory implies the victory. The rule applies when exactly
/// one title is about the winner and the other about the margin.
pub open spec fn winner_margin_rule(t1: Seq<char>, c1: Condition, t2: Seq<char>, c2: Condition, shared: Seq<bool>) -> Option<Direction> {
    if both_affirmative(c1, c2) && candidate_linked(t1, c1, t2, c2, shared) {
        one_way(
            winner_title(t1) && margin_title(t2),
            margin_title(t1) && winner_title(t2),
            Direction::C2ImpliesC1,
        )
    } else {
        None
    }
}

/// The more specific title, which contains the other, implies the other.
pub open spec fn subset_rule(t1: Seq<char>, c1: Condition, t2: Seq<char>, c2: Condition) -> Option<Direction> {
    if t1 != t2 && seq_contains(t2, t1) {
        if both_affirmative(c1, c2) {
            Some(Direction::C2ImpliesC1)
        } else {
            None
        }
    } else if t1 != t2 && seq_contains(t1, t2) {
        if both_affirmative(c1, c2) {
            Some(Direction::C1ImpliesC2)
        } else {
            None
        }
    } else {
        None
    }
}

/// A range strictly within another implies it.
pub open spec fn numeric_range_rule(c1: Condition, c2: Condition) -> Option<Direction> {
    match (range_of(c1.name@), range_of(c2.name@)) {
        (Some(a), Some(b)) => if strictly_within(a, b) {
            Some(Direction::C1ImpliesC2)
        } else if strictly_within(b, a) {
            Some(Direction::C2ImpliesC1)
        } else {
            None
        },
        _ => None,
    }
}

pub open spec fn state_title(t: Seq<char>) -> bool {
    seq_contains(t, "win"@) && (seq_contains(t, "pennsylvania"@) || seq_contains(t, "georgia"@)
        || seq_contains(t, "arizona"@))
}

pub open spec fn national_title(t: Seq<char>) -> bool {
    seq_contains(t, "win"@) && (seq_contains(t, "election"@) || seq_contains(t, "presidency"@))
}

/// Winning a state implies winning the national contest, when exactly one
/// orientation of the pair reads that way.
pub open spec fn state_national_rule(t1: Seq<char>, t2: Seq<char>) -> Option<Direction> {
    one_way(state_title(t1) && national_title(t2), state_title(t2) && national_title(t1), Direction::C1ImpliesC2)
}

pub open spec fn executive_title(t: Seq<char>) -> bool {
    seq_contains(t, "presidency"@) || seq_contains(t, "white house"@)
}

pub open spec fn chamber_title(t: Seq<char>) -> bool {
    seq_contains(t, "senate"@)
}

/// The executive office implies the legislative chamber, never the
/// converse; the rule applies when exactly one orientation reads that way.
pub open spec fn balance_of_power_rule(t1: Seq<char>, t2: Seq<char>) -> Option<Direction> {
    one_way(executive_title(t1) && chamber_title(t2), executive_title(t2) && chamber_title(t1), Direction::C1ImpliesC2)
}

pub open spec fn with_pattern(d: Option<Direction>, p: PatternType) -> Option<Dependency> {
    match d {
        Some(dir) => Some(Dependency { pattern: p, direction: dir }),
        None => None,
    }
}

/// The first rule that matches, in fixed order.
pub open spec fn first_rule(t1: Seq<char>, c1: Condition, t2: Seq<char>, c2: Condition, shared: Seq<bool>) -> Option<Dependency> {
    if winner_margin_rule(t1, c1, t2, c2, shared) is Some {
        with_pattern(winner_margin_rule(t1, c1, t2, c2, shared), PatternType::WinnerMargin)
    } else if subset_rule(t1, c1, t2, c2) is Some {
        with_pattern(subset_rule(t1, c1, t2, c2), PatternType::SubsetImplication)
    } else if numeric_range_rule(c1, c2) is Some {
        with_pattern(numeric_range_rule(c1, c2), PatternType::NumericRange)
    } else if state_national_rule(t1, t2) is Some {
        with_pattern(state_national_rule(t1, t2), PatternType::SubsetImplication)
    } else {
        with_pattern(balance_of_power_rule(t1, t2), PatternType::SubsetImplication)
    }
}

/// The vocabulary words that both titles name.
pub open spec fn shared_mask(t1: Seq<char>, t2: Seq<char>) -> Seq<bool> {
    Seq::new(VOCABULARY_SIZE as nat, |k: int| mentions(t1, k) && mentions(t2, k))
}

/// Two titles may be related: they share an entity or one contains the other.
pub open spec fn titles_may_relate(t1: Seq<char>, t2: Seq<char>) -> bool {
    masks_overlap(entity_mask(t1), entity_mask(t2)) || seq_contains(t1, t2) || seq_contains(t2, t1)
}

/// The dependency between two conditions, given lower-case titles.
pub open spec fn classify(id1: Seq<char>, t1: Seq<char>, c1: Condition, id2: Seq<char>, t2: Seq<char>, c2: Condition) -> Option<Dependency> {
    if id1 == id2 || !titles_may_relate(t1, t2) {
        None
    } else {
        first_rule(t1, c1, t2, c2, shared_mask(t1, t2))
    }
}

fn winner_title_exec(t: &Vec<char>) -> (r: bool)
    ensures
        r == winner_title(t@),
{
    contains_str(t, "win") || contains_str(t, "winner") || contains_str(t, "victory")
}

fn margin_title_exec(t: &Vec<char>) -> (r: bool)
    ensures
        r == margin_title(t@),
{
    contains_str(t, "margin") || contains_str(t, "points") || contains_str(t, "by")
}

fn both_affirmative_exec(c1: &Condition, c2: &Condition) -> (r: bool)
    ensures
        r == both_affirmative(*c1, *c2),
{
    c1.outcome == Some(true) && c2.outcome == Some(true)
}

fn candidate_linked_exec(
    t1: &Vec<char>,
    c1: &Condition,
    t2: &Vec<char>,
    c2: &Condition,
    shared: &Vec<bool>,
) -> (r: bool)
    requires
        shared.len() == VOCABULARY_SIZE,
    ensures
        r == candidate_linked(t1@, *c1, t2@, *c2, shared@),
{
    let n1 = chars_of(c1.name.as_str());
    let n2 = chars_of(c2.name.as_str());
    let mut k: usize = 0;
    while k < VOCABULARY_SIZE
        invariant
            k <= VOCABULARY_SIZE,
            shared.len() == VOCABULARY_SIZE,
            n1@ == c1.name@,
            n2@ == c2.name@,
            forall|q: int|
                0 <= q < k ==> !(#[trigger] shared@[q] && refers_to(t1@, *c1, q) && refers_to(
                    t2@,
                    *c2,
                    q,
                )),
        decreases VOCABULARY_SIZE - k,
    {
        if shared[k] {
            let kw = keyword_chars(k);
            let side1 = contains(t1, &kw) || contains(&n1, &kw);
            let side2 = contains(t2, &kw) || contains(&n2, &kw);
            if side1 && side2 {
                return true;
            }
        }
        k = k + 1;
    }
    false
}

fn one_way_exec(forward: bool, backward: bool, first: Direction) -> (r: Option<Direction>)
    ensures
        r == one_way(forward, backward, first),
{
    if forward && !backward {
        Some(first)
    } else if backward && !forward {
        Some(
            match first {
                Direction::C1ImpliesC2 => Direction::C2ImpliesC1,
                Direction::C2ImpliesC1 => Direction::C1ImpliesC2,
            },
        )
    } else {
        None
    }
}

fn winner_margin_exec(t1: &Vec<char>, c1: &Condition, t2: &Vec<char>, c2: &Condition, shared: &Vec<bool>) -> (r: Option<Direction>)
    requires
        shared.len() == VOCABULARY_SIZE,
    ensures
        r == winner_margin_rule(t1@, *c1, t2@, *c2, shared@),
{
    if !both_affirmative_exec(c1, c2) || !candidate_linked_exec(t1, c1, t2, c2, shared) {
        return None;
    }
    let forward = winner_title_exec(t1) && margin_title_exec(t2);
    let backward = margin_title_exec(t1) && winner_title_exec(t2);
    one_way_exec(forward, backward, Direction::C2ImpliesC1)
}

fn subset_exec(t1: &Vec<char>, c1: &Condition, t2: &Vec<char>, c2: &Condition) -> (r: Option<Direction>)
    ensures
        r == subset_rule(t1@, *c1, t2@, *c2),
{
    let differ = !chars_eq(t1, t2);
    if differ && contains(t2, t1) {
        if both_affirmative_exec(c1, c2) {
            Some(Direction::C2ImpliesC1)
        } else {
            None
        }
    } else if differ && contains(t1, t2) {
        if both_affirmative_exec(c1, c2) {
            Some(Direction::C1ImpliesC2)
        } else {
            None
        }
    } else {
        None
    }
}

fn numeric_range_exec(c1: &Condition, c2: &Condition) -> (r: Option<Direction>)
    ensures
        r == numeric_range_rule(*c1, *c2),
{
    let r1 = parse_range(&chars_of(c1.name.as_str()));
    let r2 = parse_range(&chars_of(c2.name.as_str()));
    match (r1, r2) {
        (Some(a), Some(b)) => if strictly_within_exec(&a, &b) {
            Some(Direction::C1ImpliesC2)
        } else if strictly_within_exec(&b, &a) {
            Some(Direction::C2ImpliesC1)
        } else {
            None
        },
        _ => None,
    }
}

fn state_title_exec(t: &Vec<char>) -> (r: bool)
    ensures
        r == state_title(t@),
{
    contains_str(t, "win") && (contains_str(t, "pennsylvania") || contains_str(t, "georgia")
        || contains_str(t, "arizona"))
}

fn national_title_exec(t: &Vec<char>) -> (r: bool)
    ensures
        r == national_title(t@),
{
    contains_str(t, "win") && (contains_str(t, "election") || contains_str(t, "presidency"))
}

fn state_national_exec(t1: &Vec<char>, t2: &Vec<char>) -> (r: Option<Direction>)
    ensures
        r == state_national_rule(t1@, t2@),
{
    let forward = state_title_exec(t1) && national_title_exec(t2);
    let backward = state_title_exec(t2) && national_title_exec(t1);
    one_way_exec(forward, backward, Direction::C1ImpliesC2)
}

fn executive_title_exec(t: &Vec<char>) -> (r: bool)
    ensures
        r == executive_title(t@),
{
    contains_str(t, "presidency") || contains_str(t, "white house")
}

fn balance_of_power_exec(t1: &Vec<char>, t2: &Vec<char>) -> (r: Option<Direction>)
    ensures
        r == balance_of_power_rule(t1@, t2@),
{
    let forward = executive_title_exec(t1) && contains_str(t2, "senate");
    let backward = executive_title_exec(t2) && contains_str(t1, "senate");
    one_way_exec(forward, backward, Direction::C1ImpliesC2)
}

fn tag(d: Option<Direction>, p: PatternType) -> (r: Option<Dependency>)
    ensures
        r == with_pattern(d, p),
{
    match d {
        Some(dir) => Some(Dependency { pattern: p, direction: dir }),
        None => None,
    }
}

/// Evaluates the rules in fixed order on lower-case titles and returns the
/// first match: winner and margin, subset, numeric range, state and nation,
/// balance of power.
pub fn analyze_dependency_inner(
    t1: &Vec<char>,
    c1: &Condition,
    t2: &Vec<char>,
    c2: &Condition,
    shared: &Vec<bool>,
) -> (r: Option<Dependency>)
    requires
        shared.len() == VOCABULARY_SIZE,
    ensures
        r == first_rule(t1@, *c1, t2@, *c2, shared@),
{
    let wm = winner_margin_exec(t1, c1, t2, c2, shared);
    if wm.is_some() {
        return tag(wm, PatternType::WinnerMargin);
    }
    let sub = subset_exec(t1, c1, t2, c2);
    if sub.is_some() {
        return tag(sub, PatternType::SubsetImplication);
    }
    let nr = numeric_range_exec(c1, c2);
    if nr.is_some() {
        return tag(nr, PatternType::NumericRange);
    }
    let sn = state_national_exec(t1, t2);
    if sn.is_some() {
        return tag(sn, PatternType::SubsetImplication);
    }
    tag(balance_of_power_exec(t1, t2), PatternType::SubsetImplication)
}

/// The vocabulary words both titles name, and whether the titles may relate.
pub fn title_relation(t1: &Vec<char>, t2: &Vec<char>) -> (r: (Vec<bool>, bool))
    ensures
        r.0@ == shared_mask(t1@, t2@),
        r.1 == titles_may_relate(t1@, t2@),
{
    let e1 = extract_entities(t1);
    let e2 = extract_entities(t2);
    let any = shares_entity(&e1, &e2);
    let mut shared: Vec<bool> = Vec::new();
    let mut k: usize = 0;
    while k < VOCABULARY_SIZE
        invariant
            k <= VOCABULARY_SIZE,
            e1@ == entity_mask(t1@),
            e2@ == entity_mask(t2@),
            shared.len() == k,
            forall|q: int| 0 <= q < k ==> shared@[q] == (mentions(t1@, q) && mentions(t2@, q)),
        decreases VOCABULARY_SIZE - k,
    {
        shared.push(e1[k] && e2[k]);
        k = k + 1;
    }
    assert(shared@ =~= shared_mask(t1@, t2@));
    let may = any || contains(t1, t2) || contains(t2, t1);
    (shared, may)
}

/// The dependency between condition `c1` of `m1` and condition `c2` of `m2`.
pub fn analyze_dependency(m1: &Market, c1: &Condition, m2: &Market, c2: &Condition) -> (r: Option<Dependency>)
    ensures
        r == classify(m1.id@, lower_of(m1.title@), *c1, m2.id@, lower_of(m2.title@), *c2),
{
    if m1.id == m2.id {
        return None;
    }
    let t1 = to_lowercase(&chars_of(m1.title.as_str()));
    let t2 = to_lowercase(&chars_of(m2.title.as_str()));
    let (shared, may) = title_relation(&t1, &t2);
    if !may {
        return None;
    }
    analyze_dependency_inner(&t1, c1, &t2, c2, &shared)
}

/// What a combinatorial opportunity reports: the two market ids, the
/// implying and the implied condition's names, and the profit in units.
pub type ComboSummary = (Seq<char>, Seq<char>, Seq<char>, Seq<char>, int);

impl CombinatorialOpportunity {
    pub open spec fn summary(self) -> ComboSummary {
        (self.market_id_1@, self.market_id_2@, self.condition_name_1@, self.condition_name_2@, self.profit.units())
    }
}

pub open spec fn summaries(v: Seq<CombinatorialOpportunity>) -> Seq<ComboSummary> {
    v.map_values(|o: CombinatorialOpportunity| o.summary())
}

/// The opportunity, if any, of one pair of conditions: the implying
/// condition priced above the implied one.
pub open spec fn pair_opportunity(id1: Seq<char>, id2: Seq<char>, t1: Seq<char>, c1: Condition, t2: Seq<char>, c2: Condition, shared: Seq<bool>) -> Seq<ComboSummary> {
    match first_rule(t1, c1, t2, c2, shared) {
        Some(dep) => {
            let (hi, lo) = match dep.direction {
                Direction::C1ImpliesC2 => (c1, c2),
                Direction::C2ImpliesC1 => (c2, c1),
            };
            if hi.price.units() > lo.price.units() {
                seq![(id1, id2, hi.name@, lo.name@, hi.price.units() - lo.price.units())]
            } else {
                Seq::empty()
            }
        },
        None => Seq::empty(),
    }
}

/// Opportunities of condition `c1` against the first `j` conditions of `m2`.
pub open spec fn row_opportunities(m1: Market, m2: Market, t1: Seq<char>, t2: Seq<char>, shared: Seq<bool>, c1: Condition, j: int) -> Seq<ComboSummary>
    decreases j,
{
    if j <= 0 {
        Seq::empty()
    } else {
        row_opportunities(m1, m2, t1, t2, shared, c1, j - 1) + pair_opportunity(
            m1.id@,
            m2.id@,
            t1,
            c1,
            t2,
            m2.conditions@[j - 1],
            shared,
        )
    }
}

/// Opportunities of the first `i` conditions of `m1` against all of `m2`.
pub open spec fn grid_opportunities(m1: Market, m2: Market, t1: Seq<char>, t2: Seq<char>, shared: Seq<bool>, i: int) -> Seq<ComboSummary>
    decreases i,
{
    if i <= 0 {
        Seq::empty()
    } else {
        grid_opportunities(m1, m2, t1, t2, shared, i - 1) + row_opportunities(
            m1,
            m2,
            t1,
            t2,
            shared,
            m1.conditions@[i - 1],
            m2.conditions.len() as int,
        )
    }
}

/// Every combinatorial opportunity between two markets, given lower-case titles.
pub open spec fn pair_opportunities(m1: Market, m2: Market, t1: Seq<char>, t2: Seq<char>) -> Seq<ComboSummary> {
    if m1.id@ == m2.id@ || !titles_may_relate(t1, t2) {
        Seq::empty()
    } else {
        grid_opportunities(m1, m2, t1, t2, shared_mask(t1, t2), m1.conditions.len() as int)
    }
}

/// The difference of two probabilities is representable at any scale.
proof fn lemma_probability_difference_fits(a: Dec, b: Dec)
    requires
        is_probability(a),
        is_probability(b),
        a.units() > b.units(),
    ensures
        operands_fit(a, b, a.units() - b.units()),
{
    let s = max_nat(a.scale as nat, b.scale as nat);
    lemma_pow10_28();
    lemma_pow10_positive((28 - s) as nat);
    assert(MAX_MANTISSA as int <= (MAX_MANTISSA as int) * pow10((28 - s) as nat)) by (nonlinear_arith)
        requires pow10((28 - s) as nat) >= 1;
}

fn pair_opportunity_exec(
    m1: &Market,
    m2: &Market,
    t1: &Vec<char>,
    c1: &Condition,
    t2: &Vec<char>,
    c2: &Condition,
    shared: &Vec<bool>,
    out: &mut Vec<CombinatorialOpportunity>,
)
    requires
        shared.len() == VOCABULARY_SIZE,
        c1.wf(),
        c2.wf(),
    ensures
        summaries(final(out)@) == summaries(old(out)@) + pair_opportunity(
            m1.id@,
            m2.id@,
            t1@,
            *c1,
            t2@,
            *c2,
            shared@,
        ),
{
    let dep = analyze_dependency_inner(t1, c1, t2, c2, shared);
    match dep {
        Some(d) => {
            let (hi, lo) = match d.direction {
                Direction::C1ImpliesC2 => (c1, c2),
                Direction::C2ImpliesC1 => (c2, c1),
            };
            if lo.price.lt(hi.price) {
                proof {
                    lemma_probability_difference_fits(hi.price, lo.price);
                }
                let profit = hi.price.sub(lo.price);
                let ghost before = out@;
                out.push(
                    CombinatorialOpportunity {
                        market_id_1: m1.id.clone(),
                        market_id_2: m2.id.clone(),
                        condition_name_1: hi.name.clone(),
                        condition_name_2: lo.name.clone(),
                        profit,
                    },
                );
                assert(summaries(out@) =~= summaries(before) + pair_opportunity(
                    m1.id@,
                    m2.id@,
                    t1@,
                    *c1,
                    t2@,
                    *c2,
                    shared@,
                ));
            } else {
                assert(summaries(out@) =~= summaries(old(out)@) + Seq::empty());
            }
        },
        None => {
            assert(summaries(out@) =~= summaries(old(out)@) + Seq::empty());
        },
    }
}

/// Every condition pair of two related markets in which the implying
/// condition is priced above the condition it implies, with the difference
/// as profit.
pub fn check_combinatorial_pair(m1: &Market, m2: &Market) -> (r: Vec<CombinatorialOpportunity>)
    requires
        m1.wf(),
        m2.wf(),
    ensures
        summaries(r@) == pair_opportunities(*m1, *m2, lower_of(m1.title@), lower_of(m2.title@)),
{
    let t1 = to_lowercase(&chars_of(m1.title.as_str()));
    let t2 = to_lowercase(&chars_of(m2.title.as_str()));
    let mut out: Vec<CombinatorialOpportunity> = Vec::new();
    if m1.id == m2.id {
        assert(summaries(out@) =~= Seq::empty());
        return out;
    }
    let (shared, may) = title_relation(&t1, &t2);
    if !may {
        assert(summaries(out@) =~= Seq::empty());
        return out;
    }
    let ghost sh = shared@;
    let mut i: usize = 0;
    assert(summaries(out@) =~= Seq::empty());
    while i < m1.conditions.len()
        invariant
            i <= m1.conditions.len(),
            m1.wf(),
            m2.wf(),
            shared.len() == VOCABULARY_SIZE,
            sh == shared@,
            summaries(out@) == grid_opportunities(*m1, *m2, t1@, t2@, sh, i as int),
        decreases m1.conditions.len() - i,
    {
        let c1 = &m1.conditions[i];
        assert(c1.wf());
        let mut j: usize = 0;
        let ghost base = summaries(out@);
        while j < m2.conditions.len()
            invariant
                j <= m2.conditions.len(),
                c1.wf(),
                m2.wf(),
                shared.len() == VOCABULARY_SIZE,
                sh == shared@,
                summaries(out@) == base + row_opportunities(*m1, *m2, t1@, t2@, sh, *c1, j as int),
            decreases m2.conditions.len() - j,
        {
            let c2 = &m2.conditions[j];
            assert(c2.wf());
            pair_opportunity_exec(m1, m2, &t1, c1, &t2, c2, &shared, &mut out);
            j = j + 1;
            assert(summaries(out@) =~= base + row_opportunities(*m1, *m2, t1@, t2@, sh, *c1, j as int));
        }
        i = i + 1;
    }
    out
}

/// Digits of the fee tolerance for rebalancing, `0.02`.
pub const FEE_TOLERANCE_MANTISSA: i128 = 2;

/// Scale of the fee tolerance for rebalancing, `0.02`.
pub const FEE_TOLERANCE_SCALE: u32 = 2;

/// The fee tolerance `0.02` in units of `10^-28`.
pub open spec fn fee_tolerance_units() -> int {
    2 * pow10(26)
}

/// The sum of the prices, in units.
pub open spec fn price_sum(cs: Seq<Condition>) -> int
    decreases cs.len(),
{
    if cs.len() == 0 {
        0
    } else {
        price_sum(cs.drop_last()) + cs.last().price.units()
    }
}

/// The largest scale among the prices.
pub open spec fn finest_scale(cs: Seq<Condition>) -> nat
    decreases cs.len(),
{
    if cs.len() == 0 {
        0
    } else {
        max_nat(finest_scale(cs.drop_last()), cs.last().price.scale as nat)
    }
}

/// The sum of the prices as a mantissa at scale `s`.
pub open spec fn aligned_sum(cs: Seq<Condition>, s: nat) -> int
    decreases cs.len(),
{
    if cs.len() == 0 {
        0
    } else {
        aligned_sum(cs.drop_last(), s) + cs.last().price.mantissa * pow10((s - cs.last().price.scale) as nat)
    }
}

/// The sum of the prices is representable at their finest scale.
pub open spec fn prices_fit(cs: Seq<Condition>) -> bool {
    aligned_sum(cs, finest_scale(cs)) <= MAX_MANTISSA
}

pub open spec fn all_probabilities(cs: Seq<Condition>) -> bool {
    forall|i: int| 0 <= i < cs.len() ==> (#[trigger] cs[i]).wf()
}

/// What a rebalancing opportunity reports: market id, `"Long"` or
/// `"Short"`, and the profit in units.
pub open spec fn rebalancing_of(m: Market) -> Option<(Seq<char>, Seq<char>, int)> {
    let s = price_sum(m.conditions@);
    if s < pow10(28) - fee_tolerance_units() {
        Some((m.id@, "Long"@, pow10(28) - s))
    } else if s > pow10(28) + fee_tolerance_units() {
        Some((m.id@, "Short"@, s - pow10(28)))
    } else {
        None
    }
}

impl RebalancingOpportunity {
    pub open spec fn summary(self) -> (Seq<char>, Seq<char>, int) {
        (self.market_id@, self.opportunity_type@, self.profit.units())
    }
}

proof fn lemma_finest_scale(cs: Seq<Condition>)
    requires
        all_probabilities(cs),
    ensures
        finest_scale(cs) <= 28,
        forall|i: int| 0 <= i < cs.len() ==> (#[trigger] cs[i]).price.scale <= finest_scale(cs),
    decreases cs.len(),
{
    if cs.len() > 0 {
        assert(all_probabilities(cs.drop_last()));
        lemma_finest_scale(cs.drop_last());
        assert forall|i: int| 0 <= i < cs.len() implies (#[trigger] cs[i]).price.scale <= finest_scale(cs) by {
            if i < cs.len() - 1 {
                assert(cs.drop_last()[i] == cs[i]);
            }
        }
    }
}

/// The sum in units is the aligned mantissa sum at any scale as fine as every price.
proof fn lemma_price_sum_aligned(cs: Seq<Condition>, s: nat)
    requires
        s <= 28,
        forall|i: int| 0 <= i < cs.len() ==> (#[trigger] cs[i]).price.scale <= s,
    ensures
        price_sum(cs) == aligned_sum(cs, s) * pow10((28 - s) as nat),
    decreases cs.len(),
{
    if cs.len() > 0 {
        let front = cs.drop_last();
        assert forall|i: int| 0 <= i < front.len() implies (#[trigger] front[i]).price.scale <= s by {
            assert(front[i] == cs[i]);
        }
        lemma_price_sum_aligned(front, s);
        let c = cs.last();
        assert(c == cs[cs.len() - 1]);
        let a = (s - c.price.scale) as nat;
        let b = (28 - s) as nat;
        lemma_pow10_add(a, b);
        assert(a + b == (28 - c.price.scale) as nat);
        let m = c.price.mantissa as int;
        let p = pow10(b);
        let q = pow10(a);
        let f = aligned_sum(front, s);
        assert(f * p + m * (q * p) == (f + m * q) * p) by (nonlinear_arith);
    }
}

/// Partial sums of non-negative prices stay below the whole sum, and their
/// finest scale below the whole one.
proof fn lemma_prefix_bounds(cs: Seq<Condition>, k: int, s: nat)
    requires
        all_probabilities(cs),
        0 <= k <= cs.len(),
    ensures
        0 <= price_sum(cs.subrange(0, k)) <= price_sum(cs),
        finest_scale(cs.subrange(0, k)) <= finest_scale(cs),
        0 <= aligned_sum(cs.subrange(0, k), s) <= aligned_sum(cs, s),
    decreases cs.len(),
{
    if k == cs.len() {
        assert(cs.subrange(0, k) =~= cs);
        lemma_prefix_bounds_whole(cs, s);
    } else {
        let front = cs.drop_last();
        assert(all_probabilities(front));
        lemma_prefix_bounds(front, k, s);
        assert(front.subrange(0, k) =~= cs.subrange(0, k));
        lemma_prefix_bounds_front(cs, s);
    }
}

proof fn lemma_prefix_bounds_front(cs: Seq<Condition>, s: nat)
    requires
        all_probabilities(cs),
        cs.len() > 0,
    ensures
        price_sum(cs.drop_last()) <= price_sum(cs),
        finest_scale(cs.drop_last()) <= finest_scale(cs),
        aligned_sum(cs.drop_last(), s) <= aligned_sum(cs, s),
{
    let c = cs.last();
    assert(c == cs[cs.len() - 1]);
    assert(c.wf());
    lemma_pow10_positive((28 - c.price.scale) as nat);
    lemma_pow10_positive((s - c.price.scale) as nat);
    let m = c.price.mantissa as int;
    if m < 0 {
        assert(m * pow10((28 - c.price.scale) as nat) < 0) by (nonlinear_arith)
            requires m < 0, pow10((28 - c.price.scale) as nat) >= 1;
    }
    assert(m * pow10((s - c.price.scale) as nat) >= 0) by (nonlinear_arith)
        requires m >= 0, pow10((s - c.price.scale) as nat) >= 1;
}

proof fn lemma_prefix_bounds_whole(cs: Seq<Condition>, s: nat)
    requires
        all_probabilities(cs),
    ensures
        price_sum(cs) >= 0,
        aligned_sum(cs, s) >= 0,
    decreases cs.len(),
{
    if cs.len() > 0 {
        assert(all_probabilities(cs.drop_last()));
        lemma_prefix_bounds_whole(cs.drop_last(), s);
        lemma_prefix_bounds_front(cs, s);
        let c = cs.last();
        assert(c == cs[cs.len() - 1]);
        assert(c.wf());
    }
}

/// The fee tolerance, `0.02`.
pub fn fee_tolerance() -> (r: Dec)
    ensures
        r.wf(),
        r.units() == fee_tolerance_units(),
        r.scale == FEE_TOLERANCE_SCALE,
{
    proof {
        reveal_with_fuel(pow10, 3);
    }
    Dec { mantissa: FEE_TOLERANCE_MANTISSA, scale: FEE_TOLERANCE_SCALE }
}

/// The sum of a market's prices is representable exactly.
pub fn prices_sum_fits(market: &Market) -> (r: bool)
    requires
        market.wf(),
    ensures
        r == prices_fit(market.conditions@),
{
    let ghost cs = market.conditions@;
    let n = market.conditions.len();
    let mut s: u32 = 0;
    let mut i: usize = 0;
    while i < n
        invariant
            i <= n == cs.len(),
            cs == market.conditions@,
            market.wf(),
            s == finest_scale(cs.subrange(0, i as int)),
        decreases n - i,
    {
        assert(cs.subrange(0, i + 1).drop_last() =~= cs.subrange(0, i as int));
        let sc = market.conditions[i].price.scale;
        if sc > s {
            s = sc;
        }
        i = i + 1;
    }
    assert(cs.subrange(0, n as int) =~= cs);
    proof {
        lemma_finest_scale(cs);
    }
    let mut acc: u128 = 0;
    let mut j: usize = 0;
    while j < n
        invariant
            j <= n == cs.len(),
            cs == market.conditions@,
            market.wf(),
            s == finest_scale(cs),
            s <= 28,
            forall|q: int| 0 <= q < cs.len() ==> (#[trigger] cs[q]).price.scale <= s,
            acc == aligned_sum(cs.subrange(0, j as int), s as nat),
            acc <= MAX_MANTISSA,
        decreases n - j,
    {
        assert(cs.subrange(0, j + 1).drop_last() =~= cs.subrange(0, j as int));
        let p = market.conditions[j].price;
        assert(cs[j as int].wf());
        proof {
            lemma_pow10_positive((28 - p.scale) as nat);
            if p.mantissa < 0 {
                assert(p.mantissa * pow10((28 - p.scale) as nat) < 0) by (nonlinear_arith)
                    requires p.mantissa < 0, pow10((28 - p.scale) as nat) >= 1;
            }
            lemma_prefix_bounds(cs, j + 1, s as nat);
        }
        let f = pow10_u128(s - p.scale);
        let term = match (p.mantissa as u128).checked_mul(f) {
            Some(t) => t,
            None => {
                return false;
            },
        };
        let next = match acc.checked_add(term) {
            Some(t) => t,
            None => {
                return false;
            },
        };
        if next > MAX_MANTISSA as u128 {
            return false;
        }
        acc = next;
        j = j + 1;
    }
    assert(cs.subrange(0, n as int) =~= cs);
    true
}

/// The exact sum of a market's prices.
pub fn sum_prices(market: &Market) -> (r: Dec)
    requires
        market.wf(),
        prices_fit(market.conditions@),
    ensures
        r.wf(),
        r.units() == price_sum(market.conditions@),
        r.scale <= finest_scale(market.conditions@),
        0 <= r.units() <= (MAX_MANTISSA as int) * pow10((28 - finest_scale(market.conditions@)) as nat),
{
    let ghost cs = market.conditions@;
    let n = market.conditions.len();
    proof {
        lemma_finest_scale(cs);
        lemma_price_sum_aligned(cs, finest_scale(cs));
        lemma_pow10_positive((28 - finest_scale(cs)) as nat);
        lemma_prefix_bounds_whole(cs, finest_scale(cs));
    }
    let ghost bound = (MAX_MANTISSA as int) * pow10((28 - finest_scale(cs)) as nat);
    assert(price_sum(cs) <= bound) by (nonlinear_arith)
        requires
            price_sum(cs) == aligned_sum(cs, finest_scale(cs)) * pow10((28 - finest_scale(cs)) as nat),
            aligned_sum(cs, finest_scale(cs)) <= MAX_MANTISSA,
            pow10((28 - finest_scale(cs)) as nat) >= 1,
            bound == (MAX_MANTISSA as int) * pow10((28 - finest_scale(cs)) as nat),
    ;
    let mut sum = Dec::zero();
    let mut i: usize = 0;
    while i < n
        invariant
            i <= n == cs.len(),
            cs == market.conditions@,
            market.wf(),
            finest_scale(cs) <= 28,
            0 <= price_sum(cs) <= bound,
            bound == (MAX_MANTISSA as int) * pow10((28 - finest_scale(cs)) as nat),
            sum.wf(),
            sum.units() == price_sum(cs.subrange(0, i as int)),
            sum.scale <= finest_scale(cs),
        decreases n - i,
    {
        assert(cs.subrange(0, i + 1).drop_last() =~= cs.subrange(0, i as int));
        let p = market.conditions[i].price;
        proof {
            assert(cs[i as int].wf());
            lemma_prefix_bounds(cs, i + 1, 0);
            lemma_finest_scale(cs);
            let m = max_nat(sum.scale as nat, p.scale as nat);
            lemma_pow10_monotone((28 - finest_scale(cs)) as nat, (28 - m) as nat);
            assert(bound <= (MAX_MANTISSA as int) * pow10((28 - m) as nat)) by (nonlinear_arith)
                requires
                    pow10((28 - finest_scale(cs)) as nat) <= pow10((28 - m) as nat),
                    bound == (MAX_MANTISSA as int) * pow10((28 - finest_scale(cs)) as nat),
            ;
            assert(cs.subrange(0, i + 1).last() == cs[i as int]);
            assert(price_sum(cs.subrange(0, i + 1)) == price_sum(cs.subrange(0, i as int)) + p.units());
            lemma_prefix_bounds(cs, i as int, 0);
        }
        sum = sum.add(p);
        i = i + 1;
    }
    assert(cs.subrange(0, n as int) =~= cs);
    sum
}

/// A market whose prices sum below `1 - 0.02` is a long opportunity with
/// profit `1 - sum`; above `1 + 0.02`, a short one with profit `sum - 1`.
pub fn check_rebalancing(market: &Market) -> (r: Option<RebalancingOpportunity>)
    requires
        market.wf(),
        prices_fit(market.conditions@),
    ensures
        r is Some <==> rebalancing_of(*market) is Some,
        r matches Some(o) ==> rebalancing_of(*market) == Some(o.summary()),
{
    let ghost cs = market.conditions@;
    let sum = sum_prices(market);
    proof {
        lemma_finest_scale(cs);
    }
    let ghost bound = (MAX_MANTISSA as int) * pow10((28 - finest_scale(cs)) as nat);
    proof {
        lemma_pow10_28();
    }
    let one = Dec::one();
    let tol = fee_tolerance();
    let lower = one.sub(tol);
    let upper = one.add(tol);
    if sum.lt(lower) {
        proof {
            lemma_pow10_positive((28 - sum.scale) as nat);
            assert(MAX_MANTISSA as int <= (MAX_MANTISSA as int) * pow10((28 - max_nat(0, sum.scale as nat)) as nat))
                by (nonlinear_arith)
                requires pow10((28 - max_nat(0, sum.scale as nat)) as nat) >= 1;
        }
        let profit = one.sub(sum);
        Some(RebalancingOpportunity { market_id: market.id.clone(), profit, opportunity_type: string_of(&chars_of("Long")) })
    } else if upper.lt(sum) {
        proof {
            lemma_pow10_monotone((28 - finest_scale(cs)) as nat, (28 - sum.scale) as nat);
            assert(bound <= (MAX_MANTISSA as int) * pow10((28 - max_nat(sum.scale as nat, 0)) as nat))
                by (nonlinear_arith)
                requires
                    pow10((28 - finest_scale(cs)) as nat) <= pow10((28 - sum.scale) as nat),
                    max_nat(sum.scale as nat, 0) == sum.scale,
                    bound == (MAX_MANTISSA as int) * pow10((28 - finest_scale(cs)) as nat),
            ;
        }
        let profit = sum.sub(one);
        Some(RebalancingOpportunity { market_id: market.id.clone(), profit, opportunity_type: string_of(&chars_of("Short")) })
    } else {
        None
    }
}

/// The Damerau-Levenshtein distance that `strsim` computes between two texts.
pub uninterp spec fn damerau_distance(a: Seq<char>, b: Seq<char>) -> nat;

/// Relies on `strsim::damerau_levenshtein`: the unrestricted
/// Damerau-Levenshtein distance, counted in characters.
#[verifier::external_body]
fn edit_distance(a: &str, b: &str) -> (r: usize)
    ensures
        r == damerau_distance(a@, b@),
{
    strsim::damerau_levenshtein(a, b)
}

/// Numerator of the similarity threshold, `0.6 = 3 / 5`.
pub const SIMILARITY_THRESHOLD_NUM: u128 = 3;

/// Denominator of the similarity threshold, `0.6 = 3 / 5`.
pub const SIMILARITY_THRESHOLD_DEN: u128 = 5;

/// Normalized similarity `1 - distance / longest length` exceeds `3/5`; two
/// empty texts are fully similar.
pub open spec fn similar_titles(a: Seq<char>, b: Seq<char>) -> bool {
    if a.len() == 0 && b.len() == 0 {
        true
    } else {
        let l = if a.len() >= b.len() {
            a.len() as int
        } else {
            b.len() as int
        };
        5 * (l - damerau_distance(a, b)) > 3 * l
    }
}

/// Some tag of `a` equals some tag of `b`.
pub open spec fn tags_overlap(a: Seq<String>, b: Seq<String>) -> bool {
    exists|i: int, j: int| 0 <= i < a.len() && 0 <= j < b.len() && #[trigger] a[i]@ == #[trigger] b[j]@
}

/// Two distinct markets worth comparing: same end date, a common tag and
/// similar titles.
pub open spec fn markets_related(m1: Market, m2: Market) -> bool {
    &&& m1.id@ != m2.id@
    &&& m1.end_date == m2.end_date
    &&& tags_overlap(m1.tags@, m2.tags@)
    &&& similar_titles(m1.title@, m2.title@)
}

fn tags_overlap_exec(a: &Vec<String>, b: &Vec<String>) -> (r: bool)
    ensures
        r == tags_overlap(a@, b@),
{
    let mut i: usize = 0;
    while i < a.len()
        invariant
            i <= a.len(),
            forall|p: int, q: int| 0 <= p < i && 0 <= q < b.len() ==> #[trigger] a@[p]@ != #[trigger] b@[q]@,
        decreases a.len() - i,
    {
        let mut j: usize = 0;
        while j < b.len()
            invariant
                i < a.len(),
                j <= b.len(),
                forall|p: int, q: int| 0 <= p < i && 0 <= q < b.len() ==> #[trigger] a@[p]@ != #[trigger] b@[q]@,
                forall|q: int| 0 <= q < j ==> a@[i as int]@ != #[trigger] b@[q]@,
            decreases b.len() - j,
        {
            if a[i] == b[j] {
                return true;
            }
            j = j + 1;
        }
        i = i + 1;
    }
    false
}

/// Whether two markets are worth comparing.
pub fn are_markets_related(m1: &Market, m2: &Market) -> (r: bool)
    ensures
        r == markets_related(*m1, *m2),
{
    if m1.id == m2.id || m1.end_date != m2.end_date {
        return false;
    }
    if !tags_overlap_exec(&m1.tags, &m2.tags) {
        return false;
    }
    let l1 = chars_of(m1.title.as_str()).len();
    let l2 = chars_of(m2.title.as_str()).len();
    if l1 == 0 && l2 == 0 {
        return true;
    }
    let l = if l1 >= l2 {
        l1
    } else {
        l2
    };
    let d = edit_distance(m1.title.as_str(), m2.title.as_str());
    SIMILARITY_THRESHOLD_DEN * (l as u128) > SIMILARITY_THRESHOLD_NUM * (l as u128)
        + SIMILARITY_THRESHOLD_DEN * (d as u128)
}

/// The same dependency read with the arguments swapped.
pub open spec fn swap_dependency(d: Option<Dependency>) -> Option<Dependency> {
    match d {
        Some(x) => Some(Dependency { pattern: x.pattern, direction: x.direction.inverse() }),
        None => None,
    }
}

/// Two conditions of markets with the same id never depend on each other.
pub proof fn lemma_no_self_dependency(id: Seq<char>, t1: Seq<char>, c1: Condition, t2: Seq<char>, c2: Condition)
    ensures
        classify(id, t1, c1, id, t2, c2) is None,
{
}

proof fn lemma_mutual_containment(a: Seq<char>, b: Seq<char>)
    requires
        seq_contains(a, b),
        seq_contains(b, a),
    ensures
        a == b,
{
    let i = choose|i: int| #[trigger] occurs_at(a, b, i);
    let j = choose|j: int| #[trigger] occurs_at(b, a, j);
    assert(b.len() == a.len());
    assert(i == 0);
    assert(a.subrange(0, a.len() as int) =~= a);
}

/// Classifying a pair in the other order gives the same answer with the
/// inverse direction: the same pattern, or nothing both times, and never
/// contradictory directions.
pub proof fn lemma_classify_swap(id1: Seq<char>, t1: Seq<char>, c1: Condition, id2: Seq<char>, t2: Seq<char>, c2: Condition)
    ensures
        classify(id2, t2, c2, id1, t1, c1) == swap_dependency(classify(id1, t1, c1, id2, t2, c2)),
{
    let sh = shared_mask(t1, t2);
    assert(shared_mask(t2, t1) =~= sh);
    let e1 = entity_mask(t1);
    let e2 = entity_mask(t2);
    if masks_overlap(e1, e2) {
        let k = choose|k: int| 0 <= k < VOCABULARY_SIZE && #[trigger] e1[k] && e2[k];
        assert(e2[k] && e1[k]);
    }
    if masks_overlap(e2, e1) {
        let k = choose|k: int| 0 <= k < VOCABULARY_SIZE && #[trigger] e2[k] && e1[k];
        assert(e1[k] && e2[k]);
    }
    assert(titles_may_relate(t1, t2) == titles_may_relate(t2, t1));
    if candidate_linked(t1, c1, t2, c2, sh) {
        let k = choose|k: int|
            0 <= k < VOCABULARY_SIZE && #[trigger] sh[k] && refers_to(t1, c1, k) && refers_to(t2, c2, k);
        assert(refers_to(t2, c2, k) && refers_to(t1, c1, k));
    }
    if candidate_linked(t2, c2, t1, c1, sh) {
        let k = choose|k: int|
            0 <= k < VOCABULARY_SIZE && #[trigger] sh[k] && refers_to(t2, c2, k) && refers_to(t1, c1, k);
        assert(refers_to(t1, c1, k) && refers_to(t2, c2, k));
    }
    if t1 != t2 && seq_contains(t2, t1) && seq_contains(t1, t2) {
        lemma_mutual_containment(t1, t2);
    }
}

/// The index of the last market with this id, as a map keyed by id keeps it.
pub open spec fn last_with_id(ms: Seq<Market>, id: Seq<char>) -> Option<int>
    decreases ms.len(),
{
    if ms.len() == 0 {
        None
    } else if ms.last().id@ == id {
        Some(ms.len() - 1)
    } else {
        last_with_id(ms.drop_last(), id)
    }
}

/// The opportunities of the first `k` related pairs of ids, in order; a pair
/// naming an unknown id contributes nothing.
pub open spec fn graph_opportunities(ms: Seq<Market>, pairs: Seq<(String, String)>, k: int) -> Seq<ComboSummary>
    decreases k,
{
    if k <= 0 {
        Seq::empty()
    } else {
        let prev = graph_opportunities(ms, pairs, k - 1);
        match (last_with_id(ms, pairs[k - 1].0@), last_with_id(ms, pairs[k - 1].1@)) {
            (Some(a), Some(b)) => prev + pair_opportunities(ms[a], ms[b], lower_of(ms[a].title@), lower_of(ms[b].title@)),
            _ => prev,
        }
    }
}

fn find_by_id(markets: &[Market], id: &String) -> (r: Option<usize>)
    ensures
        r matches Some(i) ==> last_with_id(markets@, id@) == Some(i as int) && i < markets@.len(),
        r is None ==> last_with_id(markets@, id@) is None,
{
    let mut k = markets.len();
    assert(markets@.subrange(0, k as int) =~= markets@);
    while k > 0
        invariant
            k <= markets@.len(),
            last_with_id(markets@, id@) == last_with_id(markets@.subrange(0, k as int), id@),
        decreases k,
    {
        assert(markets@.subrange(0, k as int).drop_last() =~= markets@.subrange(0, k - 1));
        if markets[k - 1].id == *id {
            return Some(k - 1);
        }
        k = k - 1;
    }
    None
}

/// The combinatorial opportunities of every related pair of the graph.
pub fn find_combinatorial_opportunities(markets: &[Market], dependency_graph: &DependencyGraph) -> (r: Vec<CombinatorialOpportunity>)
    requires
        forall|i: int| 0 <= i < markets@.len() ==> (#[trigger] markets@[i]).wf(),
    ensures
        summaries(r@) == graph_opportunities(markets@, dependency_graph.related_markets@, dependency_graph.related_markets@.len() as int),
{
    let pairs = &dependency_graph.related_markets;
    let mut out: Vec<CombinatorialOpportunity> = Vec::new();
    let mut k: usize = 0;
    assert(summaries(out@) =~= Seq::empty());
    while k < pairs.len()
        invariant
            k <= pairs.len(),
            pairs == &dependency_graph.related_markets,
            forall|i: int| 0 <= i < markets@.len() ==> (#[trigger] markets@[i]).wf(),
            summaries(out@) == graph_opportunities(markets@, pairs@, k as int),
        decreases pairs.len() - k,
    {
        let a = find_by_id(markets, &pairs[k].0);
        let b = find_by_id(markets, &pairs[k].1);
        match (a, b) {
            (Some(a), Some(b)) => {
                let mut found = check_combinatorial_pair(&markets[a], &markets[b]);
                let ghost before = out@;
                let ghost fv = found@;
                out.append(&mut found);
                assert(summaries(out@) =~= summaries(before) + summaries(fv));
            },
            _ => {},
        }
        k = k + 1;
    }
    out
}

} // verus!
