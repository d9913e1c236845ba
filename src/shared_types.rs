//! Markets, their conditions, and what the detectors report.

use vstd::prelude::*;
use std::collections::HashMap;
use crate::decimal::{Dec, pow10};
use crate::date::Date;

verus! {

/// One question of the catalog with its possible outcomes.
#[derive(Debug, Clone)]
pub struct Market {
    pub id: String,
    pub title: String,
    pub end_date: Date,
    pub conditions: Vec<Condition>,
    pub neg_risk_market_id: Option<String>,
    pub tags: Vec<String>,
}

/// One outcome of a market with its price.
#[derive(Debug, Clone)]
pub struct Condition {
    pub name: String,
    pub price: Dec,
    /// `Some(true)` for yes, `Some(false)` for no, `None` when unknown.
    pub outcome: Option<bool>,
    /// Routes price updates to this condition; empty when not tradable.
    pub asset_id: String,
}

/// A price that is a probability: between zero and one.
pub open spec fn is_probability(p: Dec) -> bool {
    &&& p.wf()
    &&& 0 <= p.units() <= pow10(28)
}

impl Condition {
    pub open spec fn wf(self) -> bool {
        is_probability(self.price)
    }
}

impl Market {
    pub open spec fn wf(self) -> bool {
        forall|i: int| 0 <= i < self.conditions.len() ==> (#[trigger] self.conditions@[i]).wf()
    }
}

/// A market whose prices do not sum to one.
#[derive(Debug)]
pub struct RebalancingOpportunity {
    pub market_id: String,
    pub profit: Dec,
    /// `"Long"` when the prices sum below one, `"Short"` when above.
    pub opportunity_type: String,
}

/// A condition priced above a condition that it implies.
#[derive(Debug)]
pub struct CombinatorialOpportunity {
    pub market_id_1: String,
    pub market_id_2: String,
    /// The implying condition.
    pub condition_name_1: String,
    /// The implied condition.
    pub condition_name_2: String,
    pub profit: Dec,
}

#[derive(Debug, PartialEq, Eq, Clone, Copy, Structural)]
pub enum Direction {
    C1ImpliesC2,
    C2ImpliesC1,
}

impl Direction {
    pub open spec fn inverse(self) -> Direction {
        match self {
            Direction::C1ImpliesC2 => Direction::C2ImpliesC1,
            Direction::C2ImpliesC1 => Direction::C1ImpliesC2,
        }
    }
}

/// Pairs of related markets and known implications between them.
#[derive(Debug)]
pub struct DependencyGraph {
    pub related_markets: Vec<(String, String)>,
    pub implications: HashMap<(String, String), Direction>,
}

impl Default for DependencyGraph {
    fn default() -> (r: DependencyGraph)
        ensures
            r.related_markets@.len() == 0,
    {
        DependencyGraph { related_markets: Vec::new(), implications: HashMap::new() }
    }
}

/// A named value found in text.
#[derive(Debug, Clone)]
pub enum Entity {
    Candidate(String),
    Location(String),
    Event(String),
    NumericalValue(Dec),
}

#[derive(Debug, Clone, Copy, PartialEq, Eq, Structural)]
pub enum PatternType {
    WinnerMargin,
    SubsetImplication,
    NumericRange,
}

/// An implication between two conditions and the rule that found it.
#[derive(Debug, Clone, Copy, PartialEq, Eq, Structural)]
pub struct Dependency {
    pub pattern: PatternType,
    pub direction: Direction,
}

} // verus!
