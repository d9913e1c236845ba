//! Coarse topic categories of markets, from their tags or else their title.

use vstd::prelude::*;
use crate::text::{seq_contains, lower_of, chars_of, to_lowercase, contains_str};
use crate::shared_types::Market;

verus! {

#[derive(Debug, Clone, Copy, PartialEq, Eq, Hash, Structural)]
pub enum MarketCategory {
    Politics,
    Crypto,
    Sports,
    Economics,
    Science,
    Other,
}

/// The category that one lower-case tag names, if any.
pub open spec fn tag_category(t: Seq<char>) -> Option<MarketCategory> {
    if seq_contains(t, "politics"@) || seq_contains(t, "election"@) || seq_contains(t, "white house"@) {
        Some(MarketCategory::Politics)
    } else if seq_contains(t, "crypto"@) || seq_contains(t, "bitcoin"@) || seq_contains(t, "ethereum"@)
        || seq_contains(t, "nft"@) {
        Some(MarketCategory::Crypto)
    } else if seq_contains(t, "sport"@) || seq_contains(t, "nba"@) || seq_contains(t, "nfl"@)
        || seq_contains(t, "soccer"@) {
        Some(MarketCategory::Sports)
    } else if seq_contains(t, "economy"@) || seq_contains(t, "fed"@) || seq_contains(t, "rates"@)
        || seq_contains(t, "inflation"@) {
        Some(MarketCategory::Economics)
    } else if seq_contains(t, "science"@) || seq_contains(t, "space"@) || seq_contains(t, "covid"@)
        || seq_contains(t, "climate"@) {
        Some(MarketCategory::Science)
    } else {
        None
    }
}

/// The category named by the first of the first `k` tags that names one.
pub open spec fn tags_category(tags: Seq<String>, k: int) -> Option<MarketCategory>
    decreases k,
{
    if k <= 0 {
        None
    } else {
        match tags_category(tags, k - 1) {
            Some(c) => Some(c),
            None => tag_category(lower_of(tags[k - 1]@)),
        }
    }
}

/// The category a lower-case title suggests.
pub open spec fn title_category(t: Seq<char>) -> MarketCategory {
    if seq_contains(t, "trump"@) || seq_contains(t, "biden"@) || seq_contains(t, "senate"@) {
        MarketCategory::Politics
    } else if seq_contains(t, "btc"@) || seq_contains(t, "eth"@) || seq_contains(t, "sol"@) {
        MarketCategory::Crypto
    } else if seq_contains(t, "game"@) || seq_contains(t, "match"@) || seq_contains(t, "league"@) {
        MarketCategory::Sports
    } else {
        MarketCategory::Other
    }
}

pub open spec fn category_of(m: Market) -> MarketCategory {
    match tags_category(m.tags@, m.tags.len() as int) {
        Some(c) => c,
        None => title_category(lower_of(m.title@)),
    }
}

fn tag_category_exec(t: &Vec<char>) -> (r: Option<MarketCategory>)
    ensures
        r == tag_category(t@),
{
    if contains_str(t, "politics") || contains_str(t, "election") || contains_str(t, "white house") {
        Some(MarketCategory::Politics)
    } else if contains_str(t, "crypto") || contains_str(t, "bitcoin") || contains_str(t, "ethereum")
        || contains_str(t, "nft") {
        Some(MarketCategory::Crypto)
    } else if contains_str(t, "sport") || contains_str(t, "nba") || contains_str(t, "nfl")
        || contains_str(t, "soccer") {
        Some(MarketCategory::Sports)
    } else if contains_str(t, "economy") || contains_str(t, "fed") || contains_str(t, "rates")
        || contains_str(t, "inflation") {
        Some(MarketCategory::Economics)
    } else if contains_str(t, "science") || contains_str(t, "space") || contains_str(t, "covid")
        || contains_str(t, "climate") {
        Some(MarketCategory::Science)
    } else {
        None
    }
}

pub struct TopicClassifier;

impl TopicClassifier {
    /// The category of the first tag that names one; otherwise the one the
    /// title suggests.
    pub fn classify(market: &Market) -> (r: MarketCategory)
        ensures
            r == category_of(*market),
    {
        let mut i: usize = 0;
        while i < market.tags.len()
            invariant
                i <= market.tags.len(),
                tags_category(market.tags@, i as int) is None,
            decreases market.tags.len() - i,
        {
            let t = to_lowercase(&chars_of(market.tags[i].as_str()));
            match tag_category_exec(&t) {
                Some(c) => {
                    proof {
                        lemma_first_tag_wins(market.tags@, i as int + 1, market.tags.len() as int);
                    }
                    return c;
                },
                None => {},
            }
            i = i + 1;
        }
        let t = to_lowercase(&chars_of(market.title.as_str()));
        if contains_str(&t, "trump") || contains_str(&t, "biden") || contains_str(&t, "senate") {
            MarketCategory::Politics
        } else if contains_str(&t, "btc") || contains_str(&t, "eth") || contains_str(&t, "sol") {
            MarketCategory::Crypto
        } else if contains_str(&t, "game") || contains_str(&t, "match") || contains_str(&t, "league") {
            MarketCategory::Sports
        } else {
            MarketCategory::Other
        }
    }
}

proof fn lemma_first_tag_wins(tags: Seq<String>, i: int, k: int)
    requires
        0 <= i <= k,
        tags_category(tags, i) is Some,
    ensures
        tags_category(tags, k) == tags_category(tags, i),
    decreases k - i,
{
    if i < k {
        lemma_first_tag_wins(tags, i, k - 1);
    }
}

} // verus!
