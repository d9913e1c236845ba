//! Turning raw catalog records into markets. Malformed records are dropped
//! whole: an event without a readable end date, and a market without
//! outcomes, whose outcome, price and asset lists differ in length, or with a
//! price that is not a probability. Every market kept has one condition per
//! outcome.

use vstd::prelude::*;
use chrono::NaiveDate;
use chrono::Datelike;
use crate::date::Date;
use crate::decimal::{Dec, parse_decimal, parsed_decimal};
use crate::ranges::dec_of;
use crate::text::{lower_of, chars_of, to_lowercase, chars_eq};
use crate::shared_types::{Market, Condition, is_probability};

verus! {

/// A market as the catalog lists it; the three lists are JSON arrays of
/// strings held in text.
#[derive(Debug, Clone)]
pub struct RawMarket {
    pub id: String,
    pub question: String,
    pub neg_risk_market_id: Option<String>,
    pub outcomes: Option<String>,
    pub outcome_prices: Option<String>,
    pub clob_token_ids: Option<String>,
}

/// An event of the catalog: an end date, tags and markets.
#[derive(Debug, Clone)]
pub struct RawEvent {
    pub end_date: Option<String>,
    pub tags: Vec<String>,
    pub markets: Vec<RawMarket>,
}

/// What `serde_json` reads from a text as an array of strings.
pub uninterp spec fn json_string_list(s: Seq<char>) -> Option<Seq<Seq<char>>>;

/// What chrono's `NaiveDate` parser reads from a text: year, month and day.
pub uninterp spec fn parsed_date(s: Seq<char>) -> Option<(int, int, int)>;

pub open spec fn string_views(v: Seq<String>) -> Seq<Seq<char>> {
    v.map_values(|s: String| s@)
}

/// Relies on `serde_json::from_str::<Vec<String>>`.
#[verifier::external_body]
fn parse_string_list(s: &str) -> (r: Option<Vec<String>>)
    ensures
        r is Some <==> json_string_list(s@) is Some,
        r matches Some(v) ==> json_string_list(s@) == Some(string_views(v@)),
{
    serde_json::from_str::<Vec<String>>(s).ok()
}

/// Relies on chrono's `FromStr for NaiveDate`; every date it returns exists.
#[verifier::external_body]
fn parse_date(s: &str) -> (r: Option<Date>)
    ensures
        r is Some <==> parsed_date(s@) is Some,
        r matches Some(d) ==> d.wf() && parsed_date(s@) == Some((d.year as int, d.month as int, d.day as int)),
{
    match s.parse::<NaiveDate>() {
        Ok(d) => Some(Date { year: d.year(), month: d.month(), day: d.day() }),
        Err(_) => None,
    }
}

/// The text before the first `T`, or all of it.
pub open spec fn date_part(s: Seq<char>) -> Seq<char>
    decreases s.len(),
{
    if s.len() == 0 {
        s
    } else if s[0] == 'T' {
        Seq::empty()
    } else {
        seq![s[0]] + date_part(s.drop_first())
    }
}

/// The end date of an event, if it has a readable one.
pub open spec fn event_date(e: RawEvent) -> Option<Date> {
    match e.end_date {
        Some(s) => match parsed_date(date_part(s@)) {
            Some(p) => Some(Date { year: p.0 as i32, month: p.1 as u32, day: p.2 as u32 }),
            None => None,
        },
        None => None,
    }
}

/// A list field: missing or unreadable counts as empty.
pub open spec fn list_field(f: Option<String>) -> Seq<Seq<char>> {
    match f {
        Some(s) => match json_string_list(s@) {
            Some(v) => v,
            None => Seq::empty(),
        },
        None => Seq::empty(),
    }
}

/// `yes` and `no`, in any case, are the affirmative and negative outcomes.
pub open spec fn outcome_of(name: Seq<char>) -> Option<bool> {
    if lower_of(name) == "yes"@ {
        Some(true)
    } else if lower_of(name) == "no"@ {
        Some(false)
    } else {
        None
    }
}

/// A price text that reads as a probability.
pub open spec fn price_of(p: Seq<char>) -> Option<Dec> {
    match parsed_decimal(p) {
        Some(x) => if is_probability(dec_of(x)) {
            Some(dec_of(x))
        } else {
            None
        },
        None => None,
    }
}

pub type ConditionView = (Seq<char>, Dec, Option<bool>, Seq<char>);

pub open spec fn condition_view(c: Condition) -> ConditionView {
    (c.name@, c.price, c.outcome, c.asset_id@)
}

/// The conditions read from the first `k` entries of the three lists.
pub open spec fn conditions_from(outs: Seq<Seq<char>>, prices: Seq<Seq<char>>, ids: Seq<Seq<char>>, k: int) -> Seq<ConditionView>
    decreases k,
{
    if k <= 0 {
        Seq::empty()
    } else {
        let prev = conditions_from(outs, prices, ids, k - 1);
        match price_of(prices[k - 1]) {
            Some(p) => prev.push((outs[k - 1], p, outcome_of(outs[k - 1]), ids[k - 1])),
            None => prev,
        }
    }
}

pub type MarketView = (Seq<char>, Seq<char>, Date, Option<Seq<char>>, Seq<Seq<char>>, Seq<ConditionView>);

pub open spec fn market_view(m: Market) -> MarketView {
    (
        m.id@,
        m.title@,
        m.end_date,
        match m.neg_risk_market_id {
            Some(s) => Some(s@),
            None => None,
        },
        string_views(m.tags@),
        m.conditions@.map_values(|c: Condition| condition_view(c)),
    )
}

/// Every price text reads as a probability.
pub open spec fn all_prices_valid(prices: Seq<Seq<char>>) -> bool {
    forall|i: int| 0 <= i < prices.len() ==> (#[trigger] price_of(prices[i])) is Some
}

/// The market read from a raw record, if it has outcomes, its lists agree in
/// length and every price is a probability.
pub open spec fn market_from(raw: RawMarket, d: Date, tags: Seq<Seq<char>>) -> Option<MarketView> {
    let outs = list_field(raw.outcomes);
    let prices = list_field(raw.outcome_prices);
    let ids = list_field(raw.clob_token_ids);
    if outs.len() == 0 || outs.len() != prices.len() || outs.len() != ids.len() || !all_prices_valid(prices) {
        None
    } else {
        Some(
            (
                raw.id@,
                raw.question@,
                d,
                match raw.neg_risk_market_id {
                    Some(s) => Some(s@),
                    None => None,
                },
                tags,
                conditions_from(outs, prices, ids, outs.len() as int),
            ),
        )
    }
}

/// The markets read from the first `k` raw records of one event.
pub open spec fn event_markets(raws: Seq<RawMarket>, d: Date, tags: Seq<Seq<char>>, k: int) -> Seq<MarketView>
    decreases k,
{
    if k <= 0 {
        Seq::empty()
    } else {
        let prev = event_markets(raws, d, tags, k - 1);
        match market_from(raws[k - 1], d, tags) {
            Some(m) => prev.push(m),
            None => prev,
        }
    }
}

/// The markets read from the first `k` events.
pub open spec fn catalog_markets(events: Seq<RawEvent>, k: int) -> Seq<MarketView>
    decreases k,
{
    if k <= 0 {
        Seq::empty()
    } else {
        let prev = catalog_markets(events, k - 1);
        let e = events[k - 1];
        match event_date(e) {
            Some(d) => prev + event_markets(e.markets@, d, string_views(e.tags@), e.markets.len() as int),
            None => prev,
        }
    }
}

fn copy_strings(v: &Vec<String>) -> (r: Vec<String>)
    ensures
        string_views(r@) == string_views(v@),
{
    let mut r: Vec<String> = Vec::new();
    let mut i: usize = 0;
    while i < v.len()
        invariant
            i <= v.len(),
            string_views(r@) == string_views(v@.subrange(0, i as int)),
        decreases v.len() - i,
    {
        let ghost before = r@;
        let c = v[i].clone();
        r.push(c);
        assert(string_views(r@) =~= string_views(before).push(v@[i as int]@));
        assert(v@.subrange(0, i + 1) =~= v@.subrange(0, i as int).push(v@[i as int]));
        assert(string_views(v@.subrange(0, i + 1)) =~= string_views(v@.subrange(0, i as int)).push(v@[i as int]@));
        i = i + 1;
    }
    assert(v@.subrange(0, v.len() as int) =~= v@);
    r
}

fn list_field_exec(f: &Option<String>) -> (r: Vec<String>)
    ensures
        string_views(r@) == list_field(*f),
{
    match f {
        Some(s) => match parse_string_list(s.as_str()) {
            Some(v) => v,
            None => {
                let r: Vec<String> = Vec::new();
                assert(string_views(r@) =~= Seq::empty());
                r
            },
        },
        None => {
            let r: Vec<String> = Vec::new();
            assert(string_views(r@) =~= Seq::empty());
            r
        },
    }
}

fn outcome_exec(name: &String) -> (r: Option<bool>)
    ensures
        r == outcome_of(name@),
{
    let l = to_lowercase(&chars_of(name.as_str()));
    if chars_eq(&l, &chars_of("yes")) {
        Some(true)
    } else if chars_eq(&l, &chars_of("no")) {
        Some(false)
    } else {
        None
    }
}

fn price_exec(p: &String) -> (r: Option<Dec>)
    ensures
        r == price_of(p@),
{
    match parse_decimal(&chars_of(p.as_str())) {
        Some(d) => {
            proof {
                crate::decimal::lemma_pow10_28();
            }
            if Dec::zero().le(d) && d.le(Dec::one()) {
                Some(d)
            } else {
                None
            }
        },
        None => None,
    }
}

/// The market of a raw record, with one condition per outcome; `None` when
/// it has no outcomes, its outcome, price and asset lists differ in length,
/// or a price is not a probability.
pub fn build_market(raw: &RawMarket, end_date: Date, tags: &Vec<String>) -> (r: Option<Market>)
    ensures
        r is Some <==> market_from(*raw, end_date, string_views(tags@)) is Some,
        r matches Some(m) ==> m.wf() && market_from(*raw, end_date, string_views(tags@)) == Some(market_view(m)),
        r matches Some(m) ==> m.conditions.len() == list_field(raw.outcomes).len() && m.conditions.len() >= 1,
{
    let outs = list_field_exec(&raw.outcomes);
    let prices = list_field_exec(&raw.outcome_prices);
    let ids = list_field_exec(&raw.clob_token_ids);
    if outs.len() == 0 || outs.len() != prices.len() || outs.len() != ids.len() {
        return None;
    }
    let ghost (go, gp, gi) = (string_views(outs@), string_views(prices@), string_views(ids@));
    let mut conditions: Vec<Condition> = Vec::new();
    let mut i: usize = 0;
    while i < outs.len()
        invariant
            i <= outs.len() == prices.len() == ids.len(),
            go == string_views(outs@),
            gp == string_views(prices@),
            gi == string_views(ids@),
            conditions@.map_values(|c: Condition| condition_view(c)) == conditions_from(go, gp, gi, i as int),
            forall|j: int| 0 <= j < conditions.len() ==> (#[trigger] conditions@[j]).wf(),
            conditions.len() == i,
            forall|j: int| 0 <= j < i ==> (#[trigger] price_of(gp[j])) is Some,
            go == list_field(raw.outcomes),
            gp == list_field(raw.outcome_prices),
            gi == list_field(raw.clob_token_ids),
        decreases outs.len() - i,
    {
        let ghost before = conditions@;
        assert(gp[i as int] == prices@[i as int]@);
        match price_exec(&prices[i]) {
            Some(p) => {
                let c = Condition {
                    name: outs[i].clone(),
                    price: p,
                    outcome: outcome_exec(&outs[i]),
                    asset_id: ids[i].clone(),
                };
                conditions.push(c);
                assert(conditions@.map_values(|c: Condition| condition_view(c)) =~= before.map_values(
                    |c: Condition| condition_view(c),
                ).push(condition_view(c)));
            },
            None => {
                assert(price_of(gp[i as int]) is None);
                assert(!all_prices_valid(gp));
                return None;
            },
        }
        i = i + 1;
    }
    assert(all_prices_valid(gp));
    let neg = match &raw.neg_risk_market_id {
        Some(s) => Some(s.clone()),
        None => None,
    };
    let m = Market {
        id: raw.id.clone(),
        title: raw.question.clone(),
        end_date,
        conditions,
        neg_risk_market_id: neg,
        tags: copy_strings(tags),
    };
    Some(m)
}

/// The text before the first `T`.
fn date_part_exec(s: &String) -> (r: Vec<char>)
    ensures
        r@ == date_part(s@),
{
    let v = chars_of(s.as_str());
    let mut r: Vec<char> = Vec::new();
    let mut i: usize = 0;
    assert(v@.subrange(0, v.len() as int) =~= v@);
    assert(r@ + date_part(v@) =~= date_part(v@));
    while i < v.len() && v[i] != 'T'
        invariant
            i <= v.len(),
            v@ == s@,
            forall|k: int| 0 <= k < i ==> v@[k] != 'T',
            r@ == v@.subrange(0, i as int),
            date_part(v@) == r@ + date_part(v@.subrange(i as int, v.len() as int)),
        decreases v.len() - i,
    {
        assert(v@.subrange(i as int, v.len() as int).drop_first() =~= v@.subrange(i + 1, v.len() as int));
        r.push(v[i]);
        i = i + 1;
        assert(r@ =~= v@.subrange(0, i as int));
    }
    proof {
        assert(v@.subrange(0, v.len() as int) =~= v@);
        if i == v.len() {
            assert(v@.subrange(i as int, v.len() as int) =~= Seq::<char>::empty());
        }
    }
    assert(r@ + Seq::<char>::empty() =~= r@);
    r
}

/// The markets of a catalog, in order, with malformed records dropped.
pub fn ingest_events(events: &Vec<RawEvent>) -> (r: Vec<Market>)
    ensures
        r@.map_values(|m: Market| market_view(m)) == catalog_markets(events@, events.len() as int),
        forall|i: int| 0 <= i < r.len() ==> (#[trigger] r@[i]).wf(),
        forall|i: int| 0 <= i < r.len() ==> (#[trigger] r@[i]).conditions.len() >= 1,
{
    let mut out: Vec<Market> = Vec::new();
    let mut k: usize = 0;
    while k < events.len()
        invariant
            k <= events.len(),
            out@.map_values(|m: Market| market_view(m)) == catalog_markets(events@, k as int),
            forall|i: int| 0 <= i < out.len() ==> (#[trigger] out@[i]).wf(),
            forall|i: int| 0 <= i < out.len() ==> (#[trigger] out@[i]).conditions.len() >= 1,
        decreases events.len() - k,
    {
        let e = &events[k];
        let ghost base = out@.map_values(|m: Market| market_view(m));
        let date = match &e.end_date {
            Some(s) => {
                let part = date_part_exec(s);
                let t = crate::text::string_of(&part);
                parse_date(t.as_str())
            },
            None => None,
        };
        match date {
            Some(d) => {
                let ghost tags = string_views(e.tags@);
                let mut j: usize = 0;
                while j < e.markets.len()
                    invariant
                        j <= e.markets.len(),
                        tags == string_views(e.tags@),
                        out@.map_values(|m: Market| market_view(m)) == base + event_markets(e.markets@, d, tags, j as int),
                        forall|i: int| 0 <= i < out.len() ==> (#[trigger] out@[i]).wf(),
                        forall|i: int| 0 <= i < out.len() ==> (#[trigger] out@[i]).conditions.len() >= 1,
                    decreases e.markets.len() - j,
                {
                    let ghost before = out@;
                    match build_market(&e.markets[j], d, &e.tags) {
                        Some(m) => {
                            out.push(m);
                            assert(out@.map_values(|m: Market| market_view(m)) =~= before.map_values(
                                |m: Market| market_view(m),
                            ).push(market_view(m)));
                        },
                        None => {},
                    }
                    j = j + 1;
                }
            },
            None => {},
        }
        k = k + 1;
    }
    out
}

} // verus!
