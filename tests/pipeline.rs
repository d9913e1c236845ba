use polymarket_bot::date::Date;
use polymarket_bot::decimal::Dec;
use polymarket_bot::pipeline::{build_adjacency, MarketStore};
use polymarket_bot::shared_types::{Condition, DependencyGraph, Market};

fn dec(mantissa: i128, scale: u32) -> Dec {
    Dec::new(mantissa, scale).unwrap()
}

fn market(id: &str, title: &str, name: &str, price: Dec, asset: &str, tag: &str) -> Market {
    Market {
        id: id.to_string(),
        title: title.to_string(),
        end_date: Date::from_ymd_opt(2024, 11, 5).unwrap(),
        conditions: vec![Condition {
            name: name.to_string(),
            price,
            outcome: Some(true),
            asset_id: asset.to_string(),
        }],
        neg_risk_market_id: None,
        tags: vec![tag.to_string()],
    }
}

fn catalog() -> Vec<Market> {
    vec![
        market("m1", "trump_margin", "5-10%", dec(4, 1), "a1", "politics"),
        market("m2", "trump_margin", "0-20%", dec(5, 1), "a2", "politics"),
        market("m3", "trump_margin", "0-30%", dec(1, 1), "a3", "sports"),
    ]
}

#[test]
fn adjacency_is_symmetric() {
    let ms = catalog();
    let mut graph = DependencyGraph::default();
    let adj = build_adjacency(&ms, &mut graph);
    assert_eq!(adj, vec![vec![1], vec![0], vec![]]);
    assert_eq!(graph.related_markets, vec![("m1".to_string(), "m2".to_string())]);
    for a in 0..adj.len() {
        for &b in &adj[a] {
            assert!(adj[b].contains(&a));
        }
    }
}

#[test]
fn tick_reevaluates_only_neighbors() {
    let mut store = MarketStore::new(catalog());
    let out = store.apply_tick(&"a1".to_string(), dec(7, 1));
    assert!(out.applied);
    assert_eq!(store.markets[0].conditions[0].price, dec(7, 1));
    assert_eq!(out.combinatorial.len(), 1);
    assert_eq!(out.combinatorial[0].market_id_1, "m1");
    assert_eq!(out.combinatorial[0].market_id_2, "m2");
    assert_eq!(out.combinatorial[0].profit, dec(2, 1));
    assert!(out.combinatorial.iter().all(|o| o.market_id_2 != "m3"));
    assert!(out.rebalancing.is_some());
    assert_eq!(out.rebalancing.unwrap().profit, dec(3, 1));
}

#[test]
fn tick_for_unknown_asset_is_ignored() {
    let mut store = MarketStore::new(catalog());
    let out = store.apply_tick(&"zz".to_string(), dec(7, 1));
    assert!(!out.applied);
    assert!(out.rebalancing.is_none());
    assert!(out.combinatorial.is_empty());
    assert_eq!(store.markets[0].conditions[0].price, dec(4, 1));
}

#[test]
fn tick_with_price_above_one_is_ignored() {
    let mut store = MarketStore::new(catalog());
    let out = store.apply_tick(&"a1".to_string(), dec(15, 1));
    assert!(!out.applied);
    assert_eq!(store.markets[0].conditions[0].price, dec(4, 1));
}

#[test]
fn last_tick_wins() {
    let mut store = MarketStore::new(catalog());
    store.apply_tick(&"a2".to_string(), dec(9, 1));
    store.apply_tick(&"a2".to_string(), dec(3, 1));
    assert_eq!(store.markets[1].conditions[0].price, dec(3, 1));
    let out = store.apply_tick(&"a3".to_string(), dec(2, 1));
    assert!(out.applied);
    assert!(out.combinatorial.is_empty());
}
