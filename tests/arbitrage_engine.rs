use polymarket_bot::arbitrage_engine::{
    analyze_dependency, are_markets_related, check_combinatorial_pair, check_rebalancing,
    find_combinatorial_opportunities, prices_sum_fits, sum_prices,
};
use polymarket_bot::date::Date;
use polymarket_bot::decimal::Dec;
use polymarket_bot::shared_types::{Condition, DependencyGraph, Direction, Market, PatternType};

fn dec(mantissa: i128, scale: u32) -> Dec {
    Dec::new(mantissa, scale).unwrap()
}

fn cond(name: &str, price: Dec, outcome: Option<bool>, asset_id: &str) -> Condition {
    Condition {
        name: name.to_string(),
        price,
        outcome,
        asset_id: asset_id.to_string(),
    }
}

fn market(id: &str, title: &str, conditions: Vec<Condition>, tags: Vec<&str>) -> Market {
    Market {
        id: id.to_string(),
        title: title.to_string(),
        end_date: Date::from_ymd_opt(2024, 11, 5).unwrap(),
        conditions,
        neg_risk_market_id: None,
        tags: tags.into_iter().map(|t| t.to_string()).collect(),
    }
}

fn priced(prices: &[(i128, u32)]) -> Market {
    let conditions = prices
        .iter()
        .enumerate()
        .map(|(i, &(m, s))| cond(&format!("c{}", i), dec(m, s), None, &format!("{}", i)))
        .collect();
    market("p", "Prices", conditions, vec![])
}

#[test]
fn test_rebalancing_detection() {
    let market = Market {
        id: "test".to_string(),
        title: "Test Market".to_string(),
        end_date: Date::from_ymd_opt(2024, 11, 5).unwrap(),
        conditions: vec![
            Condition { name: "Yes".to_string(), price: dec(4, 1), outcome: Some(true), asset_id: "1".to_string() },
            Condition { name: "No".to_string(), price: dec(4, 1), outcome: Some(false), asset_id: "2".to_string() },
        ],
        neg_risk_market_id: None,
        tags: vec![],
    };

    let opp = check_rebalancing(&market).unwrap();
    assert_eq!(opp.profit, dec(2, 1));
    assert_eq!(opp.opportunity_type, "Long");
}

#[test]
fn test_numeric_range_implication() {
    let m1 = Market {
        id: "m1".to_string(),
        title: "trump_margin".to_string(),
        end_date: Date::from_ymd_opt(2024, 11, 5).unwrap(),
        conditions: vec![Condition { name: "5-10%".to_string(), price: dec(6, 1), outcome: Some(true), asset_id: "1".to_string() }],
        neg_risk_market_id: None,
        tags: vec![],
    };
    let m2 = Market {
        id: "m2".to_string(),
        title: "trump_margin".to_string(),
        end_date: Date::from_ymd_opt(2024, 11, 5).unwrap(),
        conditions: vec![Condition { name: "0-20%".to_string(), price: dec(5, 1), outcome: Some(true), asset_id: "2".to_string() }],
        neg_risk_market_id: None,
        tags: vec![],
    };

    let dep = analyze_dependency(&m1, &m1.conditions[0], &m2, &m2.conditions[0]).unwrap();
    assert_eq!(dep.direction, Direction::C1ImpliesC2);
}

#[test]
fn test_winner_margin_implication() {
    let m1 = Market {
        id: "m1".to_string(),
        title: "trump_win_presidential_election".to_string(),
        end_date: Date::from_ymd_opt(2024, 11, 5).unwrap(),
        conditions: vec![Condition { name: "Donald Trump".to_string(), price: dec(5, 1), outcome: Some(true), asset_id: "1".to_string() }],
        neg_risk_market_id: None,
        tags: vec![],
    };
    let m2 = Market {
        id: "m2".to_string(),
        title: "trump_margin_victory".to_string(),
        end_date: Date::from_ymd_opt(2024, 11, 5).unwrap(),
        conditions: vec![Condition { name: "5-10%".to_string(), price: dec(6, 1), outcome: Some(true), asset_id: "2".to_string() }],
        neg_risk_market_id: None,
        tags: vec![],
    };

    let dep = analyze_dependency(&m1, &m1.conditions[0], &m2, &m2.conditions[0]).unwrap();
    assert_eq!(dep.direction, Direction::C2ImpliesC1);
}

#[test]
fn winner_margin_is_found_in_either_order() {
    let win = market("m1", "trump_win_presidential_election", vec![cond("Donald Trump", dec(5, 1), Some(true), "1")], vec![]);
    let margin = market("m2", "trump_margin_victory", vec![cond("5-10%", dec(6, 1), Some(true), "2")], vec![]);
    let dep = analyze_dependency(&margin, &margin.conditions[0], &win, &win.conditions[0]).unwrap();
    assert_eq!(dep.pattern, PatternType::WinnerMargin);
    assert_eq!(dep.direction, Direction::C1ImpliesC2);
}

#[test]
fn rebalancing_thresholds() {
    let long = check_rebalancing(&priced(&[(50, 2), (47, 2)])).unwrap();
    assert_eq!(long.opportunity_type, "Long");
    assert_eq!(long.profit, dec(3, 2));
    assert!(check_rebalancing(&priced(&[(50, 2), (50, 2)])).is_none());
    // above 1 + 0.02: a short opportunity, as the tolerance rule gives
    let above = check_rebalancing(&priced(&[(50, 2), (53, 2)])).unwrap();
    assert_eq!(above.opportunity_type, "Short");
    assert_eq!(above.profit, dec(3, 2));
    assert!(check_rebalancing(&priced(&[(50, 2), (51, 2)])).is_none());
    let short = check_rebalancing(&priced(&[(50, 2), (55, 2)])).unwrap();
    assert_eq!(short.opportunity_type, "Short");
    assert_eq!(short.profit, dec(5, 2));
    assert_eq!(short.market_id, "p");
}

#[test]
fn rebalancing_at_the_exact_tolerance_is_none() {
    assert!(check_rebalancing(&priced(&[(98, 2)])).is_none());
    assert!(check_rebalancing(&priced(&[(51, 2), (51, 2)])).is_none());
    assert!(check_rebalancing(&priced(&[(979, 3)])).is_some());
}

#[test]
fn rebalancing_of_a_market_without_conditions_is_long() {
    let opp = check_rebalancing(&priced(&[])).unwrap();
    assert_eq!(opp.opportunity_type, "Long");
    assert_eq!(opp.profit, dec(1, 0));
}

#[test]
fn decimal_sums_are_exact() {
    let m = priced(&[(33, 2), (33, 2), (34, 2)]);
    assert!(prices_sum_fits(&m));
    let total = sum_prices(&m);
    assert_eq!(total, dec(100, 2));
    assert_eq!(total, dec(1, 0));
    assert!(check_rebalancing(&m).is_none());
}

#[test]
fn sums_at_the_finest_scale_that_overflow_are_reported() {
    let whole = 10i128.pow(28);
    let m = priced(&[(whole, 28); 10]);
    assert!(!prices_sum_fits(&m));
    assert!(prices_sum_fits(&priced(&[(whole, 28); 7])));
    assert!(prices_sum_fits(&priced(&[(1, 28), (1, 28)])));
}

#[test]
fn numeric_range_yields_combinatorial_opportunity() {
    let m1 = market("m1", "trump_margin", vec![cond("5-10%", dec(6, 1), Some(true), "1")], vec![]);
    let m2 = market("m2", "trump_margin", vec![cond("0-20%", dec(5, 1), Some(true), "2")], vec![]);
    let opps = check_combinatorial_pair(&m1, &m2);
    assert_eq!(opps.len(), 1);
    assert_eq!(opps[0].market_id_1, "m1");
    assert_eq!(opps[0].market_id_2, "m2");
    assert_eq!(opps[0].condition_name_1, "5-10%");
    assert_eq!(opps[0].condition_name_2, "0-20%");
    assert_eq!(opps[0].profit, dec(1, 1));
}

#[test]
fn implied_condition_priced_higher_gives_nothing() {
    let m1 = market("m1", "trump_margin", vec![cond("5-10%", dec(4, 1), Some(true), "1")], vec![]);
    let m2 = market("m2", "trump_margin", vec![cond("0-20%", dec(5, 1), Some(true), "2")], vec![]);
    assert!(check_combinatorial_pair(&m1, &m2).is_empty());
}

#[test]
fn subset_implication_state_to_national() {
    let state = market("s", "trump_win_pennsylvania", vec![cond("Yes", dec(5, 1), Some(true), "1")], vec![]);
    let nation = market("n", "trump_win_election", vec![cond("Yes", dec(4, 1), Some(true), "2")], vec![]);
    let dep = analyze_dependency(&state, &state.conditions[0], &nation, &nation.conditions[0]).unwrap();
    assert_eq!(dep.pattern, PatternType::SubsetImplication);
    assert_eq!(dep.direction, Direction::C1ImpliesC2);
    let back = analyze_dependency(&nation, &nation.conditions[0], &state, &state.conditions[0]).unwrap();
    assert_eq!(back.pattern, PatternType::SubsetImplication);
    assert_eq!(back.direction, Direction::C2ImpliesC1);
}

#[test]
fn substring_titles_imply_the_containing_one() {
    let general = market("g", "trump_win", vec![cond("Yes", dec(5, 1), Some(true), "1")], vec![]);
    let specific = market("s", "trump_win_ohio_primary", vec![cond("Yes", dec(4, 1), Some(true), "2")], vec![]);
    let dep = analyze_dependency(&general, &general.conditions[0], &specific, &specific.conditions[0]).unwrap();
    assert_eq!(dep.pattern, PatternType::SubsetImplication);
    assert_eq!(dep.direction, Direction::C2ImpliesC1);
    let no = market("s2", "trump_win_ohio_primary", vec![cond("No", dec(4, 1), Some(false), "3")], vec![]);
    assert!(analyze_dependency(&general, &general.conditions[0], &no, &no.conditions[0]).is_none());
}

#[test]
fn balance_of_power_both_orders() {
    let pres = market("p", "harris_presidency", vec![cond("Yes", dec(5, 1), Some(true), "1")], vec![]);
    let senate = market("s", "harris_senate_control", vec![cond("Yes", dec(4, 1), Some(true), "2")], vec![]);
    let dep = analyze_dependency(&pres, &pres.conditions[0], &senate, &senate.conditions[0]).unwrap();
    assert_eq!(dep.direction, Direction::C1ImpliesC2);
    let back = analyze_dependency(&senate, &senate.conditions[0], &pres, &pres.conditions[0]).unwrap();
    assert_eq!(back.direction, Direction::C2ImpliesC1);
}

#[test]
fn classify_swapped_is_inverse() {
    let m1 = market("m1", "trump_margin", vec![cond(">5%", dec(6, 1), Some(true), "1")], vec![]);
    let m2 = market("m2", "trump_margin", vec![cond(">2%", dec(5, 1), Some(true), "2")], vec![]);
    let ab = analyze_dependency(&m1, &m1.conditions[0], &m2, &m2.conditions[0]).unwrap();
    let ba = analyze_dependency(&m2, &m2.conditions[0], &m1, &m1.conditions[0]).unwrap();
    assert_eq!(ab.pattern, ba.pattern);
    assert_eq!(ab.direction, Direction::C1ImpliesC2);
    assert_eq!(ba.direction, Direction::C2ImpliesC1);
}

#[test]
fn same_market_id_has_no_dependency() {
    let m = market("m", "trump_margin", vec![cond("5-10%", dec(6, 1), Some(true), "1"), cond("0-20%", dec(5, 1), Some(true), "2")], vec![]);
    assert!(analyze_dependency(&m, &m.conditions[0], &m, &m.conditions[1]).is_none());
    assert!(check_combinatorial_pair(&m, &m).is_empty());
}

#[test]
fn unrelated_titles_are_pruned() {
    let a = market("a", "lakers_championship", vec![cond("5-10%", dec(6, 1), Some(true), "1")], vec![]);
    let b = market("b", "bitcoin_price", vec![cond("0-20%", dec(5, 1), Some(true), "2")], vec![]);
    assert!(analyze_dependency(&a, &a.conditions[0], &b, &b.conditions[0]).is_none());
}

#[test]
fn relatedness_needs_date_tags_and_similar_titles() {
    let a = market("a", "trump_margin_pennsylvania", vec![], vec!["politics"]);
    let b = market("b", "trump_margin_pennsylvanya", vec![], vec!["politics", "us"]);
    assert!(are_markets_related(&a, &b));
    assert!(are_markets_related(&b, &a));
    let other_tags = market("c", "trump_margin_pennsylvanya", vec![], vec!["sports"]);
    assert!(!are_markets_related(&a, &other_tags));
    let mut later = market("d", "trump_margin_pennsylvanya", vec![], vec!["politics"]);
    later.end_date = Date::from_ymd_opt(2024, 11, 6).unwrap();
    assert!(!are_markets_related(&a, &later));
    let far = market("e", "lakers_win_title", vec![], vec!["politics"]);
    assert!(!are_markets_related(&a, &far));
    assert!(!are_markets_related(&a, &a));
}

#[test]
fn relatedness_threshold_is_strict() {
    // distance 2 over 5 characters: similarity exactly 0.6
    let a = market("a", "abcde", vec![], vec!["t"]);
    let b = market("b", "abcxy", vec![], vec!["t"]);
    assert!(!are_markets_related(&a, &b));
    // distance 1 over 5 characters: similarity 0.8
    let c = market("c", "abcdx", vec![], vec!["t"]);
    assert!(are_markets_related(&a, &c));
    let e1 = market("e1", "", vec![], vec!["t"]);
    let e2 = market("e2", "", vec![], vec!["t"]);
    assert!(are_markets_related(&e1, &e2));
}

#[test]
fn graph_pairs_are_checked() {
    let m1 = market("m1", "trump_margin", vec![cond("5-10%", dec(6, 1), Some(true), "1")], vec![]);
    let m2 = market("m2", "trump_margin", vec![cond("0-20%", dec(5, 1), Some(true), "2")], vec![]);
    let mut graph = DependencyGraph::default();
    graph.related_markets.push(("m1".to_string(), "m2".to_string()));
    graph.related_markets.push(("m1".to_string(), "missing".to_string()));
    let opps = find_combinatorial_opportunities(&[m1, m2], &graph);
    assert_eq!(opps.len(), 1);
    assert_eq!(opps[0].profit, dec(1, 1));
}

#[test]
fn winner_and_margin_on_both_sides_match_no_rule() {
    let a = market("a", "trump_win_by_5_points", vec![cond("Yes", dec(5, 1), Some(true), "1")], vec![]);
    let b = market("b", "trump_win_popular_vote_by_margin", vec![cond("Yes", dec(4, 1), Some(true), "2")], vec![]);
    assert!(analyze_dependency(&a, &a.conditions[0], &b, &b.conditions[0]).is_none());
    assert!(analyze_dependency(&b, &b.conditions[0], &a, &a.conditions[0]).is_none());
}

#[test]
fn state_and_national_on_both_sides_match_no_rule() {
    let a = market("a", "trump_win_georgia_election", vec![cond("Yes", dec(5, 1), Some(true), "1")], vec![]);
    let b = market("b", "trump_win_arizona_presidency", vec![cond("Yes", dec(4, 1), Some(true), "2")], vec![]);
    assert!(analyze_dependency(&a, &a.conditions[0], &b, &b.conditions[0]).is_none());
    assert!(analyze_dependency(&b, &b.conditions[0], &a, &a.conditions[0]).is_none());
}

#[test]
fn margin_first_implies_the_winner() {
    let margin = market("m", "trump_margin", vec![cond("Yes", dec(5, 1), Some(true), "1")], vec![]);
    let win = market("w", "trump_victory", vec![cond("Yes", dec(4, 1), Some(true), "2")], vec![]);
    let dep = analyze_dependency(&margin, &margin.conditions[0], &win, &win.conditions[0]).unwrap();
    assert_eq!(dep.pattern, PatternType::WinnerMargin);
    assert_eq!(dep.direction, Direction::C1ImpliesC2);
    let back = analyze_dependency(&win, &win.conditions[0], &margin, &margin.conditions[0]).unwrap();
    assert_eq!(back.direction, Direction::C2ImpliesC1);
}
