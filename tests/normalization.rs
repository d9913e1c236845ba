use polymarket_bot::date::Date;
use polymarket_bot::decimal::Dec;
use polymarket_bot::normalization::{normalize_markets, sanitize_string};
use polymarket_bot::shared_types::{Condition, Market};

#[test]
fn test_sanitize_string() {
    assert_eq!(sanitize_string("Will Donald Trump win?"), "donald_trump_win");
    assert_eq!(sanitize_string("The outcome of the election is..."), "election");
    assert_eq!(sanitize_string("NBA: Lakers vs Warriors"), "nba_lakers_vs_warriors");
}

#[test]
fn sanitize_is_idempotent() {
    for s in ["Will Donald Trump win?", "NBA: Lakers vs Warriors", "  Fed -- rates, 5-10% ", "", "the a an", "Élection à Paris!"] {
        let once = sanitize_string(s);
        assert_eq!(sanitize_string(&once), once);
    }
}

#[test]
fn sanitize_keeps_hyphens_and_digits() {
    assert_eq!(sanitize_string("Margin 5-10%?"), "margin_5-10");
    assert_eq!(sanitize_string("..."), "");
}

fn market(id: &str, group: Option<&str>, date: (i32, u32, u32)) -> Market {
    Market {
        id: id.to_string(),
        title: format!("Will {} win?", id),
        end_date: Date::from_ymd_opt(date.0, date.1, date.2).unwrap(),
        conditions: vec![Condition {
            name: "YES!".to_string(),
            price: Dec::new(5, 1).unwrap(),
            outcome: Some(true),
            asset_id: "a".to_string(),
        }],
        neg_risk_market_id: group.map(|g| g.to_string()),
        tags: vec![],
    }
}

#[test]
fn normalize_aligns_group_dates_and_cleans_text() {
    let mut ms = vec![
        market("Alpha", Some("g"), (2024, 11, 5)),
        market("Beta", Some("g"), (2024, 12, 1)),
        market("Gamma", None, (2024, 1, 1)),
        market("Delta", Some("h"), (2023, 6, 1)),
    ];
    normalize_markets(&mut ms);
    assert_eq!(ms[0].end_date, Date::from_ymd_opt(2024, 12, 1).unwrap());
    assert_eq!(ms[1].end_date, Date::from_ymd_opt(2024, 12, 1).unwrap());
    assert_eq!(ms[2].end_date, Date::from_ymd_opt(2024, 1, 1).unwrap());
    assert_eq!(ms[3].end_date, Date::from_ymd_opt(2023, 6, 1).unwrap());
    assert_eq!(ms[0].title, "alpha_win");
    assert_eq!(ms[0].conditions[0].name, "yes");
    assert_eq!(ms[0].id, "Alpha");
}

#[test]
fn dates_are_validated() {
    assert!(Date::from_ymd_opt(2023, 2, 29).is_none());
    assert!(Date::from_ymd_opt(2024, 2, 29).is_some());
    assert!(Date::from_ymd_opt(2024, 13, 1).is_none());
}

#[test]
fn normalizing_a_catalog_twice_changes_nothing() {
    let mut ms = vec![
        market("Alpha", Some("g"), (2024, 11, 5)),
        market("Beta", Some("g"), (2024, 12, 1)),
        market("Gamma", None, (2024, 1, 1)),
    ];
    normalize_markets(&mut ms);
    let once: Vec<(String, Date, Vec<String>)> =
        ms.iter().map(|m| (m.title.clone(), m.end_date, m.conditions.iter().map(|c| c.name.clone()).collect())).collect();
    normalize_markets(&mut ms);
    let twice: Vec<(String, Date, Vec<String>)> =
        ms.iter().map(|m| (m.title.clone(), m.end_date, m.conditions.iter().map(|c| c.name.clone()).collect())).collect();
    assert_eq!(once, twice);
}
