use polymarket_bot::clob_client::{feed_action, next_reconnect_delay, ClobClient, FeedAction, FeedEvent, DEFAULT_WS_URL};
use polymarket_bot::date::Date;
use polymarket_bot::decimal::Dec;
use polymarket_bot::execution_analyzer::{ExecutionAnalyzer, UserExecution};
use polymarket_bot::market_fetcher::{build_market, ingest_events, RawEvent, RawMarket};
use polymarket_bot::ranges::{parse_range, Upper};
use polymarket_bot::shared_types::Market;
use polymarket_bot::topic_classifier::{MarketCategory, TopicClassifier};

fn raw(id: &str, outcomes: &str, prices: &str, ids: &str) -> RawMarket {
    RawMarket {
        id: id.to_string(),
        question: format!("Question {}", id),
        neg_risk_market_id: None,
        outcomes: Some(outcomes.to_string()),
        outcome_prices: Some(prices.to_string()),
        clob_token_ids: Some(ids.to_string()),
    }
}

#[test]
fn ingest_drops_malformed_records() {
    let events = vec![
        RawEvent {
            end_date: Some("2024-11-05T12:00:00Z".to_string()),
            tags: vec!["Politics".to_string()],
            markets: vec![
                raw("ok", r#"["Yes", "No"]"#, r#"["0.45", "0.55"]"#, r#"["t1", "t2"]"#),
                raw("short", r#"["Yes", "No"]"#, r#"["0.45"]"#, r#"["t1", "t2"]"#),
                raw("badprice", r#"["Yes", "Maybe"]"#, r#"["0.5", "1.5"]"#, r#"["t1", "t2"]"#),
                raw("unreadable", r#"["Yes"]"#, r#"["abc"]"#, r#"["t1"]"#),
                RawMarket { id: "empty".to_string(), question: "q".to_string(), neg_risk_market_id: None, outcomes: None, outcome_prices: None, clob_token_ids: None },
                raw("second", r#"["Yes"]"#, r#"["0.25"]"#, r#"["t9"]"#),
            ],
        },
        RawEvent {
            end_date: Some("not a date".to_string()),
            tags: vec![],
            markets: vec![raw("lost", r#"["Yes"]"#, r#"["0.5"]"#, r#"["t"]"#)],
        },
        RawEvent { end_date: None, tags: vec![], markets: vec![raw("lost2", "[]", "[]", "[]")] },
    ];
    let ms: Vec<Market> = ingest_events(&events);
    assert_eq!(ms.len(), 2);
    assert!(ms.iter().all(|m| !m.conditions.is_empty()));
    assert_eq!(ms[0].id, "ok");
    assert_eq!(ms[0].end_date, Date::from_ymd_opt(2024, 11, 5).unwrap());
    assert_eq!(ms[0].tags, vec!["Politics".to_string()]);
    assert_eq!(ms[0].conditions.len(), 2);
    assert_eq!(ms[0].conditions[0].outcome, Some(true));
    assert_eq!(ms[0].conditions[1].outcome, Some(false));
    assert_eq!(ms[0].conditions[1].price, Dec::new(55, 2).unwrap());
    assert_eq!(ms[0].conditions[1].asset_id, "t2");
    assert_eq!(ms[1].id, "second");
    assert_eq!(ms[1].conditions.len(), 1);
}

#[test]
fn build_market_reads_outcomes() {
    let d = Date::from_ymd_opt(2024, 1, 2).unwrap();
    let m = build_market(&raw("x", r#"["YES", "Other"]"#, r#"["1", "0"]"#, r#"["a", ""]"#), d, &vec![]).unwrap();
    assert_eq!(m.conditions[0].outcome, Some(true));
    assert_eq!(m.conditions[1].outcome, None);
    assert!(build_market(&raw("y", "not json", "[]", "[]"), d, &vec![]).is_none());
    assert!(build_market(&raw("z", r#"["Yes"]"#, r#"["-0.1"]"#, r#"["a"]"#), d, &vec![]).is_none());
}

fn chars(s: &str) -> Vec<char> {
    s.chars().collect()
}

#[test]
fn ranges_in_three_forms() {
    let r = parse_range(&chars("5 - 10.5%")).unwrap();
    assert_eq!(r.low, Dec::new(5, 0).unwrap());
    assert!(matches!(r.high, Upper::Closed(h) if h == Dec::new(105, 1).unwrap()));
    let g = parse_range(&chars("above >7%")).unwrap();
    assert_eq!(g.low, Dec::new(7, 0).unwrap());
    assert!(matches!(g.high, Upper::Unbounded));
    let l = parse_range(&chars("<3.")).unwrap();
    assert_eq!(l.low, Dec::new(0, 0).unwrap());
    assert!(matches!(l.high, Upper::Open(h) if h == Dec::new(3, 0).unwrap()));
    assert!(parse_range(&chars("Donald Trump")).is_none());
    assert!(parse_range(&chars("> 5")).is_none());
    let first = parse_range(&chars("x 1.2.3-4")).unwrap();
    assert_eq!(first.low, Dec::new(23, 1).unwrap());
}

#[test]
fn topics_from_tags_then_title() {
    let mut m = Market {
        id: "m".to_string(),
        title: "Will BTC hit 100k?".to_string(),
        end_date: Date::from_ymd_opt(2024, 1, 1).unwrap(),
        conditions: vec![],
        neg_risk_market_id: None,
        tags: vec!["Misc".to_string(), "NBA Finals".to_string(), "Elections".to_string()],
    };
    assert_eq!(TopicClassifier::classify(&m), MarketCategory::Sports);
    m.tags.clear();
    assert_eq!(TopicClassifier::classify(&m), MarketCategory::Crypto);
    m.title = "Nothing here".to_string();
    assert_eq!(TopicClassifier::classify(&m), MarketCategory::Other);
}

fn exec(user: &str, market: &str) -> UserExecution {
    UserExecution {
        user_address: user.to_string(),
        market_id: market.to_string(),
        outcome_index: 0,
        amount: Dec::new(1, 0).unwrap(),
        timestamp: 0,
    }
}

#[test]
fn arbitrageurs_trade_a_market_twice() {
    let execs = vec![exec("u1", "a"), exec("u2", "a"), exec("u1", "a"), exec("u2", "b"), exec("u3", "c"), exec("u1", "a")];
    assert_eq!(ExecutionAnalyzer::analyze_executions(&execs), vec!["u1".to_string()]);
    assert!(ExecutionAnalyzer::analyze_executions(&[]).is_empty());
}

#[test]
fn subscriptions_are_batched_by_fifty() {
    let ids: Vec<String> = (0..120).map(|i| format!("id{}", i)).collect();
    let batches = ClobClient::subscription_batches(&ids);
    assert_eq!(batches.len(), 3);
    assert_eq!(batches[0].asset_ids.len(), 50);
    assert_eq!(batches[2].asset_ids.len(), 20);
    assert_eq!(batches[2].asset_ids[0], "id100");
    assert_eq!(batches[1].message_type, "subscribe");
    assert_eq!(batches[1].topic, "prices");
    assert!(ClobClient::subscription_batches(&vec![]).is_empty());
}

#[test]
fn client_address_defaults() {
    assert_eq!(ClobClient::new(None).ws_url, DEFAULT_WS_URL);
    assert_eq!(ClobClient::new(Some("wss://x".to_string())).ws_url, "wss://x");
}

#[test]
fn feed_events_map_to_actions() {
    assert_eq!(feed_action(FeedEvent::Update), FeedAction::Deliver);
    assert_eq!(feed_action(FeedEvent::Ping), FeedAction::Pong);
    assert_eq!(feed_action(FeedEvent::Quiet), FeedAction::SendPing);
    assert_eq!(feed_action(FeedEvent::Closed), FeedAction::Stop);
    assert_eq!(feed_action(FeedEvent::Unreadable), FeedAction::Ignore);
}

#[test]
fn reconnect_delay_doubles_up_to_a_minute() {
    assert_eq!(next_reconnect_delay(2, true), 4);
    assert_eq!(next_reconnect_delay(32, true), 60);
    assert_eq!(next_reconnect_delay(60, true), 60);
    assert_eq!(next_reconnect_delay(u64::MAX, true), 60);
    assert_eq!(next_reconnect_delay(16, false), 2);
}
