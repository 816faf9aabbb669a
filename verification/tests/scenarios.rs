//! Scenarios of the marketplace: offers, gifts, queries and statistics.
use lau_trading::{Gift, TradeMarket, TradeOffer, TradeStats, TradeStatus, Tradeable};

#[test]
fn test_create_trade_offer() {
    let mut market = TradeMarket::new();
    let id = market.create_offer(
        "alice",
        "bob",
        vec![Tradeable::Material("iron".to_string(), 5)],
        vec![Tradeable::Agent("builder_bot".to_string(), 0.95f64.to_bits())],
    );
    assert!(id.starts_with("offer-"));
    assert_eq!(market.offers.len(), 1);
}

#[test]
fn test_is_fair_equal() {
    let offer = TradeOffer {
        id: "test".into(),
        from: "alice".into(),
        to: "bob".into(),
        give: vec![
            Tradeable::Material("iron".to_string(), 5),
            Tradeable::Pet("dog".to_string(), 3),
        ],
        want: vec![
            Tradeable::Agent("bot".to_string(), 0.9f64.to_bits()),
            Tradeable::Knowledge("mining".to_string(), 0.8f64.to_bits()),
        ],
        status: TradeStatus::Pending,
    };
    assert!(offer.is_fair());
}

#[test]
fn test_is_fair_unequal() {
    let offer = TradeOffer {
        id: "test".into(),
        from: "alice".into(),
        to: "bob".into(),
        give: vec![Tradeable::Recipe("pizza".to_string())],
        want: vec![
            Tradeable::Agent("bot".to_string(), 0.9f64.to_bits()),
            Tradeable::Knowledge("cooking".to_string(), 0.7f64.to_bits()),
        ],
        status: TradeStatus::Pending,
    };
    assert!(!offer.is_fair());
}

#[test]
fn test_accept_offer() {
    let mut market = TradeMarket::new();
    let id = market.create_offer(
        "alice",
        "bob",
        vec![Tradeable::Material("wood".to_string(), 10)],
        vec![Tradeable::Pet("cat".to_string(), 5)],
    );
    let completed = market.accept(&id).unwrap();
    assert_eq!(completed.offer.status, TradeStatus::Accepted);
    assert!(completed.completed_tick > 0);
    assert!(market.offers.is_empty());
    assert_eq!(market.history.len(), 1);
}

#[test]
fn test_accept_nonexistent_offer() {
    let mut market = TradeMarket::new();
    let result = market.accept("nonexistent");
    assert!(result.is_err());
}

#[test]
fn test_reject_offer() {
    let mut market = TradeMarket::new();
    let id = market.create_offer(
        "alice",
        "bob",
        vec![Tradeable::Material("stone".to_string(), 3)],
        vec![Tradeable::Recipe("bread".to_string())],
    );
    market.reject(&id).unwrap();
    assert_eq!(market.offers[0].status, TradeStatus::Rejected);
}

#[test]
fn test_reject_twice_fails() {
    let mut market = TradeMarket::new();
    let id = market.create_offer(
        "alice",
        "bob",
        vec![Tradeable::Material("stone".to_string(), 3)],
        vec![Tradeable::Recipe("bread".to_string())],
    );
    market.reject(&id).unwrap();
    let result = market.reject(&id);
    assert!(result.is_err());
    assert_eq!(market.offers[0].status, TradeStatus::Rejected);
}

#[test]
fn test_accept_rejected_fails() {
    let mut market = TradeMarket::new();
    let id = market.create_offer(
        "alice",
        "bob",
        vec![Tradeable::Material("stone".to_string(), 3)],
        vec![Tradeable::Recipe("bread".to_string())],
    );
    market.reject(&id).unwrap();
    let result = market.accept(&id);
    assert!(result.is_err());
}

#[test]
fn test_find_offers_for() {
    let mut market = TradeMarket::new();
    market.create_offer("alice", "bob", vec![Tradeable::Material("iron".into(), 1)], vec![]);
    market.create_offer("carol", "bob", vec![Tradeable::Pet("dog".into(), 2)], vec![]);
    market.create_offer("bob", "alice", vec![Tradeable::Recipe("cake".into())], vec![]);

    let bob_offers = market.find_offers_for("bob");
    assert_eq!(bob_offers.len(), 2);
    assert_eq!(bob_offers[0].from, "alice");
    assert_eq!(bob_offers[1].from, "carol");
}

#[test]
fn test_find_offers_for_ignores_non_pending() {
    let mut market = TradeMarket::new();
    let id = market.create_offer(
        "alice",
        "bob",
        vec![Tradeable::Material("iron".into(), 1)],
        vec![],
    );
    market.reject(&id).unwrap();

    let bob_offers = market.find_offers_for("bob");
    assert!(bob_offers.is_empty());
}

#[test]
fn test_find_offers_wanting() {
    let mut market = TradeMarket::new();
    let iron = Tradeable::Material("iron".to_string(), 5);
    market.create_offer("alice", "bob", vec![Tradeable::Recipe("sword".into())], vec![iron.clone()]);
    market.create_offer("bob", "carol", vec![Tradeable::Agent("bot".into(), 0.5f64.to_bits())], vec![iron.clone()]);
    market.create_offer("dave", "eve", vec![Tradeable::Pet("cat".into(), 1)], vec![Tradeable::Material("wood".into(), 3)]);

    let results = market.find_offers_wanting(&iron);
    assert_eq!(results.len(), 2);
}

#[test]
fn test_find_offers_wanting_exact_match() {
    let mut market = TradeMarket::new();
    let specific_iron = Tradeable::Material("iron".to_string(), 5);
    let different_iron = Tradeable::Material("iron".to_string(), 10);

    market.create_offer(
        "alice",
        "bob",
        vec![Tradeable::Recipe("sword".into())],
        vec![specific_iron.clone()],
    );

    let results = market.find_offers_wanting(&different_iron);
    assert!(results.is_empty(), "Should not match: quantities differ");
}

#[test]
fn test_send_gift() {
    let mut market = TradeMarket::new();
    let gift = Gift {
        from: "alice".to_string(),
        to: "bob".to_string(),
        item: Tradeable::Pet("dragon".to_string(), 10),
        message: "Happy birthday!".to_string(),
    };
    market.send_gift(gift);
    assert_eq!(market.history.len(), 1);
    let ct = &market.history[0];
    assert_eq!(ct.offer.from, "alice");
    assert_eq!(ct.offer.to, "bob");
    assert_eq!(ct.offer.want.len(), 0);
}

#[test]
fn test_trade_stats_empty() {
    let stats = TradeStats::from_history(&[]);
    assert_eq!(stats.total_trades, 0);
    assert!(stats.by_type.is_empty());
    assert!(stats.most_active.is_none());
}

#[test]
fn test_trade_stats_with_trades() {
    let mut market = TradeMarket::new();
    market.create_offer(
        "alice",
        "bob",
        vec![Tradeable::Material("iron".to_string(), 5)],
        vec![Tradeable::Pet("dog".to_string(), 2)],
    );
    market.accept("offer-1").unwrap();

    let stats = TradeStats::from_history(&market.history);
    assert_eq!(stats.total_trades, 1);
    assert_eq!(*stats.by_type.get("material").unwrap(), 1);
    assert!(stats.most_active.is_some());
}

#[test]
fn test_trade_stats_by_type() {
    let mut market = TradeMarket::new();
    let id = market.create_offer(
        "alice",
        "bob",
        vec![
            Tradeable::Material("iron".to_string(), 5),
            Tradeable::Agent("bot".to_string(), 0.9f64.to_bits()),
            Tradeable::Knowledge("smithing".to_string(), 0.7f64.to_bits()),
            Tradeable::Recipe("sword".to_string()),
            Tradeable::Pet("wolf".to_string(), 3),
        ],
        vec![Tradeable::Material("gold".to_string(), 1)],
    );
    market.accept(&id).unwrap();

    let stats = TradeStats::from_history(&market.history);
    assert_eq!(stats.total_trades, 1);
    assert_eq!(*stats.by_type.get("material").unwrap(), 1);
    assert_eq!(*stats.by_type.get("agent").unwrap(), 1);
    assert_eq!(*stats.by_type.get("knowledge").unwrap(), 1);
    assert_eq!(*stats.by_type.get("recipe").unwrap(), 1);
    assert_eq!(*stats.by_type.get("pet").unwrap(), 1);
}

#[test]
fn test_trade_stats_most_active() {
    let mut market = TradeMarket::new();
    let id1 = market.create_offer(
        "alice",
        "bob",
        vec![Tradeable::Material("wood".to_string(), 3)],
        vec![Tradeable::Material("stone".to_string(), 3)],
    );
    market.accept(&id1).unwrap();

    let id2 = market.create_offer(
        "alice",
        "carol",
        vec![Tradeable::Material("iron".to_string(), 2)],
        vec![Tradeable::Pet("cat".to_string(), 1)],
    );
    market.accept(&id2).unwrap();

    let stats = TradeStats::from_history(&market.history);
    assert_eq!(stats.total_trades, 2);
    assert_eq!(stats.most_active.as_deref(), Some("alice"));
}

#[test]
fn test_new_market_is_empty() {
    let market = TradeMarket::new();
    assert!(market.offers.is_empty());
    assert!(market.history.is_empty());
}

#[test]
fn test_default_market_is_empty() {
    let market = TradeMarket::default();
    assert!(market.offers.is_empty());
    assert!(market.history.is_empty());
}

#[test]
fn test_multiple_offers_find_offers_for() {
    let mut market = TradeMarket::new();
    market.create_offer("alice", "bob", vec![Tradeable::Material("wood".into(), 5)], vec![]);
    market.create_offer("carol", "bob", vec![Tradeable::Pet("hamster".into(), 1)], vec![]);
    market.create_offer("dave", "bob", vec![Tradeable::Knowledge("coding".into(), 0.6f64.to_bits())], vec![]);

    let offers = market.find_offers_for("bob");
    assert_eq!(offers.len(), 3);
}

#[test]
fn test_accept_moves_to_history_and_clears_offers() {
    let mut market = TradeMarket::new();
    let id = market.create_offer(
        "alice",
        "bob",
        vec![Tradeable::Recipe("cake".into())],
        vec![Tradeable::Recipe("pie".into())],
    );
    market.accept(&id).unwrap();
    assert!(market.offers.is_empty());
    assert_eq!(market.history.len(), 1);
}

#[test]
fn test_gift_includes_message() {
    let mut market = TradeMarket::new();
    let gift = Gift {
        from: "eve".to_string(),
        to: "frank".to_string(),
        item: Tradeable::Knowledge("alchemy".to_string(), 0.99f64.to_bits()),
        message: "For your research".to_string(),
    };
    let msg = gift.message.clone();
    market.send_gift(gift);
    let ct = &market.history[0];
    assert_eq!(msg, "For your research");
    assert_eq!(ct.offer.from, "eve");
    assert_eq!(ct.offer.to, "frank");
}
