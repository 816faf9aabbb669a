//! Concrete checks of the market's laws, formulas, edge cases and errors.
use lau_trading::text::{decimal_text, gift_id_text, offer_id_text};
use lau_trading::item::level_eq;
use lau_trading::{Gift, Tally, TradeMarket, TradeStats, TradeStatus, Tradeable};

fn iron(n: usize) -> Tradeable {
    Tradeable::Material("iron".to_string(), n)
}

#[test]
fn ids_count_every_record_held() {
    let mut market = TradeMarket::new();
    assert_eq!(market.create_offer("a", "b", vec![iron(1)], vec![]), "offer-1");
    assert_eq!(market.create_offer("a", "b", vec![iron(1)], vec![]), "offer-2");
    market.send_gift(Gift {
        from: "c".to_string(),
        to: "d".to_string(),
        item: iron(2),
        message: "hi".to_string(),
    });
    assert_eq!(market.history[0].offer.id, "gift-3");
    assert_eq!(market.history[0].completed_tick, 3);
    assert_eq!(market.create_offer("a", "b", vec![], vec![]), "offer-4");
}

#[test]
fn decimal_numbers_have_no_leading_zeros() {
    assert_eq!(decimal_text(0), "0");
    assert_eq!(decimal_text(7), "7");
    assert_eq!(decimal_text(10), "10");
    assert_eq!(decimal_text(1203), "1203");
    assert_eq!(offer_id_text(12), "offer-12");
    assert_eq!(gift_id_text(100), "gift-100");
}

#[test]
fn tenth_offer_is_offer_10() {
    let mut market = TradeMarket::new();
    let mut last = String::new();
    for _ in 0..10 {
        last = market.create_offer("a", "b", vec![], vec![]);
    }
    assert_eq!(last, "offer-10");
}

#[test]
fn accept_records_offer_with_tick() {
    let mut market = TradeMarket::new();
    market.create_offer("a", "b", vec![iron(1)], vec![]);
    let id = market.create_offer("c", "d", vec![iron(2)], vec![iron(3)]);
    let done = market.accept(&id).unwrap();
    assert_eq!(done.offer.id, "offer-2");
    assert_eq!(done.offer.from, "c");
    assert_eq!(done.offer.status, TradeStatus::Accepted);
    assert_eq!(done.completed_tick, 2);
    assert_eq!(market.offers.len(), 1);
    assert_eq!(market.history.len(), 1);
    assert_eq!(market.history[0], done);
}

#[test]
fn accept_unknown_reports_not_found() {
    let mut market = TradeMarket::new();
    market.create_offer("a", "b", vec![], vec![]);
    let err = market.accept("offer-9").unwrap_err();
    assert_eq!(err, "Offer offer-9 not found");
    assert_eq!(market.offers.len(), 1);
}

#[test]
fn reject_unknown_reports_not_found() {
    let mut market = TradeMarket::new();
    assert_eq!(market.reject("x").unwrap_err(), "Offer x not found");
}

#[test]
fn rejected_offer_cannot_be_accepted_and_stays() {
    let mut market = TradeMarket::new();
    let id = market.create_offer("a", "b", vec![iron(1)], vec![]);
    market.reject(&id).unwrap();
    let before = market.clone();
    let err = market.accept(&id).unwrap_err();
    assert_eq!(err, "Offer offer-1 is not pending (status: Rejected)");
    // a failed accept changes nothing: the rejected offer stays among the offers
    assert_eq!(market, before);
    assert_eq!(market.offers.len(), 1);
    assert_eq!(market.offers[0].status, TradeStatus::Rejected);
    assert!(market.history.is_empty());
}

#[test]
fn reject_twice_reports_status() {
    let mut market = TradeMarket::new();
    let id = market.create_offer("a", "b", vec![], vec![]);
    market.reject(&id).unwrap();
    assert_eq!(
        market.reject(&id).unwrap_err(),
        "Offer offer-1 is not pending (status: Rejected)"
    );
    assert_eq!(market.offers.len(), 1);
}

#[test]
fn expired_offer_reports_expired() {
    let mut market = TradeMarket::new();
    let id = market.create_offer("a", "b", vec![], vec![]);
    market.offers[0].status = TradeStatus::Expired;
    assert_eq!(
        market.reject(&id).unwrap_err(),
        "Offer offer-1 is not pending (status: Expired)"
    );
}

#[test]
fn first_offer_with_an_id_is_the_one_settled() {
    let mut market = TradeMarket::new();
    market.create_offer("a", "b", vec![iron(1)], vec![]);
    market.create_offer("c", "d", vec![iron(2)], vec![]);
    market.offers[1].id = "offer-1".to_string();
    market.reject("offer-1").unwrap();
    assert_eq!(market.offers[0].status, TradeStatus::Rejected);
    assert_eq!(market.offers[1].status, TradeStatus::Pending);
}

#[test]
fn ids_stay_fresh_after_a_failed_accept() {
    let mut market = TradeMarket::new();
    market.create_offer("a", "b", vec![], vec![]);
    market.create_offer("c", "d", vec![], vec![]);
    market.reject("offer-1").unwrap();
    assert!(market.accept("offer-1").is_err());
    let id = market.create_offer("e", "f", vec![], vec![]);
    assert_eq!(id, "offer-3");
    let ids: Vec<&str> = market.offers.iter().map(|o| o.id.as_str()).collect();
    assert_eq!(ids, vec!["offer-1", "offer-2", "offer-3"]);
}

#[test]
fn second_accept_is_not_found() {
    let mut market = TradeMarket::new();
    let id = market.create_offer("a", "b", vec![], vec![]);
    market.accept(&id).unwrap();
    let before = market.clone();
    assert_eq!(market.accept(&id).unwrap_err(), "Offer offer-1 not found");
    assert_eq!(market, before);
    assert_eq!(market.history.iter().filter(|c| c.offer.id == id).count(), 1);
}

#[test]
fn accepted_records_live_in_history_only() {
    let mut market = TradeMarket::new();
    let a = market.create_offer("a", "b", vec![], vec![]);
    let b = market.create_offer("c", "d", vec![], vec![]);
    market.create_offer("e", "f", vec![], vec![]);
    market.accept(&a).unwrap();
    market.reject(&b).unwrap();
    market.send_gift(Gift {
        from: "g".to_string(),
        to: "h".to_string(),
        item: iron(1),
        message: String::new(),
    });
    assert!(market.history.iter().all(|c| c.offer.status == TradeStatus::Accepted));
    assert!(market.offers.iter().all(|o| o.status != TradeStatus::Accepted));
}

#[test]
fn stats_add_up_over_concatenated_histories() {
    let mut market = TradeMarket::new();
    let a = market.create_offer("a", "b", vec![iron(1), Tradeable::Pet("p".to_string(), 1)], vec![]);
    market.accept(&a).unwrap();
    let b = market.create_offer("c", "d", vec![iron(2)], vec![]);
    market.accept(&b).unwrap();
    let whole = TradeStats::from_history(&market.history);
    let first = TradeStats::from_history(&market.history[..1]);
    let second = TradeStats::from_history(&market.history[1..]);
    assert_eq!(whole.total_trades, first.total_trades + second.total_trades);
    for k in ["material", "pet", "agent"] {
        let count = |s: &TradeStats| s.by_type.get(k).copied().unwrap_or(0);
        assert_eq!(count(&whole), count(&first) + count(&second));
    }
}

#[test]
fn tallies_compare_as_maps() {
    let a = Tally { entries: vec![("pet".to_string(), 1), ("material".to_string(), 2)] };
    let b = Tally { entries: vec![("material".to_string(), 2), ("pet".to_string(), 1)] };
    let c = Tally { entries: vec![("material".to_string(), 2), ("pet".to_string(), 3)] };
    assert_eq!(a, b);
    assert!(a != c);
    assert!(a != Tally::new());
}

#[test]
fn history_only_grows() {
    let mut market = TradeMarket::new();
    let a = market.create_offer("a", "b", vec![iron(1)], vec![]);
    let b = market.create_offer("b", "c", vec![iron(2)], vec![]);
    market.accept(&a).unwrap();
    let first = market.history[0].clone();
    market.reject(&b).unwrap();
    market.send_gift(Gift {
        from: "x".to_string(),
        to: "y".to_string(),
        item: iron(3),
        message: String::new(),
    });
    assert!(market.accept(&b).is_err());
    assert_eq!(market.history.len(), 2);
    assert_eq!(market.history[0], first);
}

#[test]
fn gift_record_has_one_item_and_no_want() {
    let mut market = TradeMarket::new();
    market.create_offer("a", "b", vec![], vec![]);
    market.send_gift(Gift {
        from: "eve".to_string(),
        to: "frank".to_string(),
        item: Tradeable::Pet("cat".to_string(), 2),
        message: "hello".to_string(),
    });
    let ct = &market.history[0];
    assert_eq!(ct.offer.id, "gift-2");
    assert_eq!(ct.offer.give, vec![Tradeable::Pet("cat".to_string(), 2)]);
    assert!(ct.offer.want.is_empty());
    assert_eq!(ct.offer.status, TradeStatus::Accepted);
    assert_eq!(ct.completed_tick, 2);
    assert_eq!(market.offers.len(), 1);
}

#[test]
fn created_offer_is_found_last() {
    let mut market = TradeMarket::new();
    market.create_offer("a", "bob", vec![iron(1)], vec![]);
    market.create_offer("c", "bob", vec![iron(2)], vec![]);
    let found = market.find_offers_for("bob");
    assert_eq!(found.len(), 2);
    assert_eq!(found[1].id, "offer-2");
    assert!(market.find_offers_for("nobody").is_empty());
}

#[test]
fn wanting_skips_non_pending() {
    let mut market = TradeMarket::new();
    let id = market.create_offer("a", "b", vec![], vec![iron(5)]);
    market.create_offer("c", "d", vec![], vec![iron(5)]);
    market.reject(&id).unwrap();
    let found = market.find_offers_wanting(&iron(5));
    assert_eq!(found.len(), 1);
    assert_eq!(found[0].from, "c");
}

#[test]
fn levels_compare_as_floats() {
    let zero = 0.0f64.to_bits();
    let neg_zero = (-0.0f64).to_bits();
    let nan = f64::NAN.to_bits();
    assert!(level_eq(zero, neg_zero));
    assert!(!level_eq(nan, nan));
    assert!(level_eq(0.5f64.to_bits(), 0.5f64.to_bits()));
    assert!(!level_eq(0.5f64.to_bits(), 0.25f64.to_bits()));
    assert!(!level_eq(f64::INFINITY.to_bits(), f64::NEG_INFINITY.to_bits()));
    assert!(level_eq(f64::INFINITY.to_bits(), f64::INFINITY.to_bits()));
}

#[test]
fn item_equality_follows_kind_name_and_number() {
    let nan_agent = Tradeable::Agent("bot".to_string(), f64::NAN.to_bits());
    assert!(nan_agent != nan_agent.clone());
    assert_eq!(
        Tradeable::Knowledge("k".to_string(), 0.0f64.to_bits()),
        Tradeable::Knowledge("k".to_string(), (-0.0f64).to_bits())
    );
    assert!(Tradeable::Recipe("a".to_string()) != Tradeable::Recipe("b".to_string()));
    assert!(Tradeable::Pet("a".to_string(), 1) != Tradeable::Material("a".to_string(), 1));
}

#[test]
fn wanting_a_nan_level_finds_nothing() {
    let mut market = TradeMarket::new();
    let bot = Tradeable::Agent("bot".to_string(), f64::NAN.to_bits());
    market.create_offer("a", "b", vec![], vec![bot.clone()]);
    assert!(market.find_offers_wanting(&bot).is_empty());
}

#[test]
fn most_active_tie_goes_to_first_seen() {
    let mut market = TradeMarket::new();
    let a = market.create_offer("bob", "alice", vec![], vec![]);
    market.accept(&a).unwrap();
    let b = market.create_offer("carol", "dave", vec![], vec![]);
    market.accept(&b).unwrap();
    let stats = TradeStats::from_history(&market.history);
    assert_eq!(stats.most_active.as_deref(), Some("bob"));
}

#[test]
fn most_active_counts_both_sides() {
    let mut market = TradeMarket::new();
    for (from, to) in [("a", "b"), ("c", "b"), ("a", "d"), ("e", "b")] {
        let id = market.create_offer(from, to, vec![], vec![]);
        market.accept(&id).unwrap();
    }
    let stats = TradeStats::from_history(&market.history);
    assert_eq!(stats.total_trades, 4);
    assert_eq!(stats.most_active.as_deref(), Some("b"));
}

#[test]
fn by_type_counts_given_items_only_in_first_seen_order() {
    let mut market = TradeMarket::new();
    let a = market.create_offer(
        "a",
        "b",
        vec![Tradeable::Pet("p".to_string(), 1), iron(1), Tradeable::Pet("q".to_string(), 2)],
        vec![Tradeable::Recipe("r".to_string())],
    );
    market.accept(&a).unwrap();
    market.send_gift(Gift {
        from: "c".to_string(),
        to: "d".to_string(),
        item: Tradeable::Knowledge("k".to_string(), 1.0f64.to_bits()),
        message: String::new(),
    });
    let stats = TradeStats::from_history(&market.history);
    assert_eq!(stats.by_type.len(), 3);
    assert_eq!(stats.by_type.entry(0), ("pet", 2));
    assert_eq!(stats.by_type.entry(1), ("material", 1));
    assert_eq!(stats.by_type.entry(2), ("knowledge", 1));
    assert_eq!(stats.by_type.get("recipe"), None);
    let total: u64 = (0..stats.by_type.len()).map(|i| stats.by_type.entry(i).1).sum();
    assert_eq!(total, 4);
}

#[test]
fn empty_tally_has_nothing() {
    let t = Tally::new();
    assert!(t.is_empty());
    assert_eq!(t.len(), 0);
    assert_eq!(t.get("material"), None);
}

#[test]
fn fairness_compares_item_counts() {
    let mut market = TradeMarket::new();
    market.create_offer("a", "b", vec![iron(1)], vec![]);
    market.create_offer("a", "b", vec![], vec![]);
    assert!(!market.offers[0].is_fair());
    assert!(market.offers[1].is_fair());
}

#[test]
fn default_equals_new() {
    assert_eq!(TradeMarket::default(), TradeMarket::new());
}
