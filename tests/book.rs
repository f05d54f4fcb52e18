use exchange_bot::book::{insert_level, side_from_text, OrderbookState};
use exchange_bot::money::{Amount8Decimals, Price4Decimals};
use exchange_bot::types::Exchange;

fn text(levels: &[(&str, &str)]) -> Vec<(String, String)> {
    levels.iter().map(|(p, a)| (p.to_string(), a.to_string())).collect()
}

fn units(side: &[(Price4Decimals, Amount8Decimals)]) -> Vec<(u128, u128)> {
    side.iter().map(|(p, a)| (p.units(), a.units())).collect()
}

#[test]
fn sides_are_sorted_ascending() {
    let bids = text(&[("1.2", "1"), ("1.0", "2"), ("1.1", "3")]);
    let side = side_from_text(&bids).unwrap();
    assert_eq!(units(&side), vec![(10000, 200000000), (11000, 300000000), (12000, 100000000)]);
}

#[test]
fn later_level_replaces_earlier_at_same_price() {
    let asks = text(&[("1.5", "1"), ("1.50", "4")]);
    let side = side_from_text(&asks).unwrap();
    assert_eq!(units(&side), vec![(15000, 400000000)]);
}

#[test]
fn malformed_or_zero_levels_refuse_the_side() {
    assert!(side_from_text(&text(&[("1.0", "1"), ("x", "1")])).is_none());
    assert!(side_from_text(&text(&[("1.0", "0")])).is_none());
    assert!(side_from_text(&text(&[("0", "1")])).is_none());
    assert!(side_from_text(&text(&[])).unwrap().is_empty());
}

#[test]
fn best_bid_and_best_ask() {
    let st = OrderbookState::from_text_levels(
        Exchange::Bitrue,
        42,
        &text(&[("0.9", "1"), ("1.0", "10")]),
        &text(&[("1.2", "7"), ("1.1", "10")]),
    )
    .unwrap();
    assert_eq!(st.timestamp_ms, 42);
    let bid = st.best_bid().unwrap();
    assert_eq!((bid.exchange, bid.price.units(), bid.amount.units()), (Exchange::Bitrue, 10000, 1000000000));
    let ask = st.best_ask().unwrap();
    assert_eq!((ask.exchange, ask.price.units(), ask.amount.units()), (Exchange::Bitrue, 11000, 1000000000));
}

#[test]
fn empty_sides_have_no_top() {
    let st = OrderbookState::from_text_levels(Exchange::LBank, 0, &text(&[]), &text(&[])).unwrap();
    assert!(st.best_bid().is_none());
    assert!(st.best_ask().is_none());
}

#[test]
fn insert_keeps_order() {
    let mut side = Vec::new();
    for (p, a) in [(5u128, 1u128), (1, 2), (3, 3), (5, 4)] {
        insert_level(&mut side, Price4Decimals::from_units(p), Amount8Decimals::from_units(a));
    }
    assert_eq!(units(&side), vec![(1, 2), (3, 3), (5, 4)]);
}
