use exchange_bot::book::OrderbookState;
use exchange_bot::cashout::Cashout;
use exchange_bot::money::{Amount8Decimals, Price4Decimals};
use exchange_bot::types::{Direction, Exchange, PendingOrder};
use std::str::FromStr;

fn amount(s: &str) -> Amount8Decimals {
    Amount8Decimals::from_str(s).unwrap()
}

fn price(s: &str) -> Price4Decimals {
    Price4Decimals::from_str(s).unwrap()
}

fn asks(levels: &[(&str, &str)]) -> Vec<(Price4Decimals, Amount8Decimals)> {
    let t: Vec<(String, String)> = levels.iter().map(|(p, a)| (p.to_string(), a.to_string())).collect();
    exchange_bot::book::side_from_text(&t).unwrap()
}

fn snapshot(exchange: Exchange, levels: &[(&str, &str)]) -> OrderbookState {
    OrderbookState { exchange, timestamp_ms: 0, asks: asks(levels), bids: Vec::new() }
}

#[test]
fn cashout_full_fill() {
    let c = Cashout::with_average_interval(1000, amount("2.00000000"), None);
    let r = c.calculate_return(&asks(&[("1.0000", "1"), ("1.5000", "2")])).unwrap();
    assert_eq!(r.units(), 250000000);
    assert_eq!(r.to_string(), "2.5");
}

#[test]
fn cashout_min_price_skips_deep_asks() {
    let c = Cashout::with_average_interval(1000, amount("2.00000000"), Some(price("1.2500")));
    assert!(c.calculate_return(&asks(&[("1.0000", "1"), ("1.5000", "2")])).is_none());
}

#[test]
fn cashout_partial_fill_is_none() {
    let c = Cashout::with_average_interval(1000, amount("5"), None);
    assert!(c.calculate_return(&asks(&[("1.0000", "1"), ("1.5000", "2")])).is_none());
    assert!(c.calculate_return(&Vec::new()).is_none());
}

#[test]
fn min_price_at_or_below_asks_changes_nothing() {
    let c = Cashout::with_average_interval(1000, amount("2"), Some(price("1.0")));
    assert_eq!(c.calculate_return(&asks(&[("1.0", "1"), ("1.5", "2")])).unwrap().units(), 250000000);
}

#[test]
fn identical_asks_give_identical_returns() {
    let c = Cashout::with_average_interval(1000, amount("3"), None);
    let l = [("0.5", "1"), ("0.7", "1"), ("0.9", "5")];
    assert_eq!(c.calculate_return(&asks(&l)), c.calculate_return(&asks(&l)));
}

#[test]
fn best_venue_selection() {
    let mut c = Cashout::with_average_interval(1000, amount("10"), None);
    c.on_snapshot(snapshot(Exchange::LBank, &[("1.0", "10")]));
    c.on_snapshot(snapshot(Exchange::Bitrue, &[("1.1", "10")]));
    match c.on_timer() {
        Some(PendingOrder::Market(o)) => {
            assert_eq!(o.exchange, Exchange::Bitrue);
            assert_eq!(o.direction, Direction::Sell);
            assert_eq!(o.amount, amount("10"));
            assert_eq!(o.expected_return, amount("11"));
        }
        other => panic!("unexpected {other:?}"),
    }
}

#[test]
fn no_asks_no_order() {
    let mut c = Cashout::with_average_interval(1000, amount("1"), None);
    assert!(c.on_timer().is_none());
    c.on_snapshot(snapshot(Exchange::LBank, &[("1.0", "0.5")]));
    assert!(c.on_timer().is_none());
    // a newer snapshot replaces the venue's asks
    c.on_snapshot(snapshot(Exchange::LBank, &[("1.0", "2")]));
    assert!(c.on_timer().is_some());
}

#[test]
fn average_interval_from_daily_amount() {
    let c = Cashout::new(amount("100"), amount("1"), None);
    assert_eq!(c.average_interval_ms(), 864000);
    assert_eq!(c.amount_per_iteration(), amount("1"));
    let d = Cashout::new(amount("100"), amount("100").percent(), None);
    assert_eq!(d.average_interval_ms(), 864000);
}
