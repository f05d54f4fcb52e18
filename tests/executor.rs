use exchange_bot::executor::OrderExecutorBuilder;
use exchange_bot::money::Amount8Decimals;
use exchange_bot::types::{Direction, Exchange, PendingMarketOrder, PendingOrder};

fn order(exchange: Exchange) -> PendingOrder {
    PendingOrder::Market(PendingMarketOrder {
        exchange,
        direction: Direction::Buy,
        amount: Amount8Decimals::from_units(1),
        expected_return: Amount8Decimals::from_units(1),
    })
}

#[test]
fn orders_go_to_their_venue() {
    let executor = OrderExecutorBuilder::new()
        .with_exchange(Exchange::Bitrue, "bitrue")
        .with_exchange(Exchange::LBank, "lbank")
        .build();
    assert_eq!(executor.route(&order(Exchange::Bitrue)), Some(&"bitrue"));
    assert_eq!(executor.route(&order(Exchange::LBank)), Some(&"lbank"));
}

#[test]
fn missing_venue_drops_the_order() {
    let executor = OrderExecutorBuilder::new().with_exchange(Exchange::Bitrue, 1u8).build();
    assert_eq!(executor.route(&order(Exchange::LBank)), None);
    assert_eq!(executor.client_for(Exchange::Bitrue), Some(&1u8));
}

#[test]
fn later_client_replaces_earlier() {
    let executor = OrderExecutorBuilder::new()
        .with_exchange(Exchange::LBank, 1u8)
        .with_exchange(Exchange::LBank, 2u8)
        .build();
    assert_eq!(executor.client_for(Exchange::LBank), Some(&2u8));
}

#[test]
fn order_getters() {
    let o = order(Exchange::LBank);
    assert_eq!(o.exchange(), Exchange::LBank);
    assert!(o.direction().is_buy());
    assert!(!Direction::Sell.is_buy());
    assert_eq!(o.amount().units(), 1);
}
