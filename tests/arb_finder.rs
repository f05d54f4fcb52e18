use exchange_bot::arb_finder::ArbFinder;
use exchange_bot::book::OrderbookState;
use exchange_bot::types::{Direction, Exchange, PendingOrder};

fn book(exchange: Exchange, bids: &[(&str, &str)], asks: &[(&str, &str)]) -> OrderbookState {
    let t = |l: &[(&str, &str)]| l.iter().map(|(p, a)| (p.to_string(), a.to_string())).collect::<Vec<_>>();
    OrderbookState::from_text_levels(exchange, 0, &t(bids), &t(asks)).unwrap()
}

fn market(o: &PendingOrder) -> (Exchange, Direction, u128, u128) {
    match o {
        PendingOrder::Market(m) => (m.exchange, m.direction, m.amount.units(), m.expected_return.units()),
        PendingOrder::Limit(_) => panic!("expected a market order"),
    }
}

#[test]
fn crossed_books_emit_two_orders() {
    let mut finder = ArbFinder::new();
    let first = finder.on_update(book(Exchange::Bitrue, &[("1.0000", "10")], &[("1.1000", "10")]));
    assert!(first.is_empty());
    let orders = finder.on_update(book(Exchange::LBank, &[("1.2000", "5")], &[("1.3000", "5")]));
    assert_eq!(orders.len(), 2);
    // sell leg first, then buy leg
    assert_eq!(market(&orders[0]), (Exchange::LBank, Direction::Sell, 500000000, 600000000));
    assert_eq!(market(&orders[1]), (Exchange::Bitrue, Direction::Buy, 1000000000, 1100000000));
}

#[test]
fn uncrossed_books_emit_nothing() {
    let mut finder = ArbFinder::new();
    assert!(finder.on_update(book(Exchange::Bitrue, &[("1.0000", "3")], &[("1.5000", "3")])).is_empty());
    assert!(finder.on_update(book(Exchange::LBank, &[("1.2000", "3")], &[("1.6000", "3")])).is_empty());
}

#[test]
fn crossing_found_in_either_order() {
    // venue a bids above venue b's ask
    let a = || book(Exchange::LBank, &[("2.0", "1")], &[("2.1", "1")]);
    let b = || book(Exchange::Bitrue, &[("1.0", "1")], &[("1.5", "1")]);
    for (first, second, updated) in [(a(), b(), Exchange::Bitrue), (b(), a(), Exchange::LBank)] {
        let mut finder = ArbFinder::new();
        finder.on_update(first);
        finder.on_update(second);
        let arbs = finder.find_arbs(updated);
        assert!(arbs.iter().any(|x| x.buy.exchange == Exchange::Bitrue && x.sell.exchange == Exchange::LBank));
    }
}

#[test]
fn no_crossing_in_either_order() {
    let a = || book(Exchange::LBank, &[("1.0", "1")], &[("1.6", "1")]);
    let b = || book(Exchange::Bitrue, &[("1.1", "1")], &[("1.5", "1")]);
    for (first, second) in [(a(), b()), (b(), a())] {
        let mut finder = ArbFinder::new();
        assert!(finder.on_update(first).is_empty());
        assert!(finder.on_update(second).is_empty());
    }
}

#[test]
fn legs_never_share_a_venue() {
    let mut finder = ArbFinder::new();
    finder.on_update(book(Exchange::Bitrue, &[("1.0", "1")], &[("1.1", "1")]));
    // a self-crossed book of one venue finds nothing by itself
    let orders = finder.on_update(book(Exchange::Bitrue, &[("2.0", "1")], &[("1.0", "1")]));
    assert!(orders.is_empty());
    finder.on_update(book(Exchange::LBank, &[("3.0", "1")], &[("0.5", "1")]));
    for x in finder.find_arbs(Exchange::LBank) {
        assert_ne!(x.buy.exchange, x.sell.exchange);
    }
    assert_eq!(finder.find_arbs(Exchange::LBank).len(), 2);
}

#[test]
fn replaced_book_is_used() {
    let mut finder = ArbFinder::new();
    finder.on_update(book(Exchange::Bitrue, &[("1.0", "1")], &[("1.1", "1")]));
    finder.on_update(book(Exchange::Bitrue, &[("1.0", "1")], &[("1.4", "1")]));
    let orders = finder.on_update(book(Exchange::LBank, &[("1.2", "1")], &[("1.3", "1")]));
    assert!(orders.is_empty());
}

#[test]
fn one_sided_book_finds_nothing() {
    let mut finder = ArbFinder::new();
    finder.on_update(book(Exchange::Bitrue, &[("5.0", "1")], &[("5.1", "1")]));
    let orders = finder.on_update(book(Exchange::LBank, &[], &[("1.0", "1")]));
    assert!(orders.is_empty());
}
