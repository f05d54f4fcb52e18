//! Venues, quotes and the orders that the strategies emit.

use vstd::prelude::*;

use crate::money::{Amount8Decimals, Price4Decimals};

verus! {

/// A venue. Equality, order and hashing go by the tag.
#[derive(Copy, Clone, Debug, PartialEq, Eq, Structural, PartialOrd, Ord, Hash)]
pub enum Exchange {
    LBank,
    Bitrue,
}

#[derive(Copy, Clone, Debug, PartialEq, Eq, Structural)]
pub enum Direction {
    Buy,
    Sell,
}

impl Direction {
    pub fn is_buy(&self) -> (r: bool)
        ensures
            r == (*self == Direction::Buy),
    {
        match self {
            Direction::Buy => true,
            Direction::Sell => false,
        }
    }
}

/// One side of a book's top: a venue, a price and the quantity offered there.
#[derive(Copy, Clone, Debug, PartialEq, Eq, Structural)]
pub struct Order {
    pub exchange: Exchange,
    pub price: Price4Decimals,
    pub amount: Amount8Decimals,
}

/// A crossing between two venues: buy at `buy`, sell at `sell`.
#[derive(Copy, Clone, Debug, PartialEq, Eq, Structural)]
pub struct ArbOpportunity {
    pub buy: Order,
    pub sell: Order,
}

#[derive(Copy, Clone, Debug, PartialEq, Eq, Structural)]
pub struct PendingLimitOrder {
    pub exchange: Exchange,
    pub direction: Direction,
    pub amount: Amount8Decimals,
    pub price: Price4Decimals,
}

/// A market order; `expected_return` is advisory and not checked downstream.
#[derive(Copy, Clone, Debug, PartialEq, Eq, Structural)]
pub struct PendingMarketOrder {
    pub exchange: Exchange,
    pub direction: Direction,
    pub amount: Amount8Decimals,
    pub expected_return: Amount8Decimals,
}

#[derive(Copy, Clone, Debug, PartialEq, Eq, Structural)]
pub enum PendingOrder {
    Limit(PendingLimitOrder),
    Market(PendingMarketOrder),
}

impl PendingOrder {
    pub open spec fn spec_exchange(&self) -> Exchange {
        match self {
            PendingOrder::Limit(o) => o.exchange,
            PendingOrder::Market(o) => o.exchange,
        }
    }

    pub open spec fn spec_direction(&self) -> Direction {
        match self {
            PendingOrder::Limit(o) => o.direction,
            PendingOrder::Market(o) => o.direction,
        }
    }

    pub open spec fn spec_amount(&self) -> Amount8Decimals {
        match self {
            PendingOrder::Limit(o) => o.amount,
            PendingOrder::Market(o) => o.amount,
        }
    }

    pub fn exchange(&self) -> (r: Exchange)
        ensures
            r == self.spec_exchange(),
    {
        match self {
            PendingOrder::Limit(o) => o.exchange,
            PendingOrder::Market(o) => o.exchange,
        }
    }

    pub fn direction(&self) -> (r: Direction)
        ensures
            r == self.spec_direction(),
    {
        match self {
            PendingOrder::Limit(o) => o.direction,
            PendingOrder::Market(o) => o.direction,
        }
    }

    pub fn amount(&self) -> (r: Amount8Decimals)
        ensures
            r == self.spec_amount(),
    {
        match self {
            PendingOrder::Limit(o) => o.amount,
            PendingOrder::Market(o) => o.amount,
        }
    }
}

} // verus!
