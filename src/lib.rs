//! Core of a cross-exchange trading bot: fixed-point money types, order-book
//! snapshots, the arbitrage and cashout strategies, order dispatch, and the
//! venue-specific framing and request signing.

pub mod money;
pub mod types;
pub mod book;
pub mod arb_finder;
pub mod cashout;
pub mod executor;
pub mod feed;
pub mod signing;
