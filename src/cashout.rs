//! The cashout strategy: keeps the latest ask ladder of each venue and, on
//! each timer tick, sells a fixed amount on the venue whose asks return the
//! most for it.

use vstd::prelude::*;

use crate::book::{ascending, Level, OrderbookState};
use crate::money::{amount_times_price, Amount8Decimals, Price4Decimals, PRICE_UNITS_PER_WHOLE};
use crate::types::{Direction, Exchange, PendingMarketOrder, PendingOrder};

verus! {

/// Milliseconds in a day.
pub const ONE_DAY_MS: u128 = 86400000;

/// What selling `remaining` amount units along the asks returns, on top of
/// `total`: each level gives the smaller of its amount and what is left, at
/// its price; the walk stops before the first level below `min_price`. `None`
/// when the walk ends before `remaining` is sold.
pub open spec fn walk_return(asks: Seq<Level>, remaining: nat, min_price: Option<Price4Decimals>, total: nat) -> Option<nat>
    decreases asks.len(),
{
    if asks.len() == 0 {
        None
    } else if min_price is Some && asks[0].0@ < min_price->0@ {
        None
    } else {
        let taken = if asks[0].1@ < remaining { asks[0].1@ } else { remaining };
        let sum = total + amount_times_price(taken, asks[0].0@);
        if remaining - taken == 0 {
            Some(sum)
        } else {
            walk_return(asks.skip(1), (remaining - taken) as nat, min_price, sum)
        }
    }
}

/// A minimum price only ends the walk early: a walk with it that sells the
/// whole amount returns what the walk without it returns, and it sells
/// nothing when the first ask is below the minimum.
pub proof fn lemma_min_price_only_cuts(asks: Seq<Level>, remaining: nat, min_price: Price4Decimals, total: nat)
    ensures
        walk_return(asks, remaining, Some(min_price), total) is Some ==> walk_return(asks, remaining, Some(min_price), total)
            == walk_return(asks, remaining, None, total),
        asks.len() > 0 && asks[0].0@ < min_price@ ==> walk_return(asks, remaining, Some(min_price), total) is None,
    decreases asks.len(),
{
    if asks.len() > 0 {
        let taken = if asks[0].1@ < remaining { asks[0].1@ } else { remaining };
        let sum = total + amount_times_price(taken, asks[0].0@);
        lemma_min_price_only_cuts(asks.skip(1), (remaining - taken) as nat, min_price, sum);
    }
}

/// Selling `amount` units along every price level fits in 128 bits.
pub open spec fn sale_fits(asks: Seq<Level>, amount: nat) -> bool {
    forall|i: int| 0 <= i < asks.len() ==> amount * (#[trigger] asks[i]).0@ <= u128::MAX
}

/// The asks held after a snapshot of venue `e` arrives.
pub open spec fn replace_asks(entries: Seq<(Exchange, Seq<Level>)>, e: Exchange, asks: Seq<Level>) -> Seq<(Exchange, Seq<Level>)> {
    if exists|i: int| 0 <= i < entries.len() && entries[i].0 == e {
        entries.update(choose|i: int| 0 <= i < entries.len() && entries[i].0 == e, (e, asks))
    } else {
        entries.push((e, asks))
    }
}

/// The venue whose asks return the most for `amount`, with that return; the
/// earliest held venue wins a tie.
pub open spec fn best_venue(entries: Seq<(Exchange, Seq<Level>)>, amount: nat, min_price: Option<Price4Decimals>) -> Option<(Exchange, nat)>
    decreases entries.len(),
{
    if entries.len() == 0 {
        None
    } else {
        let prev = best_venue(entries.drop_last(), amount, min_price);
        match walk_return(entries.last().1, amount, min_price, 0) {
            None => prev,
            Some(r) => match prev {
                Some(p) => if r > p.1 {
                    Some((entries.last().0, r))
                } else {
                    prev
                },
                None => Some((entries.last().0, r)),
            },
        }
    }
}

/// The chosen venue's asks give the chosen return, no venue's asks give more,
/// and there is a choice exactly when some venue's asks can take the amount.
pub proof fn lemma_best_venue_is_best(entries: Seq<(Exchange, Seq<Level>)>, amount: nat, min_price: Option<Price4Decimals>)
    ensures
        best_venue(entries, amount, min_price) is None <==> forall|i: int|
            0 <= i < entries.len() ==> walk_return(#[trigger] entries[i].1, amount, min_price, 0) is None,
        best_venue(entries, amount, min_price) matches Some(b) ==> exists|i: int|
            0 <= i < entries.len() && (#[trigger] entries[i]).0 == b.0
                && walk_return(entries[i].1, amount, min_price, 0) == Some(b.1),
        best_venue(entries, amount, min_price) matches Some(b) ==> forall|i: int|
            0 <= i < entries.len() && walk_return(#[trigger] entries[i].1, amount, min_price, 0) is Some
                ==> walk_return(entries[i].1, amount, min_price, 0)->0 <= b.1,
    decreases entries.len(),
{
    if entries.len() > 0 {
        let prefix = entries.drop_last();
        lemma_best_venue_is_best(prefix, amount, min_price);
        let last = entries.len() - 1;
        assert(entries[last] == entries.last());
        assert(forall|i: int| 0 <= i < prefix.len() ==> entries[i] == #[trigger] prefix[i]);
        if let Some(b) = best_venue(entries, amount, min_price) {
            assert forall|i: int| 0 <= i < entries.len() && walk_return(#[trigger] entries[i].1, amount, min_price, 0) is Some
                implies walk_return(entries[i].1, amount, min_price, 0)->0 <= b.1 by {
                if i < last {
                    assert(entries[i] == prefix[i]);
                    assert(walk_return(prefix[i].1, amount, min_price, 0) is Some);
                }
            }
            if best_venue(prefix, amount, min_price) == Some(b) {
                let j = choose|j: int| 0 <= j < prefix.len() && (#[trigger] prefix[j]).0 == b.0
                    && walk_return(prefix[j].1, amount, min_price, 0) == Some(b.1);
                assert(entries[j] == prefix[j]);
            } else {
                assert(entries[last].0 == b.0);
            }
        } else {
            assert forall|i: int| 0 <= i < entries.len() implies walk_return(#[trigger] entries[i].1, amount, min_price, 0) is None by {
                if i < last {
                    assert(entries[i] == prefix[i]);
                }
            }
        }
    }
}

pub struct Cashout {
    average_interval_ms: u64,
    amount_per_iteration: Amount8Decimals,
    min_price: Option<Price4Decimals>,
    asks_per_exchange: Vec<(Exchange, Vec<Level>)>,
}

/// The configuration and the held asks of a cashout.
pub struct CashoutView {
    pub average_interval_ms: nat,
    pub amount_per_iteration: nat,
    pub min_price: Option<Price4Decimals>,
    pub asks: Seq<(Exchange, Seq<Level>)>,
}

impl View for Cashout {
    type V = CashoutView;

    closed spec fn view(&self) -> CashoutView {
        CashoutView {
            average_interval_ms: self.average_interval_ms as nat,
            amount_per_iteration: self.amount_per_iteration@,
            min_price: self.min_price,
            asks: self.asks_per_exchange@.map_values(|e: (Exchange, Vec<Level>)| (e.0, e.1@)),
        }
    }
}

impl Cashout {
    /// Each venue appears once, and each held ladder ascends and can take the
    /// whole amount per iteration without overflow.
    pub open spec fn wf(&self) -> bool {
        &&& forall|i: int, j: int| 0 <= i < j < self@.asks.len() ==> self@.asks[i].0 != self@.asks[j].0
        &&& forall|i: int| 0 <= i < self@.asks.len() ==> ascending(#[trigger] self@.asks[i].1)
        &&& forall|i: int| 0 <= i < self@.asks.len() ==> sale_fits(#[trigger] self@.asks[i].1, self@.amount_per_iteration)
    }

    /// A cashout that sells `amount_per_iteration` at a time, on average
    /// `amount_per_day` a day: one day times the iteration amount over the
    /// daily amount between ticks.
    pub fn new(
        amount_per_day: Amount8Decimals,
        amount_per_iteration: Amount8Decimals,
        min_price: Option<Price4Decimals>,
    ) -> (r: Cashout)
        requires
            amount_per_day@ > 0,
            ONE_DAY_MS * amount_per_iteration@ <= u128::MAX,
            (ONE_DAY_MS as nat) * amount_per_iteration@ / amount_per_day@ <= u64::MAX,
        ensures
            r.wf(),
            r@.average_interval_ms == (ONE_DAY_MS as nat) * amount_per_iteration@ / amount_per_day@,
            r@.amount_per_iteration == amount_per_iteration@,
            r@.min_price == min_price,
            r@.asks.len() == 0,
    {
        let interval = ONE_DAY_MS * amount_per_iteration.units() / amount_per_day.units();
        Self::with_average_interval(interval as u64, amount_per_iteration, min_price)
    }

    /// A cashout with an explicit mean time between ticks.
    pub fn with_average_interval(
        average_interval_ms: u64,
        amount_per_iteration: Amount8Decimals,
        min_price: Option<Price4Decimals>,
    ) -> (r: Cashout)
        ensures
            r.wf(),
            r@.average_interval_ms == average_interval_ms,
            r@.amount_per_iteration == amount_per_iteration@,
            r@.min_price == min_price,
            r@.asks.len() == 0,
    {
        let r = Cashout { average_interval_ms, amount_per_iteration, min_price, asks_per_exchange: Vec::new() };
        assert(r@.asks =~= Seq::<(Exchange, Seq<Level>)>::empty());
        r
    }

    pub fn average_interval_ms(&self) -> (r: u64)
        ensures
            r == self@.average_interval_ms,
    {
        self.average_interval_ms
    }

    pub fn amount_per_iteration(&self) -> (r: Amount8Decimals)
        ensures
            r@ == self@.amount_per_iteration,
    {
        self.amount_per_iteration
    }

    /// What selling the amount per iteration along `asks` returns, or `None`
    /// when the asks (down to the minimum price) cannot take all of it.
    pub fn calculate_return(&self, asks: &Vec<Level>) -> (r: Option<Amount8Decimals>)
        requires
            ascending(asks@),
            sale_fits(asks@, self@.amount_per_iteration),
        ensures
            r is Some == walk_return(asks@, self@.amount_per_iteration, self@.min_price, 0) is Some,
            r matches Some(a) ==> a@ == walk_return(asks@, self@.amount_per_iteration, self@.min_price, 0)->0,
    {
        let ghost api = self.amount_per_iteration@;
        let ghost mp = self.min_price;
        let ghost whole = walk_return(asks@, api, mp, 0);
        let mut total: u128 = 0;
        let mut remaining: u128 = self.amount_per_iteration.units();
        let mut i: usize = 0;
        assert(asks@.skip(0) =~= asks@);
        while i < asks.len()
            invariant
                ascending(asks@),
                sale_fits(asks@, api),
                api == self.amount_per_iteration@,
                mp == self.min_price,
                i <= asks@.len(),
                remaining <= api,
                i == 0 ==> total == 0 && remaining == api,
                i > 0 ==> total * PRICE_UNITS_PER_WHOLE <= (api - remaining) * asks@[i - 1].0@,
                whole == walk_return(asks@.skip(i as int), remaining as nat, mp, total as nat),
                whole == walk_return(asks@, api, mp, 0),
            decreases asks@.len() - i,
        {
            let (price, amount) = asks[i];
            proof {
                assert(asks@.skip(i as int)[0] == asks@[i as int]);
                assert(asks@.skip(i as int).skip(1) =~= asks@.skip(i + 1));
            }
            if let Some(m) = self.min_price {
                if price.units() < m.units() {
                    return None;
                }
            }
            let taken = if amount.units() < remaining { amount.units() } else { remaining };
            let ghost p = price@;
            proof {
                assert(api * p <= u128::MAX);
                assert(taken * p <= api * p) by (nonlinear_arith)
                    requires
                        taken <= api,
                ;
                if i > 0 {
                    let q = asks@[i - 1].0@;
                    assert(q < p);
                    assert((api - remaining) * q <= (api - remaining) * p) by (nonlinear_arith)
                        requires
                            q < p,
                            remaining <= api,
                    ;
                }
                assert((taken * p / 10000) * 10000 <= taken * p) by (nonlinear_arith);
                assert((api - remaining) * p + taken * p == (api - remaining + taken) * p) by (nonlinear_arith);
                assert((api - remaining + taken) * p <= api * p) by (nonlinear_arith)
                    requires
                        taken <= remaining,
                        remaining <= api,
                ;
            }
            let gain = Amount8Decimals::from_units(taken).mul_price(price);
            total = total + gain.units();
            remaining = remaining - taken;
            if remaining == 0 {
                return Some(Amount8Decimals::from_units(total));
            }
            i = i + 1;
        }
        None
    }

    /// Tells whether the snapshot can be held: well formed, and every ask
    /// can take the amount per iteration without overflow.
    pub fn can_hold(&self, state: &OrderbookState) -> (r: bool)
        ensures
            r == (state.wf() && sale_fits(state.asks@, self@.amount_per_iteration)),
    {
        if !state.is_wf() {
            return false;
        }
        let amount = self.amount_per_iteration.units();
        let mut i: usize = 0;
        while i < state.asks.len()
            invariant
                i <= state.asks@.len(),
                amount == self@.amount_per_iteration,
                forall|j: int| 0 <= j < i ==> amount * (#[trigger] state.asks@[j]).0@ <= u128::MAX,
            decreases state.asks@.len() - i,
        {
            if amount.checked_mul(state.asks[i].0.units()).is_none() {
                return false;
            }
            i = i + 1;
        }
        true
    }

    /// Holds the asks of a new snapshot in place of those of its venue.
    pub fn on_snapshot(&mut self, state: OrderbookState)
        requires
            old(self).wf(),
            state.wf(),
            sale_fits(state.asks@, old(self)@.amount_per_iteration),
        ensures
            final(self).wf(),
            final(self)@.asks == replace_asks(old(self)@.asks, state.exchange, state.asks@),
            final(self)@.average_interval_ms == old(self)@.average_interval_ms,
            final(self)@.amount_per_iteration == old(self)@.amount_per_iteration,
            final(self)@.min_price == old(self)@.min_price,
    {
        let exchange = state.exchange;
        let ghost old_asks = self@.asks;
        let ghost new_asks = state.asks@;
        let n = self.asks_per_exchange.len();
        let mut i: usize = 0;
        while i < n && self.asks_per_exchange[i].0 != exchange
            invariant
                i <= n,
                n == self@.asks.len(),
                self@.asks == old_asks,
                forall|j: int, k: int| 0 <= j < k < old_asks.len() ==> old_asks[j].0 != old_asks[k].0,
                forall|j: int| 0 <= j < i ==> old_asks[j].0 != exchange,
            decreases n - i,
        {
            i = i + 1;
        }
        proof {
            if i < n {
                assert(old_asks[i as int].0 == exchange);
                let c = choose|j: int| 0 <= j < old_asks.len() && old_asks[j].0 == exchange;
                assert(c == i as int);
            } else {
                assert(!exists|j: int| 0 <= j < old_asks.len() && old_asks[j].0 == exchange);
            }
        }
        if i < n {
            self.asks_per_exchange.set(i, (exchange, state.asks));
        } else {
            self.asks_per_exchange.push((exchange, state.asks));
        }
        assert(self@.asks =~= replace_asks(old_asks, exchange, new_asks));
    }

    /// The venue whose asks return the most for the amount per iteration,
    /// with that return; `None` when no venue's asks can take all of it.
    pub fn best_return(&self) -> (r: Option<(Exchange, Amount8Decimals)>)
        requires
            self.wf(),
        ensures
            r is Some == best_venue(self@.asks, self@.amount_per_iteration, self@.min_price) is Some,
            r matches Some(b) ==> best_venue(self@.asks, self@.amount_per_iteration, self@.min_price) == Some((b.0, b.1@)),
    {
        let ghost entries = self@.asks;
        let ghost api = self@.amount_per_iteration;
        let ghost mp = self@.min_price;
        let mut best: Option<(Exchange, Amount8Decimals)> = None;
        let mut i: usize = 0;
        while i < self.asks_per_exchange.len()
            invariant
                self.wf(),
                entries == self@.asks,
                api == self@.amount_per_iteration,
                mp == self@.min_price,
                i <= entries.len(),
                best is Some == best_venue(entries.take(i as int), api, mp) is Some,
                best matches Some(b) ==> best_venue(entries.take(i as int), api, mp) == Some((b.0, b.1@)),
            decreases entries.len() - i,
        {
            let entry = &self.asks_per_exchange[i];
            proof {
                assert(entries.take(i + 1).drop_last() =~= entries.take(i as int));
                assert(entries.take(i + 1).last() == entries[i as int]);
                assert(entries[i as int].1 == entry.1@);
            }
            let r = self.calculate_return(&entry.1);
            match r {
                Some(ret) => {
                    match best {
                        Some(b) => {
                            if ret.units() > b.1.units() {
                                best = Some((entry.0, ret));
                            }
                        },
                        None => {
                            best = Some((entry.0, ret));
                        },
                    }
                },
                None => {},
            }
            i = i + 1;
        }
        assert(entries.take(entries.len() as int) =~= entries);
        best
    }

    /// On a timer tick: the sell order to emit, on the venue with the best
    /// return, or `None` when no venue can take the amount.
    pub fn on_timer(&self) -> (r: Option<PendingOrder>)
        requires
            self.wf(),
        ensures
            r is Some == best_venue(self@.asks, self@.amount_per_iteration, self@.min_price) is Some,
            r matches Some(o) ==> {
                let b = best_venue(self@.asks, self@.amount_per_iteration, self@.min_price)->0;
                o == PendingOrder::Market(
                    PendingMarketOrder {
                        exchange: b.0,
                        direction: Direction::Sell,
                        amount: Amount8Decimals { units: self@.amount_per_iteration as u128 },
                        expected_return: Amount8Decimals { units: b.1 as u128 },
                    },
                )
            },
    {
        match self.best_return() {
            Some((exchange, expected_return)) => Some(
                PendingOrder::Market(
                    PendingMarketOrder {
                        exchange,
                        direction: Direction::Sell,
                        amount: self.amount_per_iteration,
                        expected_return,
                    },
                ),
            ),
            None => None,
        }
    }
}

} // verus!
