//! The arbitrage finder: keeps the latest book of each venue and, on every
//! update, looks for a price crossing between the updated book and each other
//! venue's book.

use vstd::prelude::*;

use crate::book::{Level, OrderbookState};
use crate::money::{amount_times_price, Amount8Decimals};
use crate::types::{ArbOpportunity, Direction, Exchange, Order, PendingMarketOrder, PendingOrder};

verus! {

/// Every level's amount times its price fits in 128 bits.
pub open spec fn products_fit(s: Seq<Level>) -> bool {
    forall|i: int| 0 <= i < s.len() ==> #[trigger] s[i].1@ * s[i].0@ <= u128::MAX
}

/// A book that the finder can hold: well formed, with products that fit.
pub open spec fn usable_book(st: OrderbookState) -> bool {
    &&& st.wf()
    &&& products_fit(st.asks@)
    &&& products_fit(st.bids@)
}

/// At most one book per venue.
pub open spec fn venues_unique(states: Seq<OrderbookState>) -> bool {
    forall|i: int, j: int| 0 <= i < j < states.len() ==> states[i].exchange != states[j].exchange
}

pub open spec fn has_venue(states: Seq<OrderbookState>, e: Exchange) -> bool {
    exists|i: int| 0 <= i < states.len() && states[i].exchange == e
}

/// The held books after `u` arrives: it replaces the book of its venue, or
/// joins the others when its venue had none.
pub open spec fn replace_state(states: Seq<OrderbookState>, u: OrderbookState) -> Seq<OrderbookState> {
    if has_venue(states, u.exchange) {
        states.update(choose|i: int| 0 <= i < states.len() && states[i].exchange == u.exchange, u)
    } else {
        states.push(u)
    }
}

/// The book held for venue `e`.
pub open spec fn state_of(states: Seq<OrderbookState>, e: Exchange) -> Option<OrderbookState> {
    if has_venue(states, e) {
        Some(states[choose|i: int| 0 <= i < states.len() && states[i].exchange == e])
    } else {
        None
    }
}

/// Crossings between an updated book, whose top is `bid` and `ask`, and
/// another book: its bid above `ask`, then its ask below `bid`.
pub open spec fn arbs_with(bid: Order, ask: Order, other: OrderbookState) -> Seq<ArbOpportunity> {
    let first = match other.spec_best_bid() {
        Some(b) => if b.price@ > ask.price@ {
            seq![ArbOpportunity { buy: ask, sell: b }]
        } else {
            Seq::empty()
        },
        None => Seq::empty(),
    };
    let second = match other.spec_best_ask() {
        Some(a) => if a.price@ < bid.price@ {
            seq![ArbOpportunity { buy: a, sell: bid }]
        } else {
            Seq::empty()
        },
        None => Seq::empty(),
    };
    first + second
}

/// Crossings against every held book of a venue other than `e`, in the order
/// the books are held.
pub open spec fn arbs_among(states: Seq<OrderbookState>, e: Exchange, bid: Order, ask: Order) -> Seq<ArbOpportunity>
    decreases states.len(),
{
    if states.len() == 0 {
        Seq::empty()
    } else {
        arbs_among(states.drop_last(), e, bid, ask) + if states.last().exchange != e {
            arbs_with(bid, ask, states.last())
        } else {
            Seq::empty()
        }
    }
}

/// The opportunities found when venue `e` has just been updated: none when
/// its book lacks a side.
pub open spec fn arbs_for(states: Seq<OrderbookState>, e: Exchange) -> Seq<ArbOpportunity> {
    match state_of(states, e) {
        Some(u) => match (u.spec_best_bid(), u.spec_best_ask()) {
            (Some(bid), Some(ask)) => arbs_among(states, e, bid, ask),
            _ => Seq::empty(),
        },
        None => Seq::empty(),
    }
}

/// The market order for one leg: its quote's amount, with the amount's value
/// at the quote's price as the expected return.
pub open spec fn leg_order(q: Order, direction: Direction) -> PendingOrder {
    PendingOrder::Market(
        PendingMarketOrder {
            exchange: q.exchange,
            direction,
            amount: q.amount,
            expected_return: Amount8Decimals { units: amount_times_price(q.amount@, q.price@) as u128 },
        },
    )
}

/// The two orders of an opportunity: the sell leg, then the buy leg.
pub open spec fn arb_orders(arb: ArbOpportunity) -> Seq<PendingOrder> {
    seq![leg_order(arb.sell, Direction::Sell), leg_order(arb.buy, Direction::Buy)]
}

pub open spec fn orders_for(arbs: Seq<ArbOpportunity>) -> Seq<PendingOrder>
    decreases arbs.len(),
{
    if arbs.len() == 0 {
        Seq::empty()
    } else {
        orders_for(arbs.drop_last()) + arb_orders(arbs.last())
    }
}

/// Venue `x` bids above venue `y`'s ask.
pub open spec fn crosses(x: OrderbookState, y: OrderbookState) -> bool {
    match (x.spec_best_bid(), y.spec_best_ask()) {
        (Some(b), Some(a)) => b.price@ > a.price@,
        _ => false,
    }
}

/// Tells whether every level's amount times its price fits in 128 bits.
pub fn side_products_fit(side: &Vec<Level>) -> (r: bool)
    ensures
        r == products_fit(side@),
{
    let mut i: usize = 0;
    while i < side.len()
        invariant
            i <= side@.len(),
            forall|j: int| 0 <= j < i ==> #[trigger] side@[j].1@ * side@[j].0@ <= u128::MAX,
        decreases side@.len() - i,
    {
        let (p, a) = side[i];
        if a.units().checked_mul(p.units()).is_none() {
            return false;
        }
        i = i + 1;
    }
    true
}

/// Tells whether the finder can hold the snapshot.
pub fn is_usable_book(st: &OrderbookState) -> (r: bool)
    ensures
        r == usable_book(*st),
{
    st.is_wf() && side_products_fit(&st.asks) && side_products_fit(&st.bids)
}

pub struct ArbFinder {
    state_per_exchange: Vec<OrderbookState>,
}

impl View for ArbFinder {
    type V = Seq<OrderbookState>;

    closed spec fn view(&self) -> Seq<OrderbookState> {
        self.state_per_exchange@
    }
}

impl ArbFinder {
    /// The held books are usable and there is at most one per venue.
    pub open spec fn wf(&self) -> bool {
        &&& venues_unique(self@)
        &&& forall|i: int| 0 <= i < self@.len() ==> usable_book(#[trigger] self@[i])
    }

    pub fn new() -> (r: ArbFinder)
        ensures
            r@ == Seq::<OrderbookState>::empty(),
            r.wf(),
    {
        ArbFinder { state_per_exchange: Vec::new() }
    }

    /// Takes in a snapshot and returns the orders to emit for it.
    pub fn on_update(&mut self, state: OrderbookState) -> (r: Vec<PendingOrder>)
        requires
            old(self).wf(),
            usable_book(state),
        ensures
            final(self).wf(),
            final(self)@ == replace_state(old(self)@, state),
            r@ == orders_for(arbs_for(final(self)@, state.exchange)),
    {
        let exchange = state.exchange;
        let ghost old_states = self@;
        let n = self.state_per_exchange.len();
        let mut i: usize = 0;
        while i < n && self.state_per_exchange[i].exchange != exchange
            invariant
                i <= n,
                n == self@.len(),
                self@ == old_states,
                forall|j: int| 0 <= j < i ==> old_states[j].exchange != exchange,
            decreases n - i,
        {
            i = i + 1;
        }
        proof {
            if i < n {
                assert(has_venue(old_states, exchange));
                let c = choose|j: int| 0 <= j < old_states.len() && old_states[j].exchange == exchange;
                assert(c == i as int);
            } else {
                assert(!has_venue(old_states, exchange));
            }
        }
        if i < n {
            self.state_per_exchange.set(i, state);
        } else {
            self.state_per_exchange.push(state);
        }
        assert(self@ == replace_state(old_states, state));
        assert(venues_unique(self@));
        self.find_and_notify_arbs(exchange)
    }

    /// The opportunities against the book of `latest_update`, as orders.
    pub fn find_and_notify_arbs(&self, latest_update: Exchange) -> (r: Vec<PendingOrder>)
        requires
            self.wf(),
        ensures
            r@ == orders_for(arbs_for(self@, latest_update)),
    {
        let arbs = self.find_arbs(latest_update);
        let mut orders: Vec<PendingOrder> = Vec::new();
        let mut i: usize = 0;
        while i < arbs.len()
            invariant
                self.wf(),
                i <= arbs@.len(),
                arbs@ == arbs_for(self@, latest_update),
                forall|j: int| 0 <= j < arbs@.len() ==> Self::arb_usable(#[trigger] arbs@[j]),
                orders@ == orders_for(arbs@.take(i as int)),
            decreases arbs@.len() - i,
        {
            let legs = Self::notify_arb(&arbs[i]);
            orders.push(legs.0);
            orders.push(legs.1);
            proof {
                assert(arbs@.take(i + 1).drop_last() =~= arbs@.take(i as int));
                assert(orders_for(arbs@.take(i + 1)) =~= orders_for(arbs@.take(i as int)) + arb_orders(arbs@[i as int]));
            }
            i = i + 1;
        }
        assert(arbs@.take(arbs@.len() as int) =~= arbs@);
        orders
    }

    /// Both legs of the opportunity have products that fit.
    pub open spec fn arb_usable(arb: ArbOpportunity) -> bool {
        &&& arb.buy.amount@ * arb.buy.price@ <= u128::MAX
        &&& arb.sell.amount@ * arb.sell.price@ <= u128::MAX
    }

    /// The two market orders of an opportunity: sell leg first, buy leg second.
    pub fn notify_arb(arb: &ArbOpportunity) -> (r: (PendingOrder, PendingOrder))
        requires
            Self::arb_usable(*arb),
        ensures
            seq![r.0, r.1] == arb_orders(*arb),
    {
        let sell = PendingOrder::Market(
            PendingMarketOrder {
                exchange: arb.sell.exchange,
                direction: Direction::Sell,
                amount: arb.sell.amount,
                expected_return: arb.sell.amount.mul_price(arb.sell.price),
            },
        );
        let buy = PendingOrder::Market(
            PendingMarketOrder {
                exchange: arb.buy.exchange,
                direction: Direction::Buy,
                amount: arb.buy.amount,
                expected_return: arb.buy.amount.mul_price(arb.buy.price),
            },
        );
        (sell, buy)
    }

    /// The opportunities against the book of `latest_update`.
    pub fn find_arbs(&self, latest_update: Exchange) -> (r: Vec<ArbOpportunity>)
        requires
            self.wf(),
        ensures
            r@ == arbs_for(self@, latest_update),
            forall|j: int| 0 <= j < r@.len() ==> Self::arb_usable(#[trigger] r@[j]),
            forall|j: int| 0 <= j < r@.len() ==> (#[trigger] r@[j]).buy.exchange != r@[j].sell.exchange,
    {
        let states = &self.state_per_exchange;
        let n = states.len();
        let mut k: usize = 0;
        while k < n && states[k].exchange != latest_update
            invariant
                k <= n,
                n == states@.len(),
                states@ == self@,
                forall|j: int| 0 <= j < k ==> states@[j].exchange != latest_update,
            decreases n - k,
        {
            k = k + 1;
        }
        if k == n {
            assert(!has_venue(self@, latest_update));
            return Vec::new();
        }
        proof {
            let c = choose|j: int| 0 <= j < self@.len() && self@[j].exchange == latest_update;
            assert(c == k as int);
        }
        let updated = &states[k];
        let bid = match updated.best_bid() {
            Some(b) => b,
            None => {
                return Vec::new();
            },
        };
        let ask = match updated.best_ask() {
            Some(a) => a,
            None => {
                return Vec::new();
            },
        };
        assert(usable_book(self@[k as int]));
        assert(bid.amount@ * bid.price@ <= u128::MAX);
        assert(ask.amount@ * ask.price@ <= u128::MAX);
        let mut arbs: Vec<ArbOpportunity> = Vec::new();
        let mut i: usize = 0;
        while i < n
            invariant
                i <= n,
                n == states@.len(),
                states@ == self@,
                self.wf(),
                bid.exchange == latest_update,
                ask.exchange == latest_update,
                bid.amount@ * bid.price@ <= u128::MAX,
                ask.amount@ * ask.price@ <= u128::MAX,
                arbs@ == arbs_among(self@.take(i as int), latest_update, bid, ask),
                forall|j: int| 0 <= j < arbs@.len() ==> Self::arb_usable(#[trigger] arbs@[j]),
                forall|j: int| 0 <= j < arbs@.len() ==> (#[trigger] arbs@[j]).buy.exchange != arbs@[j].sell.exchange,
            decreases n - i,
        {
            let existing = &states[i];
            proof {
                assert(self@.take(i + 1).drop_last() =~= self@.take(i as int));
                assert(self@.take(i + 1).last() == self@[i as int]);
                assert(usable_book(self@[i as int]));
            }
            let ghost before = arbs@;
            if existing.exchange != latest_update {
                if let Some(b) = existing.best_bid() {
                    if b.price.units() > ask.price.units() {
                        arbs.push(ArbOpportunity { buy: ask, sell: b });
                    }
                }
                if let Some(a) = existing.best_ask() {
                    if a.price.units() < bid.price.units() {
                        arbs.push(ArbOpportunity { buy: a, sell: bid });
                    }
                }
                assert(arbs@ =~= before + arbs_with(bid, ask, self@[i as int]));
            } else {
                assert(arbs@ =~= before + Seq::<ArbOpportunity>::empty());
            }
            i = i + 1;
        }
        assert(self@.take(n as int) =~= self@);
        arbs
    }
}


proof fn lemma_arbs_among_distinct(states: Seq<OrderbookState>, e: Exchange, bid: Order, ask: Order)
    requires
        bid.exchange == e,
        ask.exchange == e,
    ensures
        forall|j: int| 0 <= j < arbs_among(states, e, bid, ask).len() ==>
            (#[trigger] arbs_among(states, e, bid, ask)[j]).buy.exchange != arbs_among(states, e, bid, ask)[j].sell.exchange,
    decreases states.len(),
{
    if states.len() > 0 {
        lemma_arbs_among_distinct(states.drop_last(), e, bid, ask);
    }
}

proof fn lemma_state_of_venue(states: Seq<OrderbookState>, e: Exchange)
    ensures
        state_of(states, e) matches Some(u) ==> u.exchange == e,
{
}

/// No opportunity has both legs on one venue.
pub proof fn lemma_legs_on_distinct_venues(states: Seq<OrderbookState>, e: Exchange)
    ensures
        forall|j: int| 0 <= j < arbs_for(states, e).len() ==>
            (#[trigger] arbs_for(states, e)[j]).buy.exchange != arbs_for(states, e)[j].sell.exchange,
{
    lemma_state_of_venue(states, e);
    if let Some(u) = state_of(states, e) {
        if let (Some(bid), Some(ask)) = (u.spec_best_bid(), u.spec_best_ask()) {
            lemma_arbs_among_distinct(states, e, bid, ask);
        }
    }
}

/// The books held after a fresh finder has seen `first`, then `second`, of
/// two venues.
proof fn lemma_two_books(first: OrderbookState, second: OrderbookState)
    requires
        first.exchange != second.exchange,
    ensures
        replace_state(Seq::empty(), first) == seq![first],
        replace_state(seq![first], second) == seq![first, second],
        state_of(seq![first], first.exchange) == Some(first),
        state_of(seq![first, second], second.exchange) == Some(second),
        arbs_for(seq![first], first.exchange) == Seq::<ArbOpportunity>::empty(),
        (second.spec_best_bid() is Some && second.spec_best_ask() is Some) ==>
            arbs_for(seq![first, second], second.exchange) == arbs_with(second.spec_best_bid()->0, second.spec_best_ask()->0, first),
        (second.spec_best_bid() is None || second.spec_best_ask() is None) ==>
            arbs_for(seq![first, second], second.exchange) == Seq::<ArbOpportunity>::empty(),
{
    let e0 = Seq::<OrderbookState>::empty();
    assert(!has_venue(e0, first.exchange));
    assert(e0.push(first) =~= seq![first]);
    let s1 = seq![first];
    assert(!has_venue(s1, second.exchange));
    assert(s1.push(second) =~= seq![first, second]);
    let s2 = seq![first, second];
    assert(s1[0].exchange == first.exchange);
    assert(has_venue(s1, first.exchange));
    assert(s2[1].exchange == second.exchange);
    assert(has_venue(s2, second.exchange));
    let c = choose|i: int| 0 <= i < s2.len() && s2[i].exchange == second.exchange;
    assert(c == 1);
    assert(s1.drop_last() =~= e0);
    assert(s2.drop_last() =~= s1);
    if let (Some(bid), Some(ask)) = (first.spec_best_bid(), first.spec_best_ask()) {
        assert(s1.last() == first);
        assert(arbs_among(e0, first.exchange, bid, ask) =~= Seq::<ArbOpportunity>::empty());
        assert(arbs_among(s1, first.exchange, bid, ask) =~= Seq::<ArbOpportunity>::empty());
    }
    if let (Some(bid), Some(ask)) = (second.spec_best_bid(), second.spec_best_ask()) {
        assert(s1.last() == first);
        assert(s2.last() == second);
        assert(arbs_among(e0, second.exchange, bid, ask) =~= Seq::<ArbOpportunity>::empty());
        assert(arbs_among(s1, second.exchange, bid, ask) =~= arbs_with(bid, ask, first));
        assert(arbs_among(s2, second.exchange, bid, ask) =~= arbs_with(bid, ask, first));
    }
}

/// Some opportunity buys on venue `buy` and sells on venue `sell`.
pub open spec fn buys_on_sells_on(found: Seq<ArbOpportunity>, buy: Exchange, sell: Exchange) -> bool {
    exists|j: int| 0 <= j < found.len() && (#[trigger] found[j]).buy.exchange == buy && found[j].sell.exchange == sell
}

/// When venue `a` bids above venue `b`'s ask and both books have both sides,
/// a fresh finder fed `a` then `b`, or `b` then `a`, finds an opportunity that
/// buys on `b` and sells on `a`.
pub proof fn lemma_crossing_is_found(a: OrderbookState, b: OrderbookState)
    requires
        a.exchange != b.exchange,
        a.spec_best_bid() is Some,
        a.spec_best_ask() is Some,
        b.spec_best_bid() is Some,
        b.spec_best_ask() is Some,
        crosses(a, b),
    ensures
        buys_on_sells_on(arbs_for(replace_state(replace_state(Seq::empty(), a), b), b.exchange), b.exchange, a.exchange),
        buys_on_sells_on(arbs_for(replace_state(replace_state(Seq::empty(), b), a), a.exchange), b.exchange, a.exchange),
{
    lemma_two_books(a, b);
    lemma_two_books(b, a);
    let ab = arbs_for(replace_state(replace_state(Seq::empty(), a), b), b.exchange);
    assert(ab[0].buy.exchange == b.exchange && ab[0].sell.exchange == a.exchange);
    let ba = arbs_for(replace_state(replace_state(Seq::empty(), b), a), a.exchange);
    let (bid_a, ask_a) = (a.spec_best_bid()->0, a.spec_best_ask()->0);
    let first = match b.spec_best_bid() {
        Some(x) => if x.price@ > ask_a.price@ {
            seq![ArbOpportunity { buy: ask_a, sell: x }]
        } else {
            Seq::empty()
        },
        None => Seq::empty(),
    };
    assert(ba[first.len() as int].buy.exchange == b.exchange && ba[first.len() as int].sell.exchange == a.exchange);
}

/// When neither of two venues bids above the other's ask, a fresh finder fed
/// them in either order emits nothing.
pub proof fn lemma_no_crossing_no_orders(a: OrderbookState, b: OrderbookState)
    requires
        a.exchange != b.exchange,
        !crosses(a, b),
        !crosses(b, a),
    ensures
        arbs_for(replace_state(Seq::empty(), a), a.exchange).len() == 0,
        arbs_for(replace_state(replace_state(Seq::empty(), a), b), b.exchange).len() == 0,
        arbs_for(replace_state(Seq::empty(), b), b.exchange).len() == 0,
        arbs_for(replace_state(replace_state(Seq::empty(), b), a), a.exchange).len() == 0,
        orders_for(arbs_for(replace_state(replace_state(Seq::empty(), a), b), b.exchange)).len() == 0,
        orders_for(arbs_for(replace_state(replace_state(Seq::empty(), b), a), a.exchange)).len() == 0,
{
    lemma_two_books(a, b);
    lemma_two_books(b, a);
}

} // verus!
