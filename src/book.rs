//! Order-book snapshots: each side is a list of price levels kept in strictly
//! ascending price order, which is the ordered map from price to amount.

use vstd::prelude::*;

use crate::money::{decimal_units, is_decimal, Amount8Decimals, DecimalError, Price4Decimals};
use crate::types::{Exchange, Order};

verus! {

/// One price level: a price and the amount offered at it.
pub type Level = (Price4Decimals, Amount8Decimals);

/// Prices rise strictly along the side.
pub open spec fn ascending(s: Seq<Level>) -> bool {
    forall|i: int, j: int| 0 <= i < j < s.len() ==> s[i].0@ < s[j].0@
}

/// Every price and every amount on the side is above zero.
pub open spec fn positive(s: Seq<Level>) -> bool {
    forall|i: int| 0 <= i < s.len() ==> s[i].0@ > 0 && s[i].1@ > 0
}

/// The map from price units to amount units that the levels give, a later
/// level replacing an earlier one at the same price.
pub open spec fn side_map(s: Seq<Level>) -> Map<nat, nat>
    decreases s.len(),
{
    if s.len() == 0 {
        Map::empty()
    } else {
        side_map(s.drop_last()).insert(s.last().0@, s.last().1@)
    }
}

/// A venue-tagged point-in-time book.
#[derive(Clone, Debug)]
pub struct OrderbookState {
    pub exchange: Exchange,
    pub timestamp_ms: u64,
    pub asks: Vec<Level>,
    pub bids: Vec<Level>,
}

impl OrderbookState {
    /// Both sides ascend strictly in price and hold only positive values.
    pub open spec fn wf(&self) -> bool {
        &&& ascending(self.asks@)
        &&& ascending(self.bids@)
        &&& positive(self.asks@)
        &&& positive(self.bids@)
    }

    /// The highest bid.
    pub open spec fn spec_best_bid(&self) -> Option<Order> {
        if self.bids@.len() == 0 {
            None
        } else {
            Some(Order { exchange: self.exchange, price: self.bids@.last().0, amount: self.bids@.last().1 })
        }
    }

    /// The lowest ask.
    pub open spec fn spec_best_ask(&self) -> Option<Order> {
        if self.asks@.len() == 0 {
            None
        } else {
            Some(Order { exchange: self.exchange, price: self.asks@[0].0, amount: self.asks@[0].1 })
        }
    }

    pub fn best_bid(&self) -> (r: Option<Order>)
        ensures
            r == self.spec_best_bid(),
            self.wf() ==> (r matches Some(o) ==> forall|i: int|
                0 <= i < self.bids@.len() ==> self.bids@[i].0@ <= o.price@),
    {
        let n = self.bids.len();
        if n == 0 {
            None
        } else {
            let (price, amount) = self.bids[n - 1];
            Some(Order { exchange: self.exchange, price, amount })
        }
    }

    pub fn best_ask(&self) -> (r: Option<Order>)
        ensures
            r == self.spec_best_ask(),
            self.wf() ==> (r matches Some(o) ==> forall|i: int|
                0 <= i < self.asks@.len() ==> o.price@ <= self.asks@[i].0@),
    {
        if self.asks.len() == 0 {
            None
        } else {
            let (price, amount) = self.asks[0];
            Some(Order { exchange: self.exchange, price, amount })
        }
    }
}

/// Tells whether a side ascends strictly in price and holds only positive
/// values.
pub fn side_is_wf(side: &Vec<Level>) -> (r: bool)
    ensures
        r == (ascending(side@) && positive(side@)),
{
    let mut i: usize = 0;
    while i < side.len()
        invariant
            i <= side@.len(),
            forall|j: int, k: int| 0 <= j < k < i ==> side@[j].0@ < side@[k].0@,
            forall|j: int| 0 <= j < i ==> side@[j].0@ > 0 && side@[j].1@ > 0,
        decreases side@.len() - i,
    {
        let (p, a) = side[i];
        if p.units() == 0 || a.units() == 0 {
            return false;
        }
        if i > 0 && side[i - 1].0.units() >= p.units() {
            return false;
        }
        proof {
            assert forall|j: int, k: int| 0 <= j < k < i + 1 implies side@[j].0@ < side@[k].0@ by {
                if k == i && j < i - 1 {
                    assert(side@[j].0@ < side@[i - 1].0@);
                }
            }
        }
        i = i + 1;
    }
    true
}

impl OrderbookState {
    /// Tells whether the snapshot is well formed.
    pub fn is_wf(&self) -> (r: bool)
        ensures
            r == self.wf(),
    {
        side_is_wf(&self.asks) && side_is_wf(&self.bids)
    }
}

/// On an ascending side each level's price maps to its amount, and only those
/// prices are keys.
pub proof fn lemma_side_map_of_ascending(s: Seq<Level>)
    requires
        ascending(s),
    ensures
        forall|i: int| 0 <= i < s.len() ==> #[trigger] side_map(s).contains_key(s[i].0@)
            && side_map(s)[s[i].0@] == s[i].1@,
        forall|k: nat| #[trigger] side_map(s).contains_key(k) ==> exists|i: int| 0 <= i < s.len() && s[i].0@ == k,
    decreases s.len(),
{
    if s.len() > 0 {
        let t = s.drop_last();
        assert(ascending(t));
        lemma_side_map_of_ascending(t);
        assert forall|i: int| 0 <= i < s.len() implies #[trigger] side_map(s).contains_key(s[i].0@)
            && side_map(s)[s[i].0@] == s[i].1@ by {
            if i < s.len() - 1 {
                assert(t[i] == s[i]);
                assert(side_map(t).contains_key(t[i].0@));
            }
        }
        assert forall|k: nat| #[trigger] side_map(s).contains_key(k) implies exists|i: int| 0 <= i < s.len() && s[i].0@ == k by {
            if k != s.last().0@ {
                assert(side_map(t).contains_key(k));
                let j = choose|j: int| 0 <= j < t.len() && t[j].0@ == k;
                assert(s[j] == t[j]);
            } else {
                assert(s[s.len() - 1].0@ == k);
            }
        }
    }
}

/// Puts `amount` at `price` on an ascending side, replacing the level already
/// at that price.
pub fn insert_level(levels: &mut Vec<Level>, price: Price4Decimals, amount: Amount8Decimals)
    requires
        ascending(old(levels)@),
    ensures
        ascending(final(levels)@),
        side_map(final(levels)@) == side_map(old(levels)@).insert(price@, amount@),
        positive(old(levels)@) && price@ > 0 && amount@ > 0 ==> positive(final(levels)@),
{
    let ghost o = levels@;
    let n = levels.len();
    let mut i: usize = 0;
    while i < n && levels[i].0.units < price.units
        invariant
            i <= n,
            n == levels@.len(),
            levels@ == o,
            forall|j: int| 0 <= j < i ==> o[j].0@ < price@,
        decreases n - i,
    {
        i = i + 1;
    }
    if i < n && levels[i].0.units == price.units {
        levels.set(i, (price, amount));
    } else {
        levels.insert(i, (price, amount));
    }
    let ghost m = levels@;
    proof {
        if i < n && o[i as int].0@ == price@ {
            assert(m == o.update(i as int, (price, amount)));
        } else {
            assert(m == o.insert(i as int, (price, amount)));
            assert(forall|j: int| 0 <= j < i ==> m[j] == o[j]);
            assert(forall|j: int| i < j < m.len() ==> m[j] == o[j - 1]);
        }
        assert(ascending(m));
        lemma_side_map_of_ascending(o);
        lemma_side_map_of_ascending(m);
        let expect = side_map(o).insert(price@, amount@);
        assert forall|k: nat| side_map(m).contains_key(k) implies expect.contains_key(k) && side_map(m)[k] == expect[k] by {
            let j = choose|j: int| 0 <= j < m.len() && m[j].0@ == k;
            if j == i {
            } else if j < i || (i < n && o[i as int].0@ == price@) {
                assert(m[j] == o[j]);
                assert(side_map(o).contains_key(o[j].0@));
            } else {
                assert(m[j] == o[j - 1]);
                assert(side_map(o).contains_key(o[j - 1].0@));
            }
        }
        assert forall|k: nat| expect.contains_key(k) implies side_map(m).contains_key(k) by {
            if k == price@ {
                assert(m[i as int].0@ == k);
                assert(side_map(m).contains_key(m[i as int].0@));
            } else {
                let j = choose|j: int| 0 <= j < o.len() && o[j].0@ == k;
                if j < i || (i < n && o[i as int].0@ == price@) {
                    assert(m[j] == o[j]);
                    assert(side_map(m).contains_key(m[j].0@));
                } else {
                    assert(m[j + 1] == o[j]);
                    assert(side_map(m).contains_key(m[j + 1].0@));
                }
            }
        }
        assert(side_map(m) =~= expect);
    }
}


/// A level given as text parses to a positive price and a positive amount.
pub open spec fn text_level_ok(t: (String, String)) -> bool {
    &&& is_decimal(t.0@)
    &&& is_decimal(t.1@)
    &&& 0 < decimal_units(t.0@, 4) <= u128::MAX
    &&& 0 < decimal_units(t.1@, 8) <= u128::MAX
}

/// The map from price units to amount units that levels given as text
/// denote, a later level replacing an earlier one at the same price.
pub open spec fn text_side_map(ts: Seq<(String, String)>) -> Map<nat, nat>
    decreases ts.len(),
{
    if ts.len() == 0 {
        Map::empty()
    } else {
        text_side_map(ts.drop_last()).insert(decimal_units(ts.last().0@, 4), decimal_units(ts.last().1@, 8))
    }
}

/// Reads one level from its price text and amount text.
pub fn parse_level(price: &str, amount: &str) -> (r: Option<Level>)
    ensures
        r is Some <==> (is_decimal(price@) && decimal_units(price@, 4) <= u128::MAX && is_decimal(amount@)
            && decimal_units(amount@, 8) <= u128::MAX),
        r matches Some(l) ==> l.0@ == decimal_units(price@, 4) && l.1@ == decimal_units(amount@, 8),
{
    let p = Price4Decimals::parse(price);
    let a = Amount8Decimals::parse(amount);
    match p {
        Ok(p) => match a {
            Ok(a) => Some((p, a)),
            Err(e) => {
                assert(e == DecimalError::Malformed || e == DecimalError::Overflow);
                None
            },
        },
        Err(e) => {
            assert(e == DecimalError::Malformed || e == DecimalError::Overflow);
            None
        },
    }
}

/// Builds one side of a book from levels given as text, in any order. Refuses
/// the whole side when a level does not parse or holds a zero.
pub fn side_from_text(levels: &Vec<(String, String)>) -> (r: Option<Vec<Level>>)
    ensures
        r is Some <==> forall|i: int| 0 <= i < levels@.len() ==> text_level_ok(#[trigger] levels@[i]),
        r matches Some(v) ==> ascending(v@) && positive(v@) && side_map(v@) == text_side_map(levels@),
{
    let mut side: Vec<Level> = Vec::new();
    let mut i: usize = 0;
    while i < levels.len()
        invariant
            i <= levels@.len(),
            ascending(side@),
            positive(side@),
            side_map(side@) == text_side_map(levels@.take(i as int)),
            forall|j: int| 0 <= j < i ==> text_level_ok(#[trigger] levels@[j]),
        decreases levels@.len() - i,
    {
        let t = &levels[i];
        proof {
            assert(levels@.take(i + 1).drop_last() =~= levels@.take(i as int));
        }
        match parse_level(t.0.as_str(), t.1.as_str()) {
            Some((p, a)) => {
                if p.units() == 0 || a.units() == 0 {
                    assert(!text_level_ok(levels@[i as int]));
                    return None;
                }
                insert_level(&mut side, p, a);
            },
            None => {
                assert(!text_level_ok(levels@[i as int]));
                return None;
            },
        }
        i = i + 1;
    }
    assert(levels@.take(levels@.len() as int) =~= levels@);
    Some(side)
}

impl OrderbookState {
    /// A snapshot from depth levels given as text; `None` when a level is
    /// malformed or holds a zero price or amount.
    pub fn from_text_levels(
        exchange: Exchange,
        timestamp_ms: u64,
        bids: &Vec<(String, String)>,
        asks: &Vec<(String, String)>,
    ) -> (r: Option<OrderbookState>)
        ensures
            r is Some <==> (forall|i: int| 0 <= i < bids@.len() ==> text_level_ok(#[trigger] bids@[i]))
                && (forall|i: int| 0 <= i < asks@.len() ==> text_level_ok(#[trigger] asks@[i])),
            r matches Some(st) ==> {
                &&& st.wf()
                &&& st.exchange == exchange
                &&& st.timestamp_ms == timestamp_ms
                &&& side_map(st.bids@) == text_side_map(bids@)
                &&& side_map(st.asks@) == text_side_map(asks@)
            },
    {
        let b = side_from_text(bids);
        let a = side_from_text(asks);
        match (b, a) {
            (Some(bids), Some(asks)) => Some(OrderbookState { exchange, timestamp_ms, asks, bids }),
            _ => None,
        }
    }
}

} // verus!
