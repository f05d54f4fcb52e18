//! The order-executor dispatch table: one client per venue, looked up by the
//! venue tag of each pending order.

use vstd::prelude::*;

use crate::types::{Exchange, PendingOrder};

verus! {

/// The map from venue to client that the entries give, a later entry
/// replacing an earlier one of the same venue.
pub open spec fn table_map<C>(s: Seq<(Exchange, C)>) -> Map<Exchange, C>
    decreases s.len(),
{
    if s.len() == 0 {
        Map::empty()
    } else {
        table_map(s.drop_last()).insert(s.last().0, s.last().1)
    }
}

pub open spec fn keys_unique<C>(s: Seq<(Exchange, C)>) -> bool {
    forall|i: int, j: int| 0 <= i < j < s.len() ==> s[i].0 != s[j].0
}

proof fn lemma_table_map_unique<C>(s: Seq<(Exchange, C)>)
    requires
        keys_unique(s),
    ensures
        forall|i: int| 0 <= i < s.len() ==> #[trigger] table_map(s).contains_key(s[i].0) && table_map(s)[s[i].0] == s[i].1,
        forall|k: Exchange| #[trigger] table_map(s).contains_key(k) ==> exists|i: int| 0 <= i < s.len() && s[i].0 == k,
    decreases s.len(),
{
    if s.len() > 0 {
        let t = s.drop_last();
        lemma_table_map_unique(t);
        assert forall|i: int| 0 <= i < s.len() implies #[trigger] table_map(s).contains_key(s[i].0) && table_map(s)[s[i].0] == s[i].1 by {
            if i < s.len() - 1 {
                assert(t[i] == s[i]);
                assert(table_map(t).contains_key(t[i].0));
            }
        }
        assert forall|k: Exchange| #[trigger] table_map(s).contains_key(k) implies exists|i: int| 0 <= i < s.len() && s[i].0 == k by {
            if k != s.last().0 {
                assert(table_map(t).contains_key(k));
                let j = choose|j: int| 0 <= j < t.len() && t[j].0 == k;
                assert(s[j] == t[j]);
            } else {
                assert(s[s.len() - 1].0 == k);
            }
        }
    }
}

/// Finds the entry of `exchange`.
fn find_entry<C>(entries: &Vec<(Exchange, C)>, exchange: Exchange) -> (r: Option<usize>)
    requires
        keys_unique(entries@),
    ensures
        r is Some <==> table_map(entries@).contains_key(exchange),
        r matches Some(i) ==> i < entries@.len() && entries@[i as int].0 == exchange
            && table_map(entries@)[exchange] == entries@[i as int].1,
{
    proof {
        lemma_table_map_unique(entries@);
    }
    let mut i: usize = 0;
    while i < entries.len()
        invariant
            i <= entries@.len(),
            keys_unique(entries@),
            forall|j: int| 0 <= j < i ==> entries@[j].0 != exchange,
        decreases entries@.len() - i,
    {
        if entries[i].0 == exchange {
            proof {
                lemma_table_map_unique(entries@);
            }
            assert(table_map(entries@).contains_key(entries@[i as int].0));
            return Some(i);
        }
        i = i + 1;
    }
    proof {
        lemma_table_map_unique(entries@);
    }
    None
}

/// Collects one client per venue.
pub struct OrderExecutorBuilder<C> {
    exchanges: Vec<(Exchange, C)>,
}

/// Routes each pending order to the client of its venue.
pub struct OrderExecutor<C> {
    exchanges: Vec<(Exchange, C)>,
}

impl<C> View for OrderExecutorBuilder<C> {
    type V = Map<Exchange, C>;

    closed spec fn view(&self) -> Map<Exchange, C> {
        table_map(self.exchanges@)
    }
}

impl<C> View for OrderExecutor<C> {
    type V = Map<Exchange, C>;

    closed spec fn view(&self) -> Map<Exchange, C> {
        table_map(self.exchanges@)
    }
}

impl<C> OrderExecutorBuilder<C> {
    pub closed spec fn wf(&self) -> bool {
        keys_unique(self.exchanges@)
    }

    pub fn new() -> (r: OrderExecutorBuilder<C>)
        ensures
            r.wf(),
            r@ == Map::<Exchange, C>::empty(),
    {
        OrderExecutorBuilder { exchanges: Vec::new() }
    }

    /// Adds the client of `exchange`, replacing any it had.
    pub fn with_exchange(self, exchange: Exchange, order_executor: C) -> (r: OrderExecutorBuilder<C>)
        requires
            self.wf(),
        ensures
            r.wf(),
            r@ == self@.insert(exchange, order_executor),
    {
        let mut exchanges = self.exchanges;
        let ghost o = exchanges@;
        let found = find_entry(&exchanges, exchange);
        proof {
            lemma_table_map_unique(o);
        }
        match found {
            Some(i) => {
                exchanges.set(i, (exchange, order_executor));
            },
            None => {
                exchanges.push((exchange, order_executor));
            },
        }
        let ghost m = exchanges@;
        proof {
            assert(keys_unique(m));
            lemma_table_map_unique(m);
            let expect = table_map(o).insert(exchange, order_executor);
            assert forall|k: Exchange| table_map(m).contains_key(k) implies expect.contains_key(k) && table_map(m)[k] == expect[k] by {
                let j = choose|j: int| 0 <= j < m.len() && m[j].0 == k;
                if k != exchange {
                    assert(m[j] == o[j]);
                    assert(table_map(o).contains_key(o[j].0));
                }
            }
            assert forall|k: Exchange| expect.contains_key(k) implies table_map(m).contains_key(k) by {
                if k == exchange {
                    match found {
                        Some(i) => {
                            assert(m[i as int].0 == k);
                            assert(table_map(m).contains_key(m[i as int].0));
                        },
                        None => {
                            assert(m[o.len() as int].0 == k);
                            assert(table_map(m).contains_key(m[o.len() as int].0));
                        },
                    }
                } else {
                    let j = choose|j: int| 0 <= j < o.len() && o[j].0 == k;
                    assert(m[j] == o[j]);
                    assert(table_map(m).contains_key(m[j].0));
                }
            }
            assert(table_map(m) =~= expect);
        }
        OrderExecutorBuilder { exchanges }
    }

    pub fn build(self) -> (r: OrderExecutor<C>)
        requires
            self.wf(),
        ensures
            r.wf(),
            r@ == self@,
    {
        OrderExecutor { exchanges: self.exchanges }
    }
}

impl<C> OrderExecutor<C> {
    pub closed spec fn wf(&self) -> bool {
        keys_unique(self.exchanges@)
    }

    /// The client of `exchange`, if one was added.
    pub fn client_for(&self, exchange: Exchange) -> (r: Option<&C>)
        requires
            self.wf(),
        ensures
            r is Some <==> self@.contains_key(exchange),
            r matches Some(c) ==> *c == self@[exchange],
    {
        match find_entry(&self.exchanges, exchange) {
            Some(i) => Some(&self.exchanges[i].1),
            None => None,
        }
    }

    /// The client that `order` goes to: the one of its venue. `None` means
    /// the order is dropped.
    pub fn route(&self, order: &PendingOrder) -> (r: Option<&C>)
        requires
            self.wf(),
        ensures
            r is Some <==> self@.contains_key(order.spec_exchange()),
            r matches Some(c) ==> *c == self@[order.spec_exchange()],
    {
        self.client_for(order.exchange())
    }
}

} // verus!
