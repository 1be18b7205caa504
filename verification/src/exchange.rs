//! A simple order book exchange for triangular regions.

use vstd::prelude::*;
use crate::codec::{enc_triangle, triangle_hash};
use crate::dec::{Dec, amt, amount_ok};
use crate::hash::{H256, blake3_of};
use crate::triangle::Triangle;
use crate::wallet::Address;

verus! {

/// A buy or a sell.
#[derive(Debug, Clone, Copy, PartialEq, Eq, Structural)]
pub enum OrderType {
    Buy,
    Sell,
}

/// One order for a triangular region.
#[derive(Debug, Clone, Copy)]
pub struct Order {
    /// The trader placing the order.
    pub trader: Address,
    pub order_type: OrderType,
    /// The region being traded.
    pub triangle: Triangle,
    pub price: Dec,
}

/// Prices never increase along the sequence.
pub open spec fn sorted_desc(s: Seq<Order>) -> bool {
    forall|i: int, j: int| 0 <= i < j < s.len()
        ==> amt((#[trigger] s[i]).price) >= amt(#[trigger] s[j].price)
}

/// Prices never decrease along the sequence.
pub open spec fn sorted_asc(s: Seq<Order>) -> bool {
    forall|i: int, j: int| 0 <= i < j < s.len()
        ==> amt((#[trigger] s[i]).price) <= amt(#[trigger] s[j].price)
}

/// Every price is a representable amount.
pub open spec fn prices_ok(s: Seq<Order>) -> bool {
    forall|i: int| 0 <= i < s.len() ==> amount_ok((#[trigger] s[i]).price)
}

/// The two sides of the market for one region.
pub struct OrderBook {
    /// Highest price first.
    pub buy_orders: Vec<Order>,
    /// Lowest price first.
    pub sell_orders: Vec<Order>,
}

impl OrderBook {
    /// Both sides sorted the right way, prices representable.
    pub open spec fn wf(self) -> bool {
        &&& sorted_desc(self.buy_orders@)
        &&& sorted_asc(self.sell_orders@)
        &&& prices_ok(self.buy_orders@)
        &&& prices_ok(self.sell_orders@)
    }

    pub fn new() -> (r: OrderBook)
        ensures
            r.wf(),
            r.buy_orders@.len() == 0,
            r.sell_orders@.len() == 0,
    {
        OrderBook { buy_orders: Vec::new(), sell_orders: Vec::new() }
    }
}

/// Whether a book exists under the given region hash.
pub open spec fn has_book(books: Seq<(H256, OrderBook)>, k: Seq<u8>) -> bool {
    exists|i: int| 0 <= i < books.len() && (#[trigger] books[i]).0@ == k
}

/// The exchange: one order book per traded region.
pub struct Exchange {
    order_books: Vec<(H256, OrderBook)>,
}

impl Exchange {
    pub closed spec fn spec_books(self) -> Seq<(H256, OrderBook)> {
        self.order_books@
    }

    /// Every book is well formed.
    pub open spec fn wf(self) -> bool {
        forall|i: int| 0 <= i < self.spec_books().len()
            ==> (#[trigger] self.spec_books()[i]).1.wf()
    }

    pub fn new() -> (r: Exchange)
        ensures
            r.wf(),
            r.spec_books().len() == 0,
    {
        Exchange { order_books: Vec::new() }
    }

    /// File an order under its region's book (created on demand), keeping
    /// buys sorted highest-price-first and sells lowest-price-first.
    pub fn place_order(&mut self, order: Order)
        requires
            old(self).wf(),
            amount_ok(order.price),
        ensures
            final(self).wf(),
            has_book(final(self).spec_books(),
                blake3_of(enc_triangle(order.triangle))),
    {
        let triangle_id = triangle_hash(&order.triangle);
        let mut i: usize = 0;
        while i < self.order_books.len()
            invariant
                0 <= i <= self.spec_books().len(),
                *self == *old(self),
                old(self).wf(),
                amount_ok(order.price),
                triangle_id@ == blake3_of(enc_triangle(order.triangle)),
            decreases self.spec_books().len() - i,
        {
            let found = self.order_books[i].0 == triangle_id;
            if found {
                let (id, mut book) = self.order_books.remove(i);
                match order.order_type {
                    OrderType::Buy => {
                        insert_desc(&mut book.buy_orders, order);
                    },
                    OrderType::Sell => {
                        insert_asc(&mut book.sell_orders, order);
                    },
                }
                self.order_books.insert(i, (id, book));
                proof {
                    assert(self.spec_books()[i as int].0@ == triangle_id@);
                    assert(has_book(self.spec_books(), triangle_id@));
                    assert forall|k: int| 0 <= k < self.spec_books().len()
                        implies (#[trigger] self.spec_books()[k]).1.wf() by {
                        if k != i {
                            assert(self.spec_books()[k]
                                == old(self).spec_books()[k]);
                        }
                    }
                }
                return;
            }
            i = i + 1;
        }
        let mut book = OrderBook::new();
        match order.order_type {
            OrderType::Buy => {
                insert_desc(&mut book.buy_orders, order);
            },
            OrderType::Sell => {
                insert_asc(&mut book.sell_orders, order);
            },
        }
        self.order_books.push((triangle_id, book));
        proof {
            let n = self.spec_books().len();
            assert(self.spec_books()[n - 1].0@ == triangle_id@);
            assert(has_book(self.spec_books(), triangle_id@));
            assert forall|k: int| 0 <= k < self.spec_books().len()
                implies (#[trigger] self.spec_books()[k]).1.wf() by {
                if k < n - 1 {
                    assert(self.spec_books()[k] == old(self).spec_books()[k]);
                }
            }
        }
    }
}

/// Insert an order into a highest-first sequence, keeping it sorted.
fn insert_desc(v: &mut Vec<Order>, o: Order)
    requires
        sorted_desc(old(v)@),
        prices_ok(old(v)@),
        amount_ok(o.price),
    ensures
        sorted_desc(final(v)@),
        prices_ok(final(v)@),
        final(v)@.len() == old(v)@.len() + 1,
{
    let mut i: usize = 0;
    while i < v.len()
        invariant
            0 <= i <= v@.len(),
            *v == *old(v),
            sorted_desc(v@),
            prices_ok(v@),
            amount_ok(o.price),
            forall|k: int| 0 <= k < i ==> amt((#[trigger] v@[k]).price) >= amt(o.price),
        ensures
            0 <= i <= v@.len(),
            *v == *old(v),
            sorted_desc(v@),
            prices_ok(v@),
            amount_ok(o.price),
            forall|k: int| 0 <= k < i ==> amt((#[trigger] v@[k]).price) >= amt(o.price),
            i < v@.len() ==> amt(v@[i as int].price) < amt(o.price),
        decreases v@.len() - i,
    {
        let smaller = v[i].price.amount_lt(o.price);
        if smaller {
            break;
        }
        i = i + 1;
    }
    proof {
        assert(forall|k: int| 0 <= k < i ==> amt((#[trigger] v@[k]).price) >= amt(o.price));
    }
    let ghost pre = v@;
    let ghost at = i as int;
    v.insert(i, o);
    proof {
        assert forall|a: int, b: int| 0 <= a < b < v@.len()
            implies amt((#[trigger] v@[a]).price) >= amt(#[trigger] v@[b].price) by {
            lemma_insert_index(pre, o, at, a);
            lemma_insert_index(pre, o, at, b);
            if a < at && b == at {
            } else if a == at && b > at {
                assert(amt(pre[b - 1].price) <= amt(pre[at].price) || at == pre.len());
                if at < pre.len() {
                    assert(amt(pre[at].price) < amt(o.price));
                }
            }
        }
    }
}

/// Insert an order into a lowest-first sequence, keeping it sorted.
fn insert_asc(v: &mut Vec<Order>, o: Order)
    requires
        sorted_asc(old(v)@),
        prices_ok(old(v)@),
        amount_ok(o.price),
    ensures
        sorted_asc(final(v)@),
        prices_ok(final(v)@),
        final(v)@.len() == old(v)@.len() + 1,
{
    let mut i: usize = 0;
    while i < v.len()
        invariant
            0 <= i <= v@.len(),
            *v == *old(v),
            sorted_asc(v@),
            prices_ok(v@),
            amount_ok(o.price),
            forall|k: int| 0 <= k < i ==> amt((#[trigger] v@[k]).price) <= amt(o.price),
        ensures
            0 <= i <= v@.len(),
            *v == *old(v),
            sorted_asc(v@),
            prices_ok(v@),
            amount_ok(o.price),
            forall|k: int| 0 <= k < i ==> amt((#[trigger] v@[k]).price) <= amt(o.price),
            i < v@.len() ==> amt(o.price) < amt(v@[i as int].price),
        decreases v@.len() - i,
    {
        let bigger = o.price.amount_lt(v[i].price);
        if bigger {
            break;
        }
        i = i + 1;
    }
    proof {
        assert(forall|k: int| 0 <= k < i ==> amt((#[trigger] v@[k]).price) <= amt(o.price));
    }
    let ghost pre = v@;
    let ghost at = i as int;
    v.insert(i, o);
    proof {
        assert forall|a: int, b: int| 0 <= a < b < v@.len()
            implies amt((#[trigger] v@[a]).price) <= amt(#[trigger] v@[b].price) by {
            lemma_insert_index(pre, o, at, a);
            lemma_insert_index(pre, o, at, b);
            if a == at && b > at {
                assert(amt(pre[b - 1].price) >= amt(pre[at].price) || at == pre.len());
                if at < pre.len() {
                    assert(amt(o.price) < amt(pre[at].price));
                }
            }
        }
    }
}

/// Where each position of `s.insert(at, o)` comes from.
proof fn lemma_insert_index(s: Seq<Order>, o: Order, at: int, k: int)
    requires
        0 <= at <= s.len(),
        0 <= k < s.len() + 1,
    ensures
        k < at ==> s.insert(at, o)[k] == s[k],
        k == at ==> s.insert(at, o)[k] == o,
        k > at ==> s.insert(at, o)[k] == s[k - 1],
{
}

} // verus!
