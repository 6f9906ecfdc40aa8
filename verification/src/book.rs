use vstd::prelude::*;

use crate::error::Error;
use crate::event_queue::Event;
use crate::event_queue::EventQueue;
use crate::event_queue::FillEvent;
use crate::event_queue::OutEvent;

verus! {

#[derive(Clone, Copy, Debug, PartialEq, Eq, Structural)]
pub enum Side {
    Bid,
    Ask,
}

/// What to do when the incoming order would cross a resting order of the
/// same owner. Matching one's own order silently would be a correctness
/// defect, so the branch is always explicit, selected by the incoming
/// order's flag.
#[derive(Clone, Copy, Debug, PartialEq, Eq, Structural)]
pub enum SelfTradeBehavior {
    /// Remove the resting order (an Out event) and keep matching.
    CancelResting,
    /// Stop matching; the incoming order's remaining quantity is dropped.
    CancelIncoming,
    /// Decrement both orders by the smaller quantity without a fill (an
    /// Out event for the resting part), then keep matching.
    DecrementAndCancel,
}

/// A resting order. Price is in quote-lot units, quantity in base-lot
/// units; both stay strictly positive while the order is on the book.
#[derive(Clone, Copy, Debug, PartialEq, Eq, Structural)]
pub struct Order {
    pub owner: u64,
    /// Unique per side; assigned from the market's sequence number, so a
    /// smaller id means earlier insertion.
    pub order_id: u64,
    pub client_order_id: u64,
    pub price: i64,
    pub quantity: i64,
    pub post_only: bool,
    pub reduce_only: bool,
    /// 0 means no expiry; otherwise the order is dead once `now` reaches
    /// this timestamp.
    pub expiry_ts: u64,
}

/// The incoming (taker) order handed to matching.
#[derive(Clone, Copy, Debug, PartialEq, Eq, Structural)]
pub struct TakerOrder {
    pub owner: u64,
    /// The taker's own side: a bid consumes the ask side and conversely.
    pub side: Side,
    /// Worst acceptable price: an upper bound for a bid, a lower bound for
    /// an ask.
    pub price_limit: i64,
    pub quantity: i64,
    pub self_trade: SelfTradeBehavior,
}

/// Price-time priority: `a` outranks `b` on `side` when its price is more
/// aggressive, or at equal price when it was inserted earlier (smaller
/// id). Bids rank by descending price, asks by ascending price.
pub open spec fn ranks_before(side: Side, a: Order, b: Order) -> bool {
    match side {
        Side::Bid => a.price > b.price || (a.price == b.price && a.order_id < b.order_id),
        Side::Ask => a.price < b.price || (a.price == b.price && a.order_id < b.order_id),
    }
}

/// Price-time priority, executable form.
pub fn ranks_before_exec(side: Side, a: &Order, b: &Order) -> (r: bool)
    ensures
        r == ranks_before(side, *a, *b),
{
    match side {
        Side::Bid => a.price > b.price || (a.price == b.price && a.order_id < b.order_id),
        Side::Ask => a.price < b.price || (a.price == b.price && a.order_id < b.order_id),
    }
}

/// Two orders with distinct ids always compare one way or the other.
pub proof fn lemma_ranks_total(side: Side, a: Order, b: Order)
    requires
        a.order_id != b.order_id,
    ensures
        ranks_before(side, a, b) || ranks_before(side, b, a),
{
}

/// Ranking is transitive.
pub proof fn lemma_ranks_trans(side: Side, a: Order, b: Order, c: Order)
    requires
        ranks_before(side, a, b),
        ranks_before(side, b, c),
    ensures
        ranks_before(side, a, c),
{
}

/// Well-formed contents of one side: strictly ordered by that side's
/// priority rule (so ids are distinct), no duplicate (owner, client id)
/// pair, and positive prices and quantities.
pub open spec fn wf_orders(side: Side, s: Seq<Order>) -> bool {
    &&& forall|i: int, j: int|
        0 <= i < j < s.len() ==> ranks_before(side, #[trigger] s[i], #[trigger] s[j])
    &&& forall|i: int, j: int|
        0 <= i < j < s.len() ==> !((#[trigger] s[i]).owner == (#[trigger] s[j]).owner
            && s[i].client_order_id == s[j].client_order_id)
    &&& forall|i: int| 0 <= i < s.len() ==> (#[trigger] s[i]).price >= 1 && s[i].quantity >= 1
}

/// Whether the incoming order's limit crosses a resting price.
pub open spec fn crosses(taker_side: Side, limit: i64, resting_price: i64) -> bool {
    match taker_side {
        Side::Bid => limit >= resting_price,
        Side::Ask => limit <= resting_price,
    }
}

/// Whether a resting order is dead at time `now`.
pub open spec fn expired(o: Order, now: u64) -> bool {
    o.expiry_ts != 0 && o.expiry_ts <= now
}

/// One ordered side of the book: a fixed-capacity collection of resting
/// orders kept sorted by price-time priority.
#[derive(Debug)]
pub struct BookSide {
    pub side: Side,
    pub orders: Vec<Order>,
    pub capacity: usize,
}

/// Where `insert` puts a new order: before the first resting order it
/// outranks, i.e. after every equal-priced earlier order.
pub open spec fn insert_idx_spec(side: Side, s: Seq<Order>, o: Order) -> int
    decreases s.len(),
{
    if s.len() == 0 {
        0
    } else if ranks_before(side, o, s[0]) {
        0
    } else {
        1 + insert_idx_spec(side, s.drop_first(), o)
    }
}

/// `insert_idx_spec` is the first position whose order the new order
/// outranks.
pub proof fn lemma_insert_idx_char(side: Side, s: Seq<Order>, o: Order)
    ensures
        0 <= insert_idx_spec(side, s, o) <= s.len(),
        forall|j: int| 0 <= j < insert_idx_spec(side, s, o) ==> !ranks_before(side, o, s[j]),
        insert_idx_spec(side, s, o) < s.len() ==> ranks_before(
            side,
            o,
            s[insert_idx_spec(side, s, o)],
        ),
    decreases s.len(),
{
    if s.len() == 0 {
    } else if ranks_before(side, o, s[0]) {
    } else {
        lemma_insert_idx_char(side, s.drop_first(), o);
        assert forall|j: int| 0 <= j < insert_idx_spec(side, s, o) implies !ranks_before(
            side,
            o,
            s[j],
        ) by {
            if j > 0 {
                assert(s.drop_first()[j - 1] == s[j]);
            }
        }
        if insert_idx_spec(side, s, o) < s.len() {
            assert(s.drop_first()[insert_idx_spec(side, s.drop_first(), o)] == s[insert_idx_spec(
                side,
                s,
                o,
            )]);
        }
    }
}

/// First index holding `id`, or -1 when no resting order has it.
pub open spec fn find_idx_spec(s: Seq<Order>, id: u64) -> int
    decreases s.len(),
{
    if s.len() == 0 {
        -1
    } else if s[0].order_id == id {
        0
    } else {
        let r = find_idx_spec(s.drop_first(), id);
        if r < 0 {
            -1
        } else {
            1 + r
        }
    }
}

/// `find_idx_spec` finds `id` exactly when some resting order carries it.
pub proof fn lemma_find_idx_char(s: Seq<Order>, id: u64)
    ensures
        find_idx_spec(s, id) >= 0 ==> find_idx_spec(s, id) < s.len() && s[find_idx_spec(
            s,
            id,
        )].order_id == id,
        find_idx_spec(s, id) < 0 ==> forall|i: int| 0 <= i < s.len() ==> s[i].order_id != id,
        find_idx_spec(s, id) >= 0 ==> forall|i: int|
            0 <= i < find_idx_spec(s, id) ==> s[i].order_id != id,
    decreases s.len(),
{
    if s.len() == 0 {
    } else if s[0].order_id == id {
    } else {
        lemma_find_idx_char(s.drop_first(), id);
        assert(forall|i: int| 1 <= i < s.len() ==> s[i] == s.drop_first()[i - 1]);
    }
}

impl BookSide {
    pub open spec fn wf(self) -> bool {
        &&& wf_orders(self.side, self.orders@)
        &&& self.orders@.len() <= self.capacity
    }

    /// An empty side; establishes the empty-side invariants.
    pub fn init(side: Side, capacity: usize) -> (b: BookSide)
        ensures
            b.wf(),
            b.side == side,
            b.capacity == capacity,
            b.orders@ == Seq::<Order>::empty(),
    {
        let b = BookSide { side, orders: Vec::new(), capacity };
        proof {
            assert(b.orders@ =~= Seq::<Order>::empty());
        }
        b
    }

    /// Number of resting orders.
    pub fn len(&self) -> (n: usize)
        ensures
            n == self.orders@.len(),
    {
        self.orders.len()
    }

    /// Places `order` at its price-time position, keeping the side sorted.
    /// Fails `BookFull` when the side is at capacity. The caller
    /// guarantees a fresh id and a fresh (owner, client id) pair, which
    /// the side's invariant demands.
    pub fn insert(&mut self, order: Order) -> (r: Result<(), Error>)
        requires
            old(self).wf(),
            order.price >= 1,
            order.quantity >= 1,
            forall|i: int|
                0 <= i < old(self).orders@.len() ==> (#[trigger] old(
                    self,
                ).orders@[i]).order_id != order.order_id,
            forall|i: int|
                0 <= i < old(self).orders@.len() ==> !((#[trigger] old(
                    self,
                ).orders@[i]).owner == order.owner && old(self).orders@[i].client_order_id
                    == order.client_order_id),
        ensures
            final(self).wf(),
            final(self).side == old(self).side,
            final(self).capacity == old(self).capacity,
            old(self).orders@.len() == old(self).capacity ==> r == Err::<(), Error>(
                Error::BookFull,
            ) && *final(self) == *old(self),
            old(self).orders@.len() < old(self).capacity ==> r == Ok::<(), Error>(())
                && final(self).orders@ == old(self).orders@.insert(
                insert_idx_spec(old(self).side, old(self).orders@, order),
                order,
            ),
    {
        if self.orders.len() == self.capacity {
            return Err(Error::BookFull);
        }
        let ghost s = self.orders@;
        let ghost side = self.side;
        let mut i: usize = 0;
        while i < self.orders.len() && !ranks_before_exec(self.side, &order, &self.orders[i])
            invariant
                0 <= i <= s.len(),
                *self == *old(self),
                s == self.orders@,
                side == self.side,
                forall|j: int| 0 <= j < i ==> !ranks_before(side, order, #[trigger] s[j]),
            decreases s.len() - i,
        {
            i = i + 1;
        }
        proof {
            lemma_insert_idx_char(side, s, order);
            let k = insert_idx_spec(side, s, order);
            if k < i {
                assert(ranks_before(side, order, s[k]));
            }
            if i < k {
                assert(!ranks_before(side, order, s[i as int]));
            }
            assert(i == k);
        }
        self.orders.insert(i, order);
        proof {
            let k = i as int;
            let s2 = self.orders@;
            s.insert_ensures(k, order);
            assert forall|a: int, b: int| 0 <= a < b < s2.len() implies ranks_before(
                side,
                s2[a],
                s2[b],
            ) by {
                lemma_sorted_after_insert(side, s, order, k, a, b);
            }
            assert forall|a: int, b: int| 0 <= a < b < s2.len() implies !((#[trigger] s2[a]).owner
                == (#[trigger] s2[b]).owner && s2[a].client_order_id
                == s2[b].client_order_id) by {
                assert(s2[a] == if a < k {
                    s[a]
                } else if a == k {
                    order
                } else {
                    s[a - 1]
                });
                assert(s2[b] == if b < k {
                    s[b]
                } else if b == k {
                    order
                } else {
                    s[b - 1]
                });
            }
            assert forall|a: int| 0 <= a < s2.len() implies (#[trigger] s2[a]).price >= 1
                && s2[a].quantity >= 1 by {
                assert(s2[a] == if a < k {
                    s[a]
                } else if a == k {
                    order
                } else {
                    s[a - 1]
                });
            }
        }
        Ok(())
    }

    /// Removes the resting order with the given id, or fails
    /// `OrderNotFound` when no order on this side carries it.
    pub fn remove(&mut self, order_id: u64) -> (r: Result<Order, Error>)
        requires
            old(self).wf(),
        ensures
            final(self).wf(),
            final(self).side == old(self).side,
            final(self).capacity == old(self).capacity,
            find_idx_spec(old(self).orders@, order_id) < 0 ==> r == Err::<Order, Error>(
                Error::OrderNotFound,
            ) && *final(self) == *old(self),
            find_idx_spec(old(self).orders@, order_id) >= 0 ==> {
                &&& r == Ok::<Order, Error>(
                    old(self).orders@[find_idx_spec(old(self).orders@, order_id)],
                )
                &&& final(self).orders@ == old(self).orders@.remove(
                    find_idx_spec(old(self).orders@, order_id),
                )
            },
            (exists|i: int|
                0 <= i < old(self).orders@.len() && (#[trigger] old(
                    self,
                ).orders@[i]).order_id == order_id) <==> r is Ok,
    {
        let ghost s = self.orders@;
        let ghost side = self.side;
        proof {
            lemma_find_idx_char(s, order_id);
        }
        let mut i: usize = 0;
        while i < self.orders.len() && self.orders[i].order_id != order_id
            invariant
                0 <= i <= s.len(),
                *self == *old(self),
                s == self.orders@,
                side == self.side,
                forall|j: int| 0 <= j < i ==> (#[trigger] s[j]).order_id != order_id,
            decreases s.len() - i,
        {
            i = i + 1;
        }
        if i == self.orders.len() {
            proof {
                if find_idx_spec(s, order_id) >= 0 {
                    assert(s[find_idx_spec(s, order_id)].order_id == order_id);
                }
            }
            return Err(Error::OrderNotFound);
        }
        proof {
            let k = find_idx_spec(s, order_id);
            assert(s[i as int].order_id == order_id);
            if k < i {
                assert(s[k].order_id == order_id);
            }
            assert(i == k);
        }
        let removed = self.orders.remove(i);
        proof {
            lemma_wf_remove(side, s, i as int);
        }
        Ok(removed)
    }

    /// The order ranked highest by this side's priority rule, or `None` on
    /// an empty side. It outranks every other resting order.
    pub fn peek_best(&self) -> (r: Option<Order>)
        requires
            self.wf(),
        ensures
            self.orders@.len() == 0 ==> r == None::<Order>,
            self.orders@.len() > 0 ==> {
                &&& r == Some(self.orders@[0])
                &&& forall|i: int|
                    0 < i < self.orders@.len() ==> ranks_before(
                        self.side,
                        self.orders@[0],
                        #[trigger] self.orders@[i],
                    )
            },
    {
        if self.orders.len() == 0 {
            None
        } else {
            Some(self.orders[0])
        }
    }
}

/// Keeping the side sorted: the element placed at `k` outranks everything
/// from `k` on and is outranked by everything before `k`.
proof fn lemma_sorted_after_insert(side: Side, s: Seq<Order>, o: Order, k: int, a: int, b: int)
    requires
        forall|i: int, j: int|
            0 <= i < j < s.len() ==> ranks_before(side, #[trigger] s[i], #[trigger] s[j]),
        forall|i: int| 0 <= i < s.len() ==> (#[trigger] s[i]).order_id != o.order_id,
        k == insert_idx_spec(side, s, o),
        0 <= a < b < s.insert(k, o).len(),
    ensures
        ranks_before(side, s.insert(k, o)[a], s.insert(k, o)[b]),
{
    lemma_insert_idx_char(side, s, o);
    s.insert_ensures(k, o);
    let s2 = s.insert(k, o);
    if a == k {
        // o against a later element
        if b == k + 1 && k < s.len() {
        } else {
            assert(s2[b] == s[b - 1]);
            assert(ranks_before(side, o, s[k]));
            if b - 1 > k {
                lemma_ranks_trans(side, o, s[k], s[b - 1]);
            }
        }
    } else if b == k {
        assert(s2[a] == s[a]);
        assert(!ranks_before(side, o, s[a]));
        lemma_ranks_total(side, o, s[a]);
    } else if a < k && b > k {
        assert(s2[a] == s[a] && s2[b] == s[b - 1]);
        // a <= k - 1 and k <= b - 1, so a < b - 1 and the old ordering applies
        assert(a < b - 1);
    } else if b < k {
        assert(s2[a] == s[a] && s2[b] == s[b]);
    } else {
        // k < a
        assert(s2[a] == s[a - 1] && s2[b] == s[b - 1]);
    }
}

/// Removing any element keeps a side well formed.
pub proof fn lemma_wf_remove(side: Side, s: Seq<Order>, k: int)
    requires
        wf_orders(side, s),
        0 <= k < s.len(),
    ensures
        wf_orders(side, s.remove(k)),
{
    s.remove_ensures(k);
    let s2 = s.remove(k);
    assert forall|a: int| 0 <= a < s2.len() implies s2[a] == (if a < k {
        s[a]
    } else {
        s[a + 1]
    }) by {}
}

/// Price-time priority survives removal of the best order: on a
/// well-formed side the front order outranks all others, and once it is
/// removed the new front again outranks all orders that remain.
pub proof fn lemma_peek_best_after_remove(side: Side, s: Seq<Order>)
    requires
        wf_orders(side, s),
        s.len() >= 2,
    ensures
        wf_orders(side, s.remove(0)),
        s.remove(0)[0] == s[1],
        forall|i: int|
            0 < i < s.remove(0).len() ==> ranks_before(side, s.remove(0)[0], #[trigger] s.remove(
                0,
            )[i]),
{
    lemma_wf_remove(side, s, 0);
    s.remove_ensures(0);
    assert forall|i: int| 0 < i < s.remove(0).len() implies ranks_before(
        side,
        s.remove(0)[0],
        #[trigger] s.remove(0)[i],
    ) by {
        assert(s.remove(0)[i] == s[i + 1]);
        assert(ranks_before(side, s[1], s[i + 1]));
    }
}

/// Changing only the front order's quantity (to a still-positive value)
/// keeps a side well formed: ranking ignores quantity.
proof fn lemma_wf_update_front_quantity(side: Side, s: Seq<Order>, o: Order)
    requires
        wf_orders(side, s),
        s.len() >= 1,
        o.owner == s[0].owner,
        o.order_id == s[0].order_id,
        o.client_order_id == s[0].client_order_id,
        o.price == s[0].price,
        o.quantity >= 1,
    ensures
        wf_orders(side, s.update(0, o)),
{
    let s2 = s.update(0, o);
    assert forall|i: int, j: int| 0 <= i < j < s2.len() implies ranks_before(
        side,
        #[trigger] s2[i],
        #[trigger] s2[j],
    ) by {
        assert(ranks_before(side, s[i], s[j]));
    }
}

/// Everything matching produces and leaves behind, stated over the
/// consumed side's order sequence. `events` lists the Fill and Out records
/// in emission order, `resting` is what remains of the side, and
/// `remaining` is the incoming order's unfilled quantity.
pub struct MatchResult {
    pub events: Seq<Event>,
    pub resting: Seq<Order>,
    pub remaining: int,
}

/// The matching primitive: repeatedly pair the incoming order with the
/// best resting order while their prices cross. Each cross emits one Fill
/// at the resting (maker) order's price; an expired resting order leaves
/// with an Out record; a resting order of the incoming owner is handled by
/// the explicit self-trade branch. Events are numbered `seq`, `seq + 1`,
/// ... in emission order.
pub open spec fn match_spec(resting: Seq<Order>, taker: TakerOrder, now: u64, seq: int) -> MatchResult
    decreases resting.len(),
{
    if resting.len() == 0 || taker.quantity <= 0 || !crosses(
        taker.side,
        taker.price_limit,
        resting[0].price,
    ) {
        MatchResult { events: Seq::empty(), resting, remaining: taker.quantity as int }
    } else {
        let best = resting[0];
        if expired(best, now) {
            let out = Event::Out(
                OutEvent {
                    owner: best.owner,
                    order_id: best.order_id,
                    quantity: best.quantity,
                    timestamp: now,
                    seq_num: seq as u64,
                },
            );
            let rest = match_spec(resting.remove(0), taker, now, seq + 1);
            MatchResult {
                events: seq![out] + rest.events,
                resting: rest.resting,
                remaining: rest.remaining,
            }
        } else if best.owner == taker.owner {
            match taker.self_trade {
                SelfTradeBehavior::CancelResting => {
                    let out = Event::Out(
                        OutEvent {
                            owner: best.owner,
                            order_id: best.order_id,
                            quantity: best.quantity,
                            timestamp: now,
                            seq_num: seq as u64,
                        },
                    );
                    let rest = match_spec(resting.remove(0), taker, now, seq + 1);
                    MatchResult {
                        events: seq![out] + rest.events,
                        resting: rest.resting,
                        remaining: rest.remaining,
                    }
                },
                SelfTradeBehavior::CancelIncoming => MatchResult {
                    events: Seq::empty(),
                    resting,
                    remaining: 0,
                },
                SelfTradeBehavior::DecrementAndCancel => {
                    if taker.quantity < best.quantity {
                        let out = Event::Out(
                            OutEvent {
                                owner: best.owner,
                                order_id: best.order_id,
                                quantity: taker.quantity,
                                timestamp: now,
                                seq_num: seq as u64,
                            },
                        );
                        let shrunk = Order {
                            quantity: (best.quantity - taker.quantity) as i64,
                            ..best
                        };
                        MatchResult {
                            events: seq![out],
                            resting: resting.update(0, shrunk),
                            remaining: 0,
                        }
                    } else {
                        let out = Event::Out(
                            OutEvent {
                                owner: best.owner,
                                order_id: best.order_id,
                                quantity: best.quantity,
                                timestamp: now,
                                seq_num: seq as u64,
                            },
                        );
                        let cut = TakerOrder {
                            quantity: (taker.quantity - best.quantity) as i64,
                            ..taker
                        };
                        let rest = match_spec(resting.remove(0), cut, now, seq + 1);
                        MatchResult {
                            events: seq![out] + rest.events,
                            resting: rest.resting,
                            remaining: rest.remaining,
                        }
                    }
                },
            }
        } else {
            if taker.quantity < best.quantity {
                let fill = Event::Fill(
                    FillEvent {
                        maker: best.owner,
                        taker: taker.owner,
                        price: best.price,
                        quantity: taker.quantity,
                        timestamp: now,
                        seq_num: seq as u64,
                    },
                );
                let shrunk = Order { quantity: (best.quantity - taker.quantity) as i64, ..best };
                MatchResult { events: seq![fill], resting: resting.update(0, shrunk), remaining: 0 }
            } else {
                let fill = Event::Fill(
                    FillEvent {
                        maker: best.owner,
                        taker: taker.owner,
                        price: best.price,
                        quantity: best.quantity,
                        timestamp: now,
                        seq_num: seq as u64,
                    },
                );
                let cut = TakerOrder { quantity: (taker.quantity - best.quantity) as i64, ..taker };
                let rest = match_spec(resting.remove(0), cut, now, seq + 1);
                MatchResult {
                    events: seq![fill] + rest.events,
                    resting: rest.resting,
                    remaining: rest.remaining,
                }
            }
        }
    }
}

/// Every fill in `events` is priced at a resting (maker) order of the
/// side as it stood when matching began, with that order's owner as maker,
/// and never trades through the incoming order's limit.
pub open spec fn fills_within(events: Seq<Event>, resting: Seq<Order>, taker: TakerOrder) -> bool {
    forall|k: int|
        0 <= k < events.len() ==> ((#[trigger] events[k]) matches Event::Fill(f) ==> crosses(
            taker.side,
            taker.price_limit,
            f.price,
        ) && exists|i: int|
            0 <= i < resting.len() && (#[trigger] resting[i]).price == f.price && resting[i].owner
                == f.maker)
}

/// Prepending one acceptable event to an event list whose fills all come
/// from a sub-book embedded in `resting` keeps every fill acceptable.
proof fn lemma_fills_within_extend(
    ev: Event,
    rest_events: Seq<Event>,
    sub: Seq<Order>,
    resting: Seq<Order>,
    t2: TakerOrder,
    taker: TakerOrder,
)
    requires
        fills_within(rest_events, sub, t2),
        t2.side == taker.side,
        t2.price_limit == taker.price_limit,
        forall|i: int|
            0 <= i < sub.len() ==> exists|j: int|
                0 <= j < resting.len() && (#[trigger] resting[j]).price == (
                #[trigger] sub[i]).price && resting[j].owner == sub[i].owner,
        ev matches Event::Fill(f) ==> crosses(taker.side, taker.price_limit, f.price) && exists|
            i: int,
        |
            0 <= i < resting.len() && (#[trigger] resting[i]).price == f.price && resting[i].owner
                == f.maker,
    ensures
        fills_within(seq![ev] + rest_events, resting, taker),
{
    let evs = seq![ev] + rest_events;
    assert forall|k: int| 0 <= k < evs.len() implies ((#[trigger] evs[k]) matches Event::Fill(f)
        ==> crosses(taker.side, taker.price_limit, f.price) && exists|i: int|
        0 <= i < resting.len() && (#[trigger] resting[i]).price == f.price && resting[i].owner
            == f.maker) by {
        if k == 0 {
            assert(evs[k] == ev);
        } else {
            assert(evs[k] == rest_events[k - 1]);
            match rest_events[k - 1] {
                Event::Fill(f) => {
                    let i0 = choose|i: int|
                        0 <= i < sub.len() && (#[trigger] sub[i]).price == f.price && sub[i].owner
                            == f.maker;
                    assert(exists|j: int|
                        0 <= j < resting.len() && (#[trigger] resting[j]).price == sub[i0].price
                            && resting[j].owner == sub[i0].owner);
                },
                Event::Out(_) => {},
            }
        }
    }
}

/// Maker-price priority as a law: whatever the book held and whatever the
/// incoming order asked, every fill matching emits is priced at a resting
/// order of the consumed side, carries that order's owner as maker, and
/// crosses the incoming order's limit — the taker never trades through its
/// limit, and no fill price is invented.
pub proof fn lemma_fills_at_resting_prices(
    resting: Seq<Order>,
    taker: TakerOrder,
    now: u64,
    seq: int,
)
    ensures
        fills_within(match_spec(resting, taker, now, seq).events, resting, taker),
    decreases resting.len(),
{
    if resting.len() == 0 || taker.quantity <= 0 || !crosses(
        taker.side,
        taker.price_limit,
        resting[0].price,
    ) {
    } else {
        let best = resting[0];
        let sub = resting.remove(0);
        assert(forall|i: int| 0 <= i < sub.len() ==> #[trigger] sub[i] == resting[i + 1]);
        assert forall|i: int| 0 <= i < sub.len() implies exists|j: int|
            0 <= j < resting.len() && (#[trigger] resting[j]).price == (#[trigger] sub[i]).price
                && resting[j].owner == sub[i].owner by {
            assert(resting[i + 1].price == sub[i].price && resting[i + 1].owner == sub[i].owner);
        }
        if expired(best, now) {
            let rest = match_spec(sub, taker, now, seq + 1);
            lemma_fills_at_resting_prices(sub, taker, now, seq + 1);
            lemma_fills_within_extend(
                match_spec(resting, taker, now, seq).events[0],
                rest.events,
                sub,
                resting,
                taker,
                taker,
            );
        } else if best.owner == taker.owner {
            match taker.self_trade {
                SelfTradeBehavior::CancelResting => {
                    let rest = match_spec(sub, taker, now, seq + 1);
                    lemma_fills_at_resting_prices(sub, taker, now, seq + 1);
                    lemma_fills_within_extend(
                        match_spec(resting, taker, now, seq).events[0],
                        rest.events,
                        sub,
                        resting,
                        taker,
                        taker,
                    );
                },
                SelfTradeBehavior::CancelIncoming => {},
                SelfTradeBehavior::DecrementAndCancel => {
                    if taker.quantity < best.quantity {
                    } else {
                        let cut = TakerOrder {
                            quantity: (taker.quantity - best.quantity) as i64,
                            ..taker
                        };
                        let rest = match_spec(sub, cut, now, seq + 1);
                        lemma_fills_at_resting_prices(sub, cut, now, seq + 1);
                        lemma_fills_within_extend(
                            match_spec(resting, taker, now, seq).events[0],
                            rest.events,
                            sub,
                            resting,
                            cut,
                            taker,
                        );
                    }
                },
            }
        } else {
            if taker.quantity < best.quantity {
                let m = match_spec(resting, taker, now, seq);
                assert forall|k: int| 0 <= k < m.events.len() implies ((#[trigger] m.events[k])
                    matches Event::Fill(f) ==> crosses(taker.side, taker.price_limit, f.price)
                    && exists|i: int|
                    0 <= i < resting.len() && (#[trigger] resting[i]).price == f.price
                        && resting[i].owner == f.maker) by {
                    assert(k == 0);
                    assert(resting[0].price == best.price && resting[0].owner == best.owner);
                }
            } else {
                let cut = TakerOrder { quantity: (taker.quantity - best.quantity) as i64, ..taker };
                let rest = match_spec(sub, cut, now, seq + 1);
                lemma_fills_at_resting_prices(sub, cut, now, seq + 1);
                assert(resting[0].price == best.price && resting[0].owner == best.owner);
                lemma_fills_within_extend(
                    match_spec(resting, taker, now, seq).events[0],
                    rest.events,
                    sub,
                    resting,
                    cut,
                    taker,
                );
            }
        }
    }
}

/// Base lots recorded on one event.
pub open spec fn quantity_of(ev: Event) -> int {
    match ev {
        Event::Fill(f) => f.quantity as int,
        Event::Out(o) => o.quantity as int,
    }
}

/// Base lots recorded across a list of events.
pub open spec fn events_quantity(events: Seq<Event>) -> int
    decreases events.len(),
{
    if events.len() == 0 {
        0
    } else {
        quantity_of(events[0]) + events_quantity(events.drop_first())
    }
}

/// Base lots resting on one side.
pub open spec fn book_quantity(s: Seq<Order>) -> int
    decreases s.len(),
{
    if s.len() == 0 {
        0
    } else {
        s[0].quantity + book_quantity(s.drop_first())
    }
}

/// Conservation: every base lot that matching takes off the book is
/// recorded on exactly one event, as a Fill or as an Out; none appears and
/// none silently disappears.
pub proof fn lemma_match_conserves_quantity(
    resting: Seq<Order>,
    taker: TakerOrder,
    now: u64,
    seq: int,
)
    ensures
        ({
            let m = match_spec(resting, taker, now, seq);
            book_quantity(resting) == book_quantity(m.resting) + events_quantity(m.events)
        }),
    decreases resting.len(),
{
    let m = match_spec(resting, taker, now, seq);
    if resting.len() == 0 || taker.quantity <= 0 || !crosses(
        taker.side,
        taker.price_limit,
        resting[0].price,
    ) {
        assert(events_quantity(m.events) == 0);
    } else {
        let best = resting[0];
        let sub = resting.remove(0);
        assert(resting.drop_first() =~= sub);
        if expired(best, now) || (best.owner == taker.owner && taker.self_trade
            == SelfTradeBehavior::CancelResting) {
            let rest = match_spec(sub, taker, now, seq + 1);
            lemma_match_conserves_quantity(sub, taker, now, seq + 1);
            assert(m.events.drop_first() =~= rest.events);
        } else if best.owner == taker.owner {
            match taker.self_trade {
                SelfTradeBehavior::CancelResting => {},
                SelfTradeBehavior::CancelIncoming => {
                    assert(events_quantity(m.events) == 0);
                },
                SelfTradeBehavior::DecrementAndCancel => {
                    if taker.quantity < best.quantity {
                        assert(m.resting.drop_first() =~= sub);
                        assert(m.events.drop_first() =~= Seq::<Event>::empty());
                        assert(events_quantity(Seq::<Event>::empty()) == 0);
                    } else {
                        let cut = TakerOrder {
                            quantity: (taker.quantity - best.quantity) as i64,
                            ..taker
                        };
                        let rest = match_spec(sub, cut, now, seq + 1);
                        lemma_match_conserves_quantity(sub, cut, now, seq + 1);
                        assert(m.events.drop_first() =~= rest.events);
                    }
                },
            }
        } else {
            if taker.quantity < best.quantity {
                assert(m.resting.drop_first() =~= sub);
                assert(m.events.drop_first() =~= Seq::<Event>::empty());
                assert(events_quantity(Seq::<Event>::empty()) == 0);
            } else {
                let cut = TakerOrder { quantity: (taker.quantity - best.quantity) as i64, ..taker };
                let rest = match_spec(sub, cut, now, seq + 1);
                lemma_match_conserves_quantity(sub, cut, now, seq + 1);
                assert(m.events.drop_first() =~= rest.events);
            }
        }
    }
}

/// Matching never stops early: if the incoming order leaves with quantity
/// (not dropped by self-trade policy), then the consumed side is empty or
/// its best remaining price no longer crosses the incoming order's limit.
pub proof fn lemma_match_stops_only_when_done(
    resting: Seq<Order>,
    taker: TakerOrder,
    now: u64,
    seq: int,
)
    ensures
        ({
            let m = match_spec(resting, taker, now, seq);
            m.remaining > 0 ==> m.resting.len() == 0 || !crosses(
                taker.side,
                taker.price_limit,
                m.resting[0].price,
            )
        }),
    decreases resting.len(),
{
    if resting.len() == 0 || taker.quantity <= 0 || !crosses(
        taker.side,
        taker.price_limit,
        resting[0].price,
    ) {
    } else {
        let best = resting[0];
        let sub = resting.remove(0);
        if expired(best, now) {
            lemma_match_stops_only_when_done(sub, taker, now, seq + 1);
        } else if best.owner == taker.owner {
            match taker.self_trade {
                SelfTradeBehavior::CancelResting => {
                    lemma_match_stops_only_when_done(sub, taker, now, seq + 1);
                },
                SelfTradeBehavior::CancelIncoming => {},
                SelfTradeBehavior::DecrementAndCancel => {
                    if taker.quantity < best.quantity {
                    } else {
                        let cut = TakerOrder {
                            quantity: (taker.quantity - best.quantity) as i64,
                            ..taker
                        };
                        lemma_match_stops_only_when_done(sub, cut, now, seq + 1);
                    }
                },
            }
        } else {
            if taker.quantity < best.quantity {
            } else {
                let cut = TakerOrder { quantity: (taker.quantity - best.quantity) as i64, ..taker };
                lemma_match_stops_only_when_done(sub, cut, now, seq + 1);
            }
        }
    }
}

/// Matching keeps the consumed side well formed, never grows it, emits at
/// most one event per resting order, and never leaves the incoming order
/// with more quantity than it arrived with.
pub proof fn lemma_match_preserves_wf(
    side: Side,
    resting: Seq<Order>,
    taker: TakerOrder,
    now: u64,
    seq: int,
)
    requires
        wf_orders(side, resting),
        taker.quantity >= 0,
    ensures
        ({
            let m = match_spec(resting, taker, now, seq);
            &&& wf_orders(side, m.resting)
            &&& m.resting.len() <= resting.len()
            &&& m.events.len() <= resting.len()
            &&& 0 <= m.remaining <= taker.quantity
        }),
    decreases resting.len(),
{
    if resting.len() == 0 || taker.quantity <= 0 || !crosses(
        taker.side,
        taker.price_limit,
        resting[0].price,
    ) {
    } else {
        let best = resting[0];
        if expired(best, now) {
            lemma_wf_remove(side, resting, 0);
            lemma_match_preserves_wf(side, resting.remove(0), taker, now, seq + 1);
        } else if best.owner == taker.owner {
            match taker.self_trade {
                SelfTradeBehavior::CancelResting => {
                    lemma_wf_remove(side, resting, 0);
                    lemma_match_preserves_wf(side, resting.remove(0), taker, now, seq + 1);
                },
                SelfTradeBehavior::CancelIncoming => {},
                SelfTradeBehavior::DecrementAndCancel => {
                    if taker.quantity < best.quantity {
                        let shrunk = Order {
                            quantity: (best.quantity - taker.quantity) as i64,
                            ..best
                        };
                        lemma_wf_update_front_quantity(side, resting, shrunk);
                    } else {
                        let cut = TakerOrder {
                            quantity: (taker.quantity - best.quantity) as i64,
                            ..taker
                        };
                        lemma_wf_remove(side, resting, 0);
                        lemma_match_preserves_wf(side, resting.remove(0), cut, now, seq + 1);
                    }
                },
            }
        } else {
            if taker.quantity < best.quantity {
                let shrunk = Order { quantity: (best.quantity - taker.quantity) as i64, ..best };
                lemma_wf_update_front_quantity(side, resting, shrunk);
            } else {
                let cut = TakerOrder { quantity: (taker.quantity - best.quantity) as i64, ..taker };
                lemma_wf_remove(side, resting, 0);
                lemma_match_preserves_wf(side, resting.remove(0), cut, now, seq + 1);
            }
        }
    }
}

/// Runs one matching step chain against the front of `resting`, appending
/// the emitted events and returning the incoming order's unfilled
/// quantity; the effect is exactly `match_spec`.
fn match_loop(
    resting: &mut Vec<Order>,
    events: &mut Vec<Event>,
    taker: TakerOrder,
    now: u64,
    seq: u64,
) -> (remaining: i64)
    requires
        taker.quantity >= 0,
        forall|i: int|
            0 <= i < old(resting)@.len() ==> (#[trigger] old(resting)@[i]).quantity >= 1,
        seq + old(resting)@.len() <= u64::MAX,
    ensures
        ({
            let m = match_spec(old(resting)@, taker, now, seq as int);
            &&& final(resting)@ == m.resting
            &&& final(events)@ == old(events)@ + m.events
            &&& remaining == m.remaining
        }),
    decreases old(resting)@.len(),
{
    let ghost m = match_spec(old(resting)@, taker, now, seq as int);
    if resting.len() == 0 || taker.quantity <= 0 {
        proof {
            assert(final(events)@ =~= old(events)@ + m.events);
        }
        return taker.quantity;
    }
    let best = resting[0];
    let cross = match taker.side {
        Side::Bid => taker.price_limit >= best.price,
        Side::Ask => taker.price_limit <= best.price,
    };
    if !cross {
        proof {
            assert(final(events)@ =~= old(events)@ + m.events);
        }
        return taker.quantity;
    }
    if best.expiry_ts != 0 && best.expiry_ts <= now {
        events.push(
            Event::Out(
                OutEvent {
                    owner: best.owner,
                    order_id: best.order_id,
                    quantity: best.quantity,
                    timestamp: now,
                    seq_num: seq,
                },
            ),
        );
        resting.remove(0);
        let r = match_loop(resting, events, taker, now, seq + 1);
        proof {
            assert(final(events)@ =~= old(events)@ + m.events);
        }
        return r;
    }
    if best.owner == taker.owner {
        match taker.self_trade {
            SelfTradeBehavior::CancelResting => {
                events.push(
                    Event::Out(
                        OutEvent {
                            owner: best.owner,
                            order_id: best.order_id,
                            quantity: best.quantity,
                            timestamp: now,
                            seq_num: seq,
                        },
                    ),
                );
                resting.remove(0);
                let r = match_loop(resting, events, taker, now, seq + 1);
                proof {
                    assert(final(events)@ =~= old(events)@ + m.events);
                }
                r
            },
            SelfTradeBehavior::CancelIncoming => {
                proof {
                    assert(final(events)@ =~= old(events)@ + m.events);
                }
                0
            },
            SelfTradeBehavior::DecrementAndCancel => {
                if taker.quantity < best.quantity {
                    events.push(
                        Event::Out(
                            OutEvent {
                                owner: best.owner,
                                order_id: best.order_id,
                                quantity: taker.quantity,
                                timestamp: now,
                                seq_num: seq,
                            },
                        ),
                    );
                    let mut shrunk = best;
                    shrunk.quantity = best.quantity - taker.quantity;
                    resting[0] = shrunk;
                    proof {
                        assert(final(events)@ =~= old(events)@ + m.events);
                    }
                    0
                } else {
                    events.push(
                        Event::Out(
                            OutEvent {
                                owner: best.owner,
                                order_id: best.order_id,
                                quantity: best.quantity,
                                timestamp: now,
                                seq_num: seq,
                            },
                        ),
                    );
                    resting.remove(0);
                    let mut cut = taker;
                    cut.quantity = taker.quantity - best.quantity;
                    let r = match_loop(resting, events, cut, now, seq + 1);
                    proof {
                        assert(final(events)@ =~= old(events)@ + m.events);
                    }
                    r
                }
            },
        }
    } else {
        if taker.quantity < best.quantity {
            events.push(
                Event::Fill(
                    FillEvent {
                        maker: best.owner,
                        taker: taker.owner,
                        price: best.price,
                        quantity: taker.quantity,
                        timestamp: now,
                        seq_num: seq,
                    },
                ),
            );
            let mut shrunk = best;
            shrunk.quantity = best.quantity - taker.quantity;
            resting[0] = shrunk;
            proof {
                assert(final(events)@ =~= old(events)@ + m.events);
            }
            0
        } else {
            events.push(
                Event::Fill(
                    FillEvent {
                        maker: best.owner,
                        taker: taker.owner,
                        price: best.price,
                        quantity: best.quantity,
                        timestamp: now,
                        seq_num: seq,
                    },
                ),
            );
            resting.remove(0);
            let mut cut = taker;
            cut.quantity = taker.quantity - best.quantity;
            let r = match_loop(resting, events, cut, now, seq + 1);
            proof {
                assert(final(events)@ =~= old(events)@ + m.events);
            }
            r
        }
    }
}

/// What `match_order` reports on success.
#[derive(Clone, Copy, Debug, PartialEq, Eq, Structural)]
pub struct MatchOutcome {
    /// Base lots of the incoming order still unfilled (and not dropped by
    /// self-trade policy) when matching stopped.
    pub remaining_quantity: i64,
    /// Base lots of the incoming order no longer open: filled, or dropped
    /// by the self-trade policy.
    pub consumed_quantity: i64,
}

/// The two ordered sides plus the matching primitive that crosses them.
#[derive(Debug)]
pub struct Orderbook {
    pub bids: BookSide,
    pub asks: BookSide,
}

impl Orderbook {
    pub open spec fn wf(self) -> bool {
        &&& self.bids.wf()
        &&& self.bids.side == Side::Bid
        &&& self.asks.wf()
        &&& self.asks.side == Side::Ask
    }

    /// The side an incoming order of `taker_side` consumes.
    pub open spec fn opposite_orders(self, taker_side: Side) -> Seq<Order> {
        match taker_side {
            Side::Bid => self.asks.orders@,
            Side::Ask => self.bids.orders@,
        }
    }

    /// An empty book: both sides establish their empty-side invariants.
    pub fn init(capacity: usize) -> (ob: Orderbook)
        ensures
            ob.wf(),
            ob.bids.orders@ == Seq::<Order>::empty(),
            ob.asks.orders@ == Seq::<Order>::empty(),
            ob.bids.capacity == capacity,
            ob.asks.capacity == capacity,
    {
        Orderbook { bids: BookSide::init(Side::Bid, capacity), asks: BookSide::init(Side::Ask, capacity) }
    }

    /// Crosses `taker` against the opposite side: Fills at the resting
    /// orders' prices, expired or self-traded resting orders leave with
    /// Out records, and every emitted event is appended to `queue` with
    /// consecutive sequence numbers drawn from `seq_num`.
    ///
    /// When the queue lacks room for all emitted events the call reports
    /// `QueueOverflow` and appends nothing: events are never silently
    /// dropped, and the host discards the whole operation.
    pub fn match_order(
        &mut self,
        queue: &mut EventQueue,
        taker: TakerOrder,
        now: u64,
        seq_num: &mut u64,
    ) -> (r: Result<MatchOutcome, Error>)
        requires
            old(self).wf(),
            old(queue).wf(),
            taker.quantity >= 0,
            *old(seq_num) + old(self).opposite_orders(taker.side).len() <= u64::MAX,
        ensures
            final(self).wf(),
            final(queue).wf(),
            final(queue).capacity_spec() == old(queue).capacity_spec(),
            final(self).bids.capacity == old(self).bids.capacity,
            final(self).asks.capacity == old(self).asks.capacity,
            taker.side == Side::Bid ==> final(self).bids == old(self).bids,
            taker.side == Side::Ask ==> final(self).asks == old(self).asks,
            ({
                let m = match_spec(
                    old(self).opposite_orders(taker.side),
                    taker,
                    now,
                    *old(seq_num) as int,
                );
                &&& final(self).opposite_orders(taker.side) == m.resting
                &&& if old(queue).contents().len() + m.events.len() <= old(
                    queue,
                ).capacity_spec() {
                    &&& r == Ok::<MatchOutcome, Error>(
                        (MatchOutcome {
                            remaining_quantity: m.remaining as i64,
                            consumed_quantity: (taker.quantity - m.remaining) as i64,
                        }),
                    )
                    &&& final(queue).contents() == old(queue).contents() + m.events
                    &&& *final(seq_num) == *old(seq_num) + m.events.len()
                } else {
                    &&& r == Err::<MatchOutcome, Error>(Error::QueueOverflow)
                    &&& *final(queue) == *old(queue)
                    &&& *final(seq_num) == *old(seq_num)
                }
            }),
    {
        match taker.side {
            Side::Bid => run_match(&mut self.asks, queue, taker, now, seq_num),
            Side::Ask => run_match(&mut self.bids, queue, taker, now, seq_num),
        }
    }
}

/// Matching against one side, with the queue-capacity check and the event
/// hand-off.
fn run_match(
    bs: &mut BookSide,
    queue: &mut EventQueue,
    taker: TakerOrder,
    now: u64,
    seq_num: &mut u64,
) -> (r: Result<MatchOutcome, Error>)
    requires
        old(bs).wf(),
        old(queue).wf(),
        taker.quantity >= 0,
        *old(seq_num) + old(bs).orders@.len() <= u64::MAX,
    ensures
        final(bs).wf(),
        final(bs).side == old(bs).side,
        final(bs).capacity == old(bs).capacity,
        final(queue).wf(),
        final(queue).capacity_spec() == old(queue).capacity_spec(),
        ({
            let m = match_spec(old(bs).orders@, taker, now, *old(seq_num) as int);
            &&& final(bs).orders@ == m.resting
            &&& if old(queue).contents().len() + m.events.len() <= old(queue).capacity_spec() {
                &&& r == Ok::<MatchOutcome, Error>(
                    (MatchOutcome {
                        remaining_quantity: m.remaining as i64,
                        consumed_quantity: (taker.quantity - m.remaining) as i64,
                    }),
                )
                &&& final(queue).contents() == old(queue).contents() + m.events
                &&& *final(seq_num) == *old(seq_num) + m.events.len()
            } else {
                &&& r == Err::<MatchOutcome, Error>(Error::QueueOverflow)
                &&& *final(queue) == *old(queue)
                &&& *final(seq_num) == *old(seq_num)
            }
        }),
{
    let ghost m = match_spec(old(bs).orders@, taker, now, *old(seq_num) as int);
    let ghost side = bs.side;
    proof {
        lemma_match_preserves_wf(side, old(bs).orders@, taker, now, *old(seq_num) as int);
    }
    let mut events: Vec<Event> = Vec::new();
    let remaining = match_loop(&mut bs.orders, &mut events, taker, now, *seq_num);
    proof {
        assert(events@ =~= m.events);
    }
    let queue_len = queue.len();
    let room = queue.capacity() - queue_len;
    if events.len() > room {
        return Err(Error::QueueOverflow);
    }
    let mut i: usize = 0;
    while i < events.len()
        invariant
            0 <= i <= events@.len(),
            queue.wf(),
            queue.capacity_spec() == old(queue).capacity_spec(),
            queue.contents() == old(queue).contents() + events@.subrange(0, i as int),
            old(queue).contents().len() + events@.len() <= queue.capacity_spec(),
        decreases events@.len() - i,
    {
        proof {
            assert(events@.subrange(0, i as int).len() == i as int);
        }
        queue.push_with_space(events[i]);
        proof {
            assert(old(queue).contents() + events@.subrange(0, i + 1) =~= (old(
                queue,
            ).contents() + events@.subrange(0, i as int)).push(events@[i as int]));
        }
        i = i + 1;
    }
    proof {
        assert(events@.subrange(0, events@.len() as int) =~= events@);
    }
    *seq_num = *seq_num + (events.len() as u64);
    Ok(MatchOutcome { remaining_quantity: remaining, consumed_quantity: taker.quantity - remaining })
}

} // verus!
