use perp_market_core::book::Order;
use perp_market_core::book::Orderbook;
use perp_market_core::book::SelfTradeBehavior;
use perp_market_core::book::Side;
use perp_market_core::book::TakerOrder;
use perp_market_core::error::Error;
use perp_market_core::event_queue::Event;
use perp_market_core::event_queue::EventQueue;

fn resting(owner: u64, order_id: u64, price: i64, quantity: i64) -> Order {
    Order {
        owner,
        order_id,
        client_order_id: order_id,
        price,
        quantity,
        post_only: false,
        reduce_only: false,
        expiry_ts: 0,
    }
}

fn taker(owner: u64, side: Side, price_limit: i64, quantity: i64) -> TakerOrder {
    TakerOrder { owner, side, price_limit, quantity, self_trade: SelfTradeBehavior::CancelIncoming }
}

#[test]
fn crossing_orders_produce_one_fill_at_the_resting_price() {
    let mut book = Orderbook::init(16);
    let mut queue = EventQueue::new(8);
    let mut seq: u64 = 0;
    book.asks.insert(resting(2, 1, 99, 10)).unwrap();

    let out = book.match_order(&mut queue, taker(1, Side::Bid, 100, 10), 777, &mut seq).unwrap();
    assert_eq!(out.consumed_quantity, 10);
    assert_eq!(out.remaining_quantity, 0);
    // exactly one fill, at the maker's price, and both sides end empty
    assert_eq!(queue.len(), 1);
    match queue.pop_front().unwrap() {
        Event::Fill(f) => {
            assert_eq!(f.maker, 2);
            assert_eq!(f.taker, 1);
            assert_eq!(f.price, 99);
            assert_eq!(f.quantity, 10);
            assert_eq!(f.timestamp, 777);
            assert_eq!(f.seq_num, 0);
        }
        Event::Out(_) => panic!("expected a fill"),
    }
    assert_eq!(book.asks.len(), 0);
    assert_eq!(book.bids.len(), 0);
    assert_eq!(seq, 1);
}

#[test]
fn partial_match_fills_the_smaller_quantity_and_keeps_the_rest() {
    let mut book = Orderbook::init(16);
    let mut queue = EventQueue::new(8);
    let mut seq: u64 = 0;
    book.asks.insert(resting(2, 1, 99, 4)).unwrap();

    let out = book.match_order(&mut queue, taker(1, Side::Bid, 100, 10), 777, &mut seq).unwrap();
    assert_eq!(out.consumed_quantity, 4);
    assert_eq!(out.remaining_quantity, 6);
    assert_eq!(queue.len(), 1);
    match queue.pop_front().unwrap() {
        Event::Fill(f) => {
            assert_eq!(f.quantity, 4);
            assert_eq!(f.price, 99);
        }
        Event::Out(_) => panic!("expected a fill"),
    }
    assert_eq!(book.asks.len(), 0);

    // the unfilled remainder rests on the bid side
    book.bids.insert(resting(1, 2, 100, out.remaining_quantity)).unwrap();
    assert_eq!(book.bids.len(), 1);
    assert_eq!(book.bids.peek_best().unwrap().quantity, 6);
}

#[test]
fn matching_stops_at_the_price_limit() {
    let mut book = Orderbook::init(16);
    let mut queue = EventQueue::new(8);
    let mut seq: u64 = 0;
    book.asks.insert(resting(2, 1, 99, 5)).unwrap();
    book.asks.insert(resting(3, 2, 101, 5)).unwrap();

    let out = book.match_order(&mut queue, taker(1, Side::Bid, 100, 10), 777, &mut seq).unwrap();
    assert_eq!(out.consumed_quantity, 5);
    assert_eq!(out.remaining_quantity, 5);
    assert_eq!(queue.len(), 1);
    // the 101 ask does not cross a 100 bid and stays
    assert_eq!(book.asks.len(), 1);
    assert_eq!(book.asks.peek_best().unwrap().order_id, 2);
}

#[test]
fn incoming_ask_matches_best_bid_first() {
    let mut book = Orderbook::init(16);
    let mut queue = EventQueue::new(8);
    let mut seq: u64 = 5;
    book.bids.insert(resting(2, 1, 100, 3)).unwrap();
    book.bids.insert(resting(3, 2, 102, 3)).unwrap();

    let out = book.match_order(&mut queue, taker(1, Side::Ask, 100, 6), 10, &mut seq).unwrap();
    assert_eq!(out.consumed_quantity, 6);
    assert_eq!(out.remaining_quantity, 0);
    assert_eq!(queue.len(), 2);
    match queue.pop_front().unwrap() {
        Event::Fill(f) => {
            assert_eq!(f.price, 102);
            assert_eq!(f.maker, 3);
            assert_eq!(f.seq_num, 5);
        }
        Event::Out(_) => panic!("expected a fill"),
    }
    match queue.pop_front().unwrap() {
        Event::Fill(f) => {
            assert_eq!(f.price, 100);
            assert_eq!(f.maker, 2);
            assert_eq!(f.seq_num, 6);
        }
        Event::Out(_) => panic!("expected a fill"),
    }
    assert_eq!(seq, 7);
}

#[test]
fn expired_resting_orders_leave_with_out_events() {
    let mut book = Orderbook::init(16);
    let mut queue = EventQueue::new(8);
    let mut seq: u64 = 0;
    let mut dead = resting(2, 1, 99, 5);
    dead.expiry_ts = 500;
    book.asks.insert(dead).unwrap();
    book.asks.insert(resting(3, 2, 99, 5)).unwrap();

    let out = book.match_order(&mut queue, taker(1, Side::Bid, 100, 5), 600, &mut seq).unwrap();
    assert_eq!(out.consumed_quantity, 5);
    assert_eq!(queue.len(), 2);
    match queue.pop_front().unwrap() {
        Event::Out(o) => {
            assert_eq!(o.owner, 2);
            assert_eq!(o.order_id, 1);
            assert_eq!(o.quantity, 5);
        }
        Event::Fill(_) => panic!("expected an out"),
    }
    match queue.pop_front().unwrap() {
        Event::Fill(f) => assert_eq!(f.maker, 3),
        Event::Out(_) => panic!("expected a fill"),
    }
    assert_eq!(book.asks.len(), 0);
}

#[test]
fn self_trade_cancel_resting_removes_own_order_without_a_fill() {
    let mut book = Orderbook::init(16);
    let mut queue = EventQueue::new(8);
    let mut seq: u64 = 0;
    book.asks.insert(resting(1, 1, 99, 5)).unwrap();
    book.asks.insert(resting(2, 2, 99, 5)).unwrap();

    let mut t = taker(1, Side::Bid, 100, 5);
    t.self_trade = SelfTradeBehavior::CancelResting;
    let out = book.match_order(&mut queue, t, 10, &mut seq).unwrap();
    assert_eq!(out.consumed_quantity, 5);
    assert_eq!(queue.len(), 2);
    match queue.pop_front().unwrap() {
        Event::Out(o) => assert_eq!(o.owner, 1),
        Event::Fill(_) => panic!("self trade must not fill"),
    }
    match queue.pop_front().unwrap() {
        Event::Fill(f) => assert_eq!(f.maker, 2),
        Event::Out(_) => panic!("expected a fill"),
    }
}

#[test]
fn self_trade_cancel_incoming_stops_matching_and_keeps_the_book() {
    let mut book = Orderbook::init(16);
    let mut queue = EventQueue::new(8);
    let mut seq: u64 = 0;
    book.asks.insert(resting(1, 1, 99, 5)).unwrap();

    let mut t = taker(1, Side::Bid, 100, 5);
    t.self_trade = SelfTradeBehavior::CancelIncoming;
    let out = book.match_order(&mut queue, t, 10, &mut seq).unwrap();
    assert_eq!(out.consumed_quantity, 5);
    assert_eq!(out.remaining_quantity, 0);
    assert_eq!(queue.len(), 0);
    assert_eq!(book.asks.len(), 1);
}

#[test]
fn self_trade_decrement_and_cancel_shrinks_both_without_a_fill() {
    let mut book = Orderbook::init(16);
    let mut queue = EventQueue::new(8);
    let mut seq: u64 = 0;
    book.asks.insert(resting(1, 1, 99, 10)).unwrap();

    let mut t = taker(1, Side::Bid, 100, 4);
    t.self_trade = SelfTradeBehavior::DecrementAndCancel;
    let out = book.match_order(&mut queue, t, 10, &mut seq).unwrap();
    assert_eq!(out.remaining_quantity, 0);
    assert_eq!(queue.len(), 1);
    match queue.pop_front().unwrap() {
        Event::Out(o) => assert_eq!(o.quantity, 4),
        Event::Fill(_) => panic!("self trade must not fill"),
    }
    assert_eq!(book.asks.peek_best().unwrap().quantity, 6);
}

#[test]
fn matching_into_a_full_queue_fails_and_appends_nothing() {
    let mut book = Orderbook::init(16);
    let mut queue = EventQueue::new(1);
    let mut seq: u64 = 0;
    queue
        .push(Event::Out(perp_market_core::event_queue::OutEvent {
            owner: 9,
            order_id: 9,
            quantity: 1,
            timestamp: 1,
            seq_num: 0,
        }))
        .unwrap();
    book.asks.insert(resting(2, 1, 99, 10)).unwrap();

    let err = book.match_order(&mut queue, taker(1, Side::Bid, 100, 10), 10, &mut seq).unwrap_err();
    assert_eq!(err, Error::QueueOverflow);
    assert_eq!(queue.len(), 1);
    assert_eq!(seq, 0);
}
