use perp_market_core::book::BookSide;
use perp_market_core::book::Order;
use perp_market_core::book::Side;
use perp_market_core::error::Error;
use perp_market_core::error::ErrorKind;

fn order(owner: u64, order_id: u64, price: i64, quantity: i64) -> Order {
    Order {
        owner,
        order_id,
        client_order_id: order_id,
        price,
        quantity,
        post_only: false,
        reduce_only: false,
        expiry_ts: 0,
    }
}

#[test]
fn bids_rank_by_descending_price_then_insertion() {
    let mut bids = BookSide::init(Side::Bid, 16);
    bids.insert(order(1, 1, 100, 5)).unwrap();
    bids.insert(order(2, 2, 105, 5)).unwrap();
    bids.insert(order(3, 3, 105, 5)).unwrap();
    bids.insert(order(4, 4, 90, 5)).unwrap();

    let best = bids.peek_best().unwrap();
    assert_eq!(best.order_id, 2);
    assert_eq!(best.price, 105);

    // removing the best re-peeks the next-ranked order: the equal-priced
    // later insertion first, then lower prices
    bids.remove(2).unwrap();
    assert_eq!(bids.peek_best().unwrap().order_id, 3);
    bids.remove(3).unwrap();
    assert_eq!(bids.peek_best().unwrap().order_id, 1);
    bids.remove(1).unwrap();
    assert_eq!(bids.peek_best().unwrap().order_id, 4);
    bids.remove(4).unwrap();
    assert!(bids.peek_best().is_none());
}

#[test]
fn asks_rank_by_ascending_price_then_insertion() {
    let mut asks = BookSide::init(Side::Ask, 16);
    asks.insert(order(1, 1, 100, 5)).unwrap();
    asks.insert(order(2, 2, 95, 5)).unwrap();
    asks.insert(order(3, 3, 95, 5)).unwrap();
    asks.insert(order(4, 4, 110, 5)).unwrap();

    assert_eq!(asks.peek_best().unwrap().order_id, 2);
    asks.remove(2).unwrap();
    assert_eq!(asks.peek_best().unwrap().order_id, 3);
    asks.remove(3).unwrap();
    assert_eq!(asks.peek_best().unwrap().order_id, 1);
    asks.remove(1).unwrap();
    assert_eq!(asks.peek_best().unwrap().order_id, 4);
}

#[test]
fn insert_fails_book_full_at_capacity() {
    let mut bids = BookSide::init(Side::Bid, 1);
    bids.insert(order(1, 1, 100, 5)).unwrap();
    let err = bids.insert(order(2, 2, 101, 5)).unwrap_err();
    assert_eq!(err, Error::BookFull);
    assert_eq!(err.kind(), ErrorKind::Capacity);
    assert_eq!(bids.len(), 1);
}

#[test]
fn remove_unknown_id_fails_order_not_found() {
    let mut asks = BookSide::init(Side::Ask, 8);
    asks.insert(order(1, 1, 100, 5)).unwrap();
    let err = asks.remove(77).unwrap_err();
    assert_eq!(err, Error::OrderNotFound);
    assert_eq!(asks.len(), 1);
    let removed = asks.remove(1).unwrap();
    assert_eq!(removed.order_id, 1);
    assert_eq!(asks.len(), 0);
}
