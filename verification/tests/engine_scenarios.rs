use clob_core::book::{OrderBookEngine, OrderBookError};
use clob_core::order::{Order, OrderSide, OrderStatus, OrderType, TimeInForce, Trade};

const P: u64 = 100_000_000; // one whole currency unit in fixed-point units

fn price(units: u64, hundredths: u64) -> u64 {
    units * P + hundredths * (P / 100)
}

fn limit_order(
    id: u128,
    user_id: i32,
    side: OrderSide,
    tif: TimeInForce,
    px: u64,
    qty: u64,
    t: i64,
) -> Order {
    Order {
        id,
        user_id,
        event_id: 1,
        option_id: 1,
        side,
        order_type: OrderType::Limit,
        time_in_force: tif,
        price: px,
        quantity: qty,
        filled_quantity: 0,
        status: OrderStatus::Pending,
        created_at: t,
        updated_at: t,
    }
}

fn market_order(id: u128, user_id: i32, side: OrderSide, qty: u64, t: i64) -> Order {
    Order {
        order_type: OrderType::Market,
        ..limit_order(id, user_id, side, TimeInForce::GTC, 1, qty, t)
    }
}

fn total_volume(book: &OrderBookEngine) -> u128 {
    book.resting_orders()
        .iter()
        .map(|o| (o.quantity - o.filled_quantity) as u128)
        .sum()
}

#[test]
fn limit_buy_builds_book_limit_sell_crosses() {
    let mut book = OrderBookEngine::new(1, 1);
    let mut buy = limit_order(10, 1, OrderSide::Buy, TimeInForce::GTC, price(0, 50), 10, 1000);
    let trades = book.submit_order(&mut buy, 1000).expect("buy accepted");
    assert!(trades.is_empty());
    assert_eq!(book.get_best_bid_price(), Some(price(0, 50)));
    assert_eq!(book.get_best_ask_price(), None);
    assert_eq!(total_volume(&book), 10);

    let mut sell = limit_order(11, 2, OrderSide::Sell, TimeInForce::GTC, price(0, 50), 6, 1001);
    let trades = book.submit_order(&mut sell, 1001).expect("sell accepted");
    assert_eq!(trades.len(), 1);
    let t = &trades[0];
    assert_eq!(t.price, price(0, 50));
    assert_eq!(t.quantity, 6);
    assert_eq!(t.buyer_id, 1);
    assert_eq!(t.seller_id, 2);
    assert_eq!(t.buy_order_id, 10);
    assert_eq!(t.sell_order_id, 11);
    // 0.50 * 6 = 3.00
    assert_eq!(t.total_amount, 3 * P as u128);
    assert_eq!(sell.status, OrderStatus::Filled);
    assert_eq!(sell.filled_quantity, 6);

    // The book keeps the buyer's remainder of 4 at 0.50.
    let resting = book.resting_orders();
    assert_eq!(resting.len(), 1);
    assert_eq!(resting[0].id, 10);
    assert_eq!(resting[0].filled_quantity, 6);
    assert_eq!(resting[0].status, OrderStatus::PartiallyFilled);
    assert_eq!(total_volume(&book), 4);
    assert_eq!(book.get_best_bid_price(), Some(price(0, 50)));
}

#[test]
fn price_time_priority_earlier_order_fills_first() {
    let mut book = OrderBookEngine::new(1, 1);
    let mut a = limit_order(1, 1, OrderSide::Buy, TimeInForce::GTC, price(0, 60), 5, 1);
    let mut b = limit_order(2, 2, OrderSide::Buy, TimeInForce::GTC, price(0, 60), 5, 2);
    book.submit_order(&mut a, 1).unwrap();
    book.submit_order(&mut b, 2).unwrap();

    let mut c = limit_order(3, 3, OrderSide::Sell, TimeInForce::GTC, price(0, 60), 3, 3);
    let trades = book.submit_order(&mut c, 3).unwrap();
    assert_eq!(trades.len(), 1);
    assert_eq!(trades[0].buyer_id, 1);
    assert_eq!(trades[0].quantity, 3);
    assert_eq!(trades[0].price, price(0, 60));

    // A is part-filled, B untouched.
    let resting = book.resting_orders();
    let a_rest = resting.iter().find(|o| o.id == 1).unwrap();
    let b_rest = resting.iter().find(|o| o.id == 2).unwrap();
    assert_eq!(a_rest.filled_quantity, 3);
    assert_eq!(b_rest.filled_quantity, 0);
}

#[test]
fn fok_rejects_when_one_unit_short() {
    let mut book = OrderBookEngine::new(1, 1);
    let mut s1 = limit_order(1, 1, OrderSide::Sell, TimeInForce::GTC, price(0, 70), 2, 1);
    let mut s2 = limit_order(2, 2, OrderSide::Sell, TimeInForce::GTC, price(0, 70), 2, 2);
    book.submit_order(&mut s1, 1).unwrap();
    book.submit_order(&mut s2, 2).unwrap();
    assert_eq!(total_volume(&book), 4);

    let mut fok = limit_order(3, 3, OrderSide::Buy, TimeInForce::FOK, price(0, 70), 5, 3);
    let trades = book.submit_order(&mut fok, 3).unwrap();
    assert!(trades.is_empty());
    assert_eq!(fok.status, OrderStatus::Rejected);
    assert_eq!(fok.filled_quantity, 0);
    // Book unchanged.
    assert_eq!(total_volume(&book), 4);
    assert_eq!(book.get_best_ask_price(), Some(price(0, 70)));
}

#[test]
fn fok_with_exact_available_volume_fills_entirely() {
    let mut book = OrderBookEngine::new(1, 1);
    let mut s1 = limit_order(1, 1, OrderSide::Sell, TimeInForce::GTC, price(0, 70), 2, 1);
    let mut s2 = limit_order(2, 2, OrderSide::Sell, TimeInForce::GTC, price(0, 70), 3, 2);
    book.submit_order(&mut s1, 1).unwrap();
    book.submit_order(&mut s2, 2).unwrap();

    let mut fok = limit_order(3, 3, OrderSide::Buy, TimeInForce::FOK, price(0, 70), 5, 3);
    let trades = book.submit_order(&mut fok, 3).unwrap();
    assert_eq!(trades.len(), 2);
    assert_eq!(fok.status, OrderStatus::Filled);
    assert_eq!(fok.filled_quantity, 5);
    assert_eq!(total_volume(&book), 0);
}

#[test]
fn market_sell_drains_two_levels_at_vwap() {
    let mut book = OrderBookEngine::new(1, 1);
    let mut b1 = limit_order(1, 1, OrderSide::Buy, TimeInForce::GTC, price(0, 65), 3, 1);
    let mut b2 = limit_order(2, 2, OrderSide::Buy, TimeInForce::GTC, price(0, 60), 4, 2);
    book.submit_order(&mut b1, 1).unwrap();
    book.submit_order(&mut b2, 2).unwrap();

    let mut m = market_order(3, 3, OrderSide::Sell, 5, 3);
    let trades = book.submit_order(&mut m, 3).unwrap();
    assert_eq!(trades.len(), 2);
    assert_eq!((trades[0].price, trades[0].quantity), (price(0, 65), 3));
    assert_eq!((trades[1].price, trades[1].quantity), (price(0, 60), 2));
    // Volume-weighted average: (3*0.65 + 2*0.60) / 5 = 0.63.
    assert_eq!(m.price, price(0, 63));
    assert_eq!(m.status, OrderStatus::Filled);
    // The market order never rests; the bid remainder of 2 at 0.60 stays.
    assert_eq!(total_volume(&book), 2);
    assert_eq!(book.get_best_bid_price(), Some(price(0, 60)));
    assert_eq!(book.get_best_ask_price(), None);
}

#[test]
fn market_order_against_empty_side_fails() {
    let mut book = OrderBookEngine::new(1, 1);
    let mut m = market_order(1, 1, OrderSide::Sell, 5, 1);
    assert_eq!(book.submit_order(&mut m, 1), Err(OrderBookError::NoLiquidity));
    assert_eq!(total_volume(&book), 0);
}

#[test]
fn market_order_against_partial_liquidity_part_fills_and_never_rests() {
    let mut book = OrderBookEngine::new(1, 1);
    let mut ask = limit_order(1, 1, OrderSide::Sell, TimeInForce::GTC, price(0, 40), 3, 1);
    book.submit_order(&mut ask, 1).unwrap();

    let mut m = market_order(2, 2, OrderSide::Buy, 5, 2);
    let trades = book.submit_order(&mut m, 2).unwrap();
    assert_eq!(trades.len(), 1);
    assert_eq!(trades[0].quantity, 3);
    assert_eq!(m.filled_quantity, 3);
    assert_eq!(m.status, OrderStatus::PartiallyFilled);
    assert_eq!(m.price, price(0, 40));
    // Nothing rests on either side.
    assert_eq!(total_volume(&book), 0);
}

#[test]
fn order_at_exactly_best_opposite_price_matches() {
    let mut book = OrderBookEngine::new(1, 1);
    let mut ask = limit_order(1, 1, OrderSide::Sell, TimeInForce::GTC, price(0, 50), 4, 1);
    book.submit_order(&mut ask, 1).unwrap();

    let mut buy = limit_order(2, 2, OrderSide::Buy, TimeInForce::GTC, price(0, 50), 4, 2);
    let trades = book.submit_order(&mut buy, 2).unwrap();
    assert_eq!(trades.len(), 1);
    assert_eq!(trades[0].price, price(0, 50));
    assert_eq!(buy.status, OrderStatus::Filled);
}

#[test]
fn self_crossing_proceeds_as_normal_trade() {
    let mut book = OrderBookEngine::new(1, 1);
    let mut sell = limit_order(1, 7, OrderSide::Sell, TimeInForce::GTC, price(0, 40), 5, 1);
    book.submit_order(&mut sell, 1).unwrap();

    let mut buy = limit_order(2, 7, OrderSide::Buy, TimeInForce::GTC, price(0, 40), 5, 2);
    let trades = book.submit_order(&mut buy, 2).unwrap();
    assert_eq!(trades.len(), 1);
    assert_eq!(trades[0].buyer_id, 7);
    assert_eq!(trades[0].seller_id, 7);
    assert_eq!(total_volume(&book), 0);
}

#[test]
fn cancel_resting_order_then_cancel_again_errors() {
    let mut book = OrderBookEngine::new(1, 1);
    let mut buy = limit_order(9, 1, OrderSide::Buy, TimeInForce::GTC, price(0, 50), 10, 1);
    book.submit_order(&mut buy, 1).unwrap();
    assert_eq!(total_volume(&book), 10);

    let cancelled = book.cancel_order(9, 2).expect("first cancel succeeds");
    assert_eq!(cancelled.status, OrderStatus::Cancelled);
    assert_eq!(cancelled.filled_quantity, 0);
    assert_eq!(cancelled.updated_at, 2);
    assert_eq!(total_volume(&book), 0);
    assert_eq!(book.get_best_bid_price(), None);

    // Cancelling a cancelled order is a no-op: not found, book unchanged.
    assert_eq!(book.cancel_order(9, 3), Err(OrderBookError::OrderNotFound));
    assert_eq!(total_volume(&book), 0);
}

#[test]
fn submit_validation_errors() {
    let mut book = OrderBookEngine::new(1, 1);
    let mut wrong_book = limit_order(1, 1, OrderSide::Buy, TimeInForce::GTC, price(0, 50), 5, 1);
    wrong_book.event_id = 2;
    assert_eq!(book.submit_order(&mut wrong_book, 1), Err(OrderBookError::BookMismatch));

    let mut zero_qty = limit_order(2, 1, OrderSide::Buy, TimeInForce::GTC, price(0, 50), 1, 1);
    zero_qty.quantity = 0;
    assert_eq!(book.submit_order(&mut zero_qty, 1), Err(OrderBookError::InvalidQuantity));

    let mut zero_price = limit_order(3, 1, OrderSide::Buy, TimeInForce::GTC, 1, 5, 1);
    zero_price.price = 0;
    assert_eq!(book.submit_order(&mut zero_price, 1), Err(OrderBookError::InvalidPrice));

    let mut first = limit_order(4, 1, OrderSide::Buy, TimeInForce::GTC, price(0, 50), 5, 1);
    book.submit_order(&mut first, 1).unwrap();
    let mut dup = limit_order(4, 2, OrderSide::Sell, TimeInForce::GTC, price(0, 60), 5, 2);
    assert_eq!(book.submit_order(&mut dup, 2), Err(OrderBookError::DuplicateOrderId));

    let mut huge = limit_order(5, 1, OrderSide::Buy, TimeInForce::GTC, price(0, 10), u64::MAX, 3);
    assert_eq!(book.submit_order(&mut huge, 3), Err(OrderBookError::CapacityExceeded));
}

#[test]
fn ioc_remainder_is_cancelled() {
    let mut book = OrderBookEngine::new(1, 1);
    let mut ask = limit_order(1, 1, OrderSide::Sell, TimeInForce::GTC, price(0, 50), 3, 1);
    book.submit_order(&mut ask, 1).unwrap();

    let mut ioc = limit_order(2, 2, OrderSide::Buy, TimeInForce::IOC, price(0, 50), 5, 2);
    let trades = book.submit_order(&mut ioc, 2).unwrap();
    assert_eq!(trades.len(), 1);
    assert_eq!(ioc.filled_quantity, 3);
    assert_eq!(ioc.status, OrderStatus::Cancelled);
    // The remainder did not rest.
    assert_eq!(total_volume(&book), 0);
}

fn normalize(trades: &[Trade]) -> Vec<Trade> {
    trades.iter().map(|t| Trade { id: 0, ..*t }).collect()
}

fn run_scripted_session(book: &mut OrderBookEngine) -> Vec<Trade> {
    let mut all = Vec::new();
    let mut a = limit_order(1, 1, OrderSide::Buy, TimeInForce::GTC, price(0, 60), 5, 1);
    all.extend(book.submit_order(&mut a, 1).unwrap());
    let mut b = limit_order(2, 2, OrderSide::Buy, TimeInForce::GTC, price(0, 55), 4, 2);
    all.extend(book.submit_order(&mut b, 2).unwrap());
    let mut c = limit_order(3, 3, OrderSide::Sell, TimeInForce::GTC, price(0, 55), 10, 3);
    all.extend(book.submit_order(&mut c, 3).unwrap());
    let mut d = market_order(4, 4, OrderSide::Buy, 2, 4);
    all.extend(book.submit_order(&mut d, 4).unwrap());
    all
}

#[test]
fn matching_is_deterministic_up_to_trade_ids() {
    let mut book1 = OrderBookEngine::new(1, 1);
    let mut book2 = OrderBookEngine::new(1, 1);
    let t1 = run_scripted_session(&mut book1);
    let t2 = run_scripted_session(&mut book2);
    assert_eq!(normalize(&t1), normalize(&t2));
    assert_eq!(book1.resting_orders(), book2.resting_orders());
    assert_eq!(book1.get_best_bid_price(), book2.get_best_bid_price());
    assert_eq!(book1.get_best_ask_price(), book2.get_best_ask_price());
}

#[test]
fn book_never_crosses_at_rest() {
    let mut book = OrderBookEngine::new(1, 1);
    let mut b = limit_order(1, 1, OrderSide::Buy, TimeInForce::GTC, price(0, 45), 5, 1);
    let mut s = limit_order(2, 2, OrderSide::Sell, TimeInForce::GTC, price(0, 55), 5, 2);
    let mut cross = limit_order(3, 3, OrderSide::Buy, TimeInForce::GTC, price(0, 58), 2, 3);
    book.submit_order(&mut b, 1).unwrap();
    book.submit_order(&mut s, 2).unwrap();
    book.submit_order(&mut cross, 3).unwrap();
    let bid = book.get_best_bid_price().unwrap();
    let ask = book.get_best_ask_price().unwrap();
    assert!(bid < ask, "book at rest must not cross: bid {bid} ask {ask}");
}
