use clob_core::book::OrderBookEngine;
use clob_core::cache::create_cache_key;
use clob_core::order::{
    parse_order_side, parse_order_status, parse_order_type, parse_time_in_force, Order, OrderSide,
    OrderStatus, OrderType, TimeInForce,
};
use clob_core::pagination::{PaginationInfo, PaginationQuery, PaginatedResponse};
use clob_core::requests::{check_admin_role, default_role, get_user_id, AuthenticatedUser};
use clob_core::subscription::{
    Disconnect, SubscriptionChannel, SubscriptionRegistry, SubscribeError, Unsubscribe,
};

const P: u64 = 100_000_000;

fn gtc(id: u128, user: i32, side: OrderSide, px: u64, qty: u64, t: i64) -> Order {
    Order {
        id,
        user_id: user,
        event_id: 1,
        option_id: 1,
        side,
        order_type: OrderType::Limit,
        time_in_force: TimeInForce::GTC,
        price: px,
        quantity: qty,
        filled_quantity: 0,
        status: OrderStatus::Pending,
        created_at: t,
        updated_at: t,
    }
}

#[test]
fn snapshot_mid_and_spread() {
    let mut book = OrderBookEngine::new(1, 1);
    let mut b = gtc(1, 1, OrderSide::Buy, 50 * P / 100, 10, 1);
    let mut s = gtc(2, 2, OrderSide::Sell, 60 * P / 100, 5, 2);
    book.submit_order(&mut b, 1).unwrap();
    book.submit_order(&mut s, 2).unwrap();

    let snap = book.get_snapshot(99);
    assert_eq!(snap.bids.len(), 1);
    assert_eq!(snap.asks.len(), 1);
    assert_eq!(snap.bids[0].price, 50 * P / 100);
    assert_eq!(snap.bids[0].quantity, 10);
    assert_eq!(snap.bids[0].order_count, 1);
    assert_eq!(snap.asks[0].price, 60 * P / 100);
    assert_eq!(snap.mid_price, Some(55 * P / 100));
    assert_eq!(snap.spread, Some(10 * P / 100));
    assert_eq!(snap.last_trade_price, None);
    assert_eq!(snap.timestamp, 99);
}

#[test]
fn market_depth_merges_sides_ascending() {
    let mut book = OrderBookEngine::new(1, 1);
    let mut b1 = gtc(1, 1, OrderSide::Buy, 50 * P / 100, 10, 1);
    let mut b2 = gtc(2, 2, OrderSide::Buy, 45 * P / 100, 3, 2);
    let mut s1 = gtc(3, 3, OrderSide::Sell, 60 * P / 100, 5, 3);
    book.submit_order(&mut b1, 1).unwrap();
    book.submit_order(&mut b2, 2).unwrap();
    book.submit_order(&mut s1, 3).unwrap();

    let depth = book.get_market_depth(20);
    assert_eq!(depth.len(), 3);
    assert_eq!(depth[0].price, 45 * P / 100);
    assert_eq!(depth[0].buy_quantity, 3);
    assert_eq!(depth[1].price, 50 * P / 100);
    assert_eq!(depth[1].buy_quantity, 10);
    assert_eq!(depth[1].sell_quantity, 0);
    assert_eq!(depth[2].price, 60 * P / 100);
    assert_eq!(depth[2].sell_quantity, 5);
    assert_eq!(depth[2].sell_orders, 1);
}

#[test]
fn vwap_over_recent_trades() {
    let mut book = OrderBookEngine::new(1, 1);
    let mut b1 = gtc(1, 1, OrderSide::Buy, 65 * P / 100, 3, 1);
    let mut b2 = gtc(2, 2, OrderSide::Buy, 60 * P / 100, 4, 2);
    book.submit_order(&mut b1, 1).unwrap();
    book.submit_order(&mut b2, 2).unwrap();
    let mut s = gtc(3, 3, OrderSide::Sell, 60 * P / 100, 5, 3);
    book.submit_order(&mut s, 3).unwrap();

    // Trades: 3 @ 0.65 and 2 @ 0.60, so the weighted average is 0.63.
    assert_eq!(book.calculate_vwap(10), Some(63 * P / 100));
    // A window of one trade sees only the last fill.
    assert_eq!(book.calculate_vwap(1), Some(60 * P / 100));
    let empty = OrderBookEngine::new(1, 1);
    assert_eq!(empty.calculate_vwap(10), None);

    // The trade log hands the same fills back, oldest first.
    let log = book.recent_trades(10);
    assert_eq!(log.len(), 2);
    assert_eq!((log[0].price, log[0].quantity), (65 * P / 100, 3));
    assert_eq!((log[1].price, log[1].quantity), (60 * P / 100, 2));
    assert_eq!(book.recent_trades(1).len(), 1);
    assert_eq!(book.recent_trades(1)[0].price, 60 * P / 100);
}

#[test]
fn predicted_price_leans_toward_the_thin_side() {
    let mut book = OrderBookEngine::new(1, 1);
    assert_eq!(book.get_predicted_price(), None);

    let mut b = gtc(1, 1, OrderSide::Buy, 50 * P / 100, 10, 1);
    let mut s = gtc(2, 2, OrderSide::Sell, 60 * P / 100, 30, 2);
    book.submit_order(&mut b, 1).unwrap();
    book.submit_order(&mut s, 2).unwrap();
    // Weights: bid 10/40, ask 30/40; predicted = 0.50*(3/4) + 0.60*(1/4) = 0.525.
    assert_eq!(book.get_predicted_price(), Some(525 * P / 1000));

    // With one side empty the last trade price answers.
    let mut one_sided = OrderBookEngine::new(1, 1);
    one_sided.set_last_trade_price(42 * P / 100);
    assert_eq!(one_sided.get_predicted_price(), Some(42 * P / 100));
}

#[test]
fn enum_names_round_trip() {
    assert_eq!(parse_order_side(&OrderSide::Sell.to_string()), OrderSide::Sell);
    assert_eq!(parse_order_side(&OrderSide::Buy.to_string()), OrderSide::Buy);
    assert_eq!(parse_order_type(&OrderType::Market.to_string()), OrderType::Market);
    assert_eq!(parse_order_type(&OrderType::Limit.to_string()), OrderType::Limit);
    assert_eq!(parse_time_in_force(&TimeInForce::IOC.to_string()), TimeInForce::IOC);
    assert_eq!(parse_time_in_force(&TimeInForce::FOK.to_string()), TimeInForce::FOK);
    assert_eq!(parse_time_in_force(&TimeInForce::GTC.to_string()), TimeInForce::GTC);
    for st in [
        OrderStatus::Pending,
        OrderStatus::PartiallyFilled,
        OrderStatus::Filled,
        OrderStatus::Cancelled,
        OrderStatus::Rejected,
    ] {
        assert_eq!(parse_order_status(&st.to_string()), st);
    }
    // Unknown names take the documented fallbacks.
    assert_eq!(parse_order_side("garbage"), OrderSide::Buy);
    assert_eq!(parse_order_type("garbage"), OrderType::Limit);
    assert_eq!(parse_time_in_force("garbage"), TimeInForce::GTC);
    assert_eq!(parse_order_status("garbage"), OrderStatus::Pending);
}

#[test]
fn channel_names_parse() {
    assert_eq!(
        SubscriptionChannel::from_string("events"),
        Some(SubscriptionChannel::Events)
    );
    assert_eq!(
        SubscriptionChannel::from_string("transactions"),
        Some(SubscriptionChannel::Transactions)
    );
    assert_eq!(
        SubscriptionChannel::from_string("portfolio"),
        Some(SubscriptionChannel::Portfolio)
    );
    assert_eq!(
        SubscriptionChannel::from_string("event:42"),
        Some(SubscriptionChannel::Event(42))
    );
    assert_eq!(
        SubscriptionChannel::from_string("event:-3"),
        Some(SubscriptionChannel::Event(-3))
    );
    assert_eq!(SubscriptionChannel::from_string("event:"), None);
    assert_eq!(SubscriptionChannel::from_string("event:abc"), None);
    assert_eq!(SubscriptionChannel::from_string("event:2147483647"), Some(SubscriptionChannel::Event(i32::MAX)));
    assert_eq!(SubscriptionChannel::from_string("event:2147483648"), None);
    assert_eq!(SubscriptionChannel::from_string("elsewhere"), None);
    assert_eq!(SubscriptionChannel::from_string(""), None);
}

#[test]
fn registry_fan_out_targets() {
    let mut reg = SubscriptionRegistry::new();
    let alice = reg.connect(Some(1));
    let bob = reg.connect(Some(2));
    let guest = reg.connect(None);

    assert!(reg.subscribe(alice, SubscriptionChannel::Events, Some(1), None).is_ok());
    assert!(reg.subscribe(bob, SubscriptionChannel::Events, Some(2), Some("{\"page\":2}".to_string())).is_ok());
    assert!(reg.subscribe(guest, SubscriptionChannel::Events, None, None).is_ok());
    assert!(reg.subscribe(alice, SubscriptionChannel::Transactions, Some(1), None).is_ok());
    assert!(reg.subscribe(bob, SubscriptionChannel::Portfolio, Some(2), None).is_ok());

    // Personal channels refuse anonymous sessions.
    assert_eq!(
        reg.subscribe(guest, SubscriptionChannel::Transactions, None, None),
        Err(SubscribeError::AuthenticationRequired)
    );

    assert_eq!(reg.channel_sessions(SubscriptionChannel::Events), vec![alice, bob, guest]);
    assert_eq!(
        reg.user_channel_sessions(1, SubscriptionChannel::Transactions),
        vec![alice]
    );
    assert_eq!(
        reg.user_channel_sessions(2, SubscriptionChannel::Transactions),
        Vec::<usize>::new()
    );
    assert_eq!(reg.user_channel_sessions(2, SubscriptionChannel::Portfolio), vec![bob]);
    assert_eq!(reg.sub_params(bob, SubscriptionChannel::Events), Some("{\"page\":2}".to_string()));
    assert_eq!(reg.sub_params(alice, SubscriptionChannel::Events), None);

    // Resubscribing without parameters keeps the stored ones and the
    // session's place; fresh parameters replace them.
    assert!(reg.subscribe(bob, SubscriptionChannel::Events, Some(2), None).is_ok());
    assert_eq!(reg.sub_params(bob, SubscriptionChannel::Events), Some("{\"page\":2}".to_string()));
    assert_eq!(reg.channel_sessions(SubscriptionChannel::Events), vec![alice, bob, guest]);
    assert!(reg.subscribe(bob, SubscriptionChannel::Events, Some(2), Some("{\"page\":3}".to_string())).is_ok());
    assert_eq!(reg.sub_params(bob, SubscriptionChannel::Events), Some("{\"page\":3}".to_string()));

    // Unsubscribing and disconnecting prune the registry.
    reg.unsubscribe(Unsubscribe { id: bob, channel: SubscriptionChannel::Events });
    assert_eq!(reg.channel_sessions(SubscriptionChannel::Events), vec![alice, guest]);
    reg.disconnect(Disconnect { id: alice });
    assert_eq!(reg.channel_sessions(SubscriptionChannel::Events), vec![guest]);
    assert_eq!(
        reg.user_channel_sessions(1, SubscriptionChannel::Transactions),
        Vec::<usize>::new()
    );
}

#[test]
fn rebuilding_from_stored_orders_restores_the_book() {
    let mut book = OrderBookEngine::new(1, 1);
    let mut b1 = gtc(1, 1, OrderSide::Buy, 50 * P / 100, 10, 1);
    let mut b2 = gtc(2, 2, OrderSide::Buy, 45 * P / 100, 3, 2);
    let mut s1 = gtc(3, 3, OrderSide::Sell, 60 * P / 100, 5, 3);
    let mut taker = gtc(4, 4, OrderSide::Sell, 50 * P / 100, 4, 4);
    book.submit_order(&mut b1, 1).unwrap();
    book.submit_order(&mut b2, 2).unwrap();
    book.submit_order(&mut s1, 3).unwrap();
    book.submit_order(&mut taker, 4).unwrap();

    let stored = book.resting_orders();
    let rebuilt = OrderBookEngine::from_orders(1, 1, &stored, Some(50 * P / 100))
        .expect("stored state rebuilds");
    assert_eq!(rebuilt.resting_orders(), stored);
    assert_eq!(rebuilt.get_best_bid_price(), book.get_best_bid_price());
    assert_eq!(rebuilt.get_best_ask_price(), book.get_best_ask_price());

    // Corrupt stored state is refused.
    let crossed = vec![
        gtc(7, 1, OrderSide::Sell, 40 * P / 100, 1, 1),
        gtc(8, 2, OrderSide::Buy, 41 * P / 100, 1, 2),
    ];
    assert_eq!(
        OrderBookEngine::from_orders(1, 1, &crossed, None).err(),
        Some(clob_core::book::RebuildError::CrossedBook)
    );
    let duplicated = vec![
        gtc(9, 1, OrderSide::Buy, 40 * P / 100, 1, 1),
        gtc(9, 2, OrderSide::Buy, 39 * P / 100, 1, 2),
    ];
    assert_eq!(
        OrderBookEngine::from_orders(1, 1, &duplicated, None).err(),
        Some(clob_core::book::RebuildError::DuplicateOrderId)
    );
    let mut filled = gtc(10, 1, OrderSide::Buy, 40 * P / 100, 2, 1);
    filled.filled_quantity = 2;
    assert_eq!(
        OrderBookEngine::from_orders(1, 1, &vec![filled], None).err(),
        Some(clob_core::book::RebuildError::NotRestable)
    );
    let oversized = vec![gtc(11, 1, OrderSide::Buy, 40 * P / 100, u64::MAX, 1)];
    assert_eq!(
        OrderBookEngine::from_orders(1, 1, &oversized, None).err(),
        Some(clob_core::book::RebuildError::CapacityExceeded)
    );
}

#[test]
fn heartbeat_timeout_boundary() {
    let timeout = clob_core::subscription::CLIENT_TIMEOUT_MILLIS;
    assert!(!clob_core::subscription::heartbeat_expired(1_000, 1_000 + timeout));
    assert!(clob_core::subscription::heartbeat_expired(1_000, 1_001 + timeout));
    // Extreme clock values do not wrap.
    assert!(clob_core::subscription::heartbeat_expired(i64::MIN, i64::MAX));
    assert!(!clob_core::subscription::heartbeat_expired(i64::MAX, i64::MIN));
}

#[test]
fn pagination_defaults_and_offsets() {
    let q = PaginationQuery { page: None, limit: None };
    assert_eq!(q.get_page(), 1);
    assert_eq!(q.get_limit(), 10);
    assert_eq!(q.get_offset(), 0);

    let q = PaginationQuery { page: Some(3), limit: Some(25) };
    assert_eq!(q.get_offset(), 50);

    let q = PaginationQuery { page: Some(2), limit: Some(500) };
    assert_eq!(q.get_limit(), 100);
    assert_eq!(q.get_offset(), 100);

    let info = PaginationInfo::new(1, 0, 10);
    assert_eq!(info.total_pages, 1);
    let info = PaginationInfo::new(2, 95, 10);
    assert_eq!(info.total_pages, 10);
    let info = PaginationInfo::new(2, 100, 10);
    assert_eq!(info.total_pages, 10);

    let page = PaginatedResponse::new(vec![1u32, 2, 3], info);
    assert_eq!(page.data.len(), 3);
    assert_eq!(page.pagination.total_items, 100);
}

#[test]
fn cache_keys_and_auth_helpers() {
    assert_eq!(create_cache_key("user", "7"), "user:7");
    assert_eq!(create_cache_key(clob_core::cache::EVENT_PREFIX, "12"), "event:12");

    let admin = AuthenticatedUser { id: "12".to_string(), role: "admin".to_string() };
    let user = AuthenticatedUser { id: "-9".to_string(), role: "user".to_string() };
    let broken = AuthenticatedUser { id: "12x".to_string(), role: "user".to_string() };
    assert!(check_admin_role(&admin));
    assert!(!check_admin_role(&user));
    assert_eq!(get_user_id(&admin), Some(12));
    assert_eq!(get_user_id(&user), Some(-9));
    assert_eq!(get_user_id(&broken), None);
    assert_eq!(default_role(), "user");
}

#[test]
fn market_maker_ladder_brackets_the_initial_price() {
    let config = clob_core::market_maker::MarketMakerConfig::default();
    // Five levels of one hundred shares each on the ask side.
    assert_eq!(clob_core::market_maker::total_shares_needed(&config), 500);

    let (asks, bids) = clob_core::market_maker::seed_ladder(&config);
    // Half of the two-percent spread lifts 50.00 by 0.50.
    assert_eq!(asks, vec![
        5_050_000_000,
        5_150_000_000,
        5_250_000_000,
        5_350_000_000,
        5_450_000_000,
    ]);
    assert_eq!(bids, vec![
        4_950_000_000,
        4_850_000_000,
        4_750_000_000,
        4_650_000_000,
        4_550_000_000,
    ]);

    // Near the cap the ask ladder stops early; near zero the bids do.
    let high = clob_core::market_maker::MarketMakerConfig {
        initial_price: 99 * P,
        ..config
    };
    let (asks, _) = clob_core::market_maker::seed_ladder(&high);
    assert_eq!(asks.len(), 1); // 99.99 fits, 100.99 does not
    let low = clob_core::market_maker::MarketMakerConfig {
        initial_price: 2 * P,
        ..config
    };
    let (_, bids) = clob_core::market_maker::seed_ladder(&low);
    assert_eq!(bids, vec![198 * P / 100, 98 * P / 100]);
}

#[test]
fn price_updates_only_on_half_percent_moves() {
    let current = 50 * P / 100;
    // A quarter-percent move is ignored; one percent goes through.
    let quarter = current + current / 400;
    let one_percent = current + current / 100;
    assert!(!clob_core::price_updater::should_update_price(current, quarter));
    assert!(clob_core::price_updater::should_update_price(current, one_percent));
    assert!(clob_core::price_updater::should_update_price(current, current - current / 100));
    assert!(!clob_core::price_updater::should_update_price(current, current));
}

#[test]
fn seeded_book_behaves_like_a_built_one() {
    // Seed a symmetric ladder directly, as a market maker would.
    let mut book = OrderBookEngine::new(1, 1);
    for (i, px) in [51u64, 52, 53].iter().enumerate() {
        book.add_order_directly(gtc(
            100 + i as u128,
            1,
            OrderSide::Sell,
            px * P / 100,
            100,
            1,
        ));
    }
    for (i, px) in [49u64, 48, 47].iter().enumerate() {
        book.add_order_directly(gtc(
            200 + i as u128,
            1,
            OrderSide::Buy,
            px * P / 100,
            100,
            1,
        ));
    }
    assert_eq!(book.get_best_bid_price(), Some(49 * P / 100));
    assert_eq!(book.get_best_ask_price(), Some(51 * P / 100));
    assert_eq!(book.calculate_mid_price(), Some(50 * P / 100));

    let mut taker = gtc(999, 2, OrderSide::Buy, 51 * P / 100, 150, 2);
    let trades = book.submit_order(&mut taker, 2).unwrap();
    assert_eq!(trades.len(), 1);
    assert_eq!(trades[0].quantity, 100);
    assert_eq!(taker.status, OrderStatus::PartiallyFilled);
    // The remainder rests at 0.51 and the book is still uncrossed.
    assert_eq!(book.get_best_bid_price(), Some(51 * P / 100));
    assert_eq!(book.get_best_ask_price(), Some(52 * P / 100));
}
