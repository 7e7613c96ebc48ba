use clob_core::book::OrderBookEngine;
use clob_core::order::{Order, OrderSide, OrderStatus, OrderType, TimeInForce, Trade};
use clob_core::position::{apply_buy, apply_sell, can_sell, Position, PositionError};
use clob_core::service::{apply_trade, validate_order, PlaceOrderError, TradeError};
use clob_core::settlement::{
    settle_event, EventInfo, EventStatus, OptionInfo, SettleError, PAYOUT_PER_SHARE,
};
use clob_core::wallet::{
    deposit, withdraw, TransactionKind, UserAccount, UserRole, WalletError,
};

const P: u64 = 100_000_000;

fn position(user_id: i32, option_id: i32, qty: u64, avg: u64) -> Position {
    Position {
        user_id,
        event_id: 5,
        option_id,
        quantity: qty,
        average_price: avg,
        created_at: 0,
        updated_at: 0,
    }
}

fn account(id: i32, balance: u128) -> UserAccount {
    UserAccount { id, wallet_balance: balance, is_active: true, role: UserRole::User }
}

fn ended_event() -> EventInfo {
    EventInfo {
        id: 5,
        status: EventStatus::Ended,
        end_time: 100,
        min_bet_amount: 0,
        max_bet_amount: 1_000 * P as u128,
        total_volume: 0,
        created_by: 1,
        resolved_by: None,
        winning_option_id: None,
        resolved_at: None,
    }
}

fn two_options() -> Vec<OptionInfo> {
    vec![
        OptionInfo { id: 1, event_id: 5, current_price: 40 * P / 100, total_backing: 0, is_winning: None },
        OptionInfo { id: 2, event_id: 5, current_price: 30 * P / 100, total_backing: 0, is_winning: None },
    ]
}

#[test]
fn settlement_with_mixed_winners() {
    let event = ended_event();
    let options = two_options();
    // Winner X (option 1): 10 @ 0.40 and 5 @ 0.70. Loser Y (option 2): 8 @ 0.30.
    let positions = vec![
        position(1, 1, 10, 40 * P / 100),
        position(2, 1, 5, 70 * P / 100),
        position(3, 2, 8, 30 * P / 100),
    ];
    let s = settle_event(&event, &options, &positions, 1, 99, 500).expect("settles");

    assert_eq!(s.event.status, EventStatus::Resolved);
    assert_eq!(s.event.winning_option_id, Some(1));
    assert_eq!(s.event.resolved_by, Some(99));
    assert_eq!(s.event.resolved_at, Some(500));

    // Exactly one option marked winning.
    assert_eq!(s.options[0].is_winning, Some(true));
    assert_eq!(s.options[1].is_winning, Some(false));

    // Payouts: 10.00, 5.00, 0.00; profit and loss +6.00, +1.50, -2.40.
    assert_eq!(s.payouts.len(), 3);
    assert_eq!(s.payouts[0].total_payout, 10 * P as u128);
    assert_eq!(s.payouts[1].total_payout, 5 * P as u128);
    assert_eq!(s.payouts[2].total_payout, 0);
    assert_eq!(s.payouts[0].payout_per_share, PAYOUT_PER_SHARE);
    assert_eq!(s.payouts[2].payout_per_share, 0);
    let invested0 = (positions[0].average_price as u128) * (positions[0].quantity as u128);
    assert_eq!(s.payouts[0].total_payout - invested0, 6 * P as u128);
    let invested1 = (positions[1].average_price as u128) * (positions[1].quantity as u128);
    assert_eq!(s.payouts[1].total_payout - invested1, 15 * P as u128 / 10);
    let invested2 = (positions[2].average_price as u128) * (positions[2].quantity as u128);
    assert_eq!(invested2 - s.payouts[2].total_payout, 24 * P as u128 / 10);

    // All positions closed.
    for p in &s.positions {
        assert_eq!(p.quantity, 0);
        assert_eq!(p.average_price, 0);
    }
    assert_eq!(s.total_payouts, 15 * P as u128);
}

#[test]
fn second_settle_on_resolved_event_fails() {
    let event = ended_event();
    let options = two_options();
    let positions = vec![position(1, 1, 10, 40 * P / 100)];
    let s = settle_event(&event, &options, &positions, 1, 99, 500).unwrap();
    let again = settle_event(&s.event, &s.options, &Vec::new(), 1, 99, 600);
    assert_eq!(again.err(), Some(SettleError::AlreadyResolved));
}

#[test]
fn settle_refusals() {
    let mut active = ended_event();
    active.status = EventStatus::Active;
    active.end_time = 1_000;
    let options = two_options();
    let none: Vec<Position> = Vec::new();
    // Not ended yet by clock or status.
    assert_eq!(
        settle_event(&active, &options, &none, 1, 9, 500).err(),
        Some(SettleError::NotEnded)
    );
    // Ended by clock is enough.
    assert!(settle_event(&active, &options, &none, 1, 9, 2_000).is_ok());
    // Unknown winning option.
    assert_eq!(
        settle_event(&ended_event(), &options, &none, 42, 9, 500).err(),
        Some(SettleError::InvalidWinningOption)
    );
}

#[test]
fn deposit_and_withdraw_keep_the_ledger_consistent() {
    let user = account(1, 5 * P as u128);
    let (user, entry) = deposit(&user, 3 * P as u128, 10).expect("deposit");
    assert_eq!(user.wallet_balance, 8 * P as u128);
    assert_eq!(entry.kind, TransactionKind::Deposit);
    assert_eq!(entry.balance_before, 5 * P as u128);
    assert_eq!(entry.balance_after, 8 * P as u128);

    let (user, entry2) = withdraw(&user, 2 * P as u128, 11).expect("withdraw");
    assert_eq!(user.wallet_balance, 6 * P as u128);
    assert_eq!(entry2.kind, TransactionKind::Withdraw);
    assert_eq!(entry2.balance_before, 8 * P as u128);
    assert_eq!(entry2.balance_after, 6 * P as u128);

    // The balance equals the start plus the signed sum of the entries.
    let signed: i128 = entry.amount as i128 - entry2.amount as i128;
    assert_eq!(user.wallet_balance as i128, 5 * P as i128 + signed);
}

#[test]
fn wallet_error_cases() {
    let user = account(1, 5 * P as u128);
    assert_eq!(deposit(&user, 0, 1).err(), Some(WalletError::AmountNotPositive));
    assert_eq!(withdraw(&user, 0, 1).err(), Some(WalletError::AmountNotPositive));
    assert_eq!(
        withdraw(&user, 6 * P as u128, 1).err(),
        Some(WalletError::InsufficientBalance)
    );
    let inactive = UserAccount { is_active: false, ..user };
    assert_eq!(deposit(&inactive, P as u128, 1).err(), Some(WalletError::UserInactive));
    assert_eq!(withdraw(&inactive, P as u128, 1).err(), Some(WalletError::UserInactive));
}

#[test]
fn position_buy_updates_weighted_average() {
    let p = position(1, 1, 10, 40 * P / 100);
    let p2 = apply_buy(&p, 5, 70 * P / 100, 7);
    assert_eq!(p2.quantity, 15);
    // (10*0.40 + 5*0.70) / 15 = 0.50
    assert_eq!(p2.average_price, 50 * P / 100);

    let p3 = apply_sell(&p2, 5, 8).expect("enough shares");
    assert_eq!(p3.quantity, 10);
    assert_eq!(p3.average_price, 50 * P / 100);

    let p4 = apply_sell(&p3, 10, 9).expect("close out");
    assert_eq!(p4.quantity, 0);
    assert_eq!(p4.average_price, 0);

    assert_eq!(apply_sell(&p4, 1, 10).err(), Some(PositionError::InsufficientShares));
    assert!(can_sell(&p3, 10));
    assert!(!can_sell(&p3, 11));
}

fn sample_trade(buyer: i32, seller: i32, px: u64, qty: u64) -> Trade {
    Trade {
        id: 77,
        event_id: 5,
        option_id: 1,
        buyer_id: buyer,
        seller_id: seller,
        buy_order_id: 1,
        sell_order_id: 2,
        price: px,
        quantity: qty,
        total_amount: (px as u128) * (qty as u128),
        timestamp: 50,
    }
}

#[test]
fn trade_effects_move_money_and_shares() {
    let t = sample_trade(1, 2, 50 * P / 100, 6);
    let buyer = account(1, 10 * P as u128);
    let seller = account(2, 5 * P as u128);
    let seller_pos = position(2, 1, 10, 40 * P / 100);
    let e = apply_trade(&t, &buyer, &seller, &None, &seller_pos, 50).expect("trade applies");
    assert_eq!(e.buyer.wallet_balance, 7 * P as u128);
    assert_eq!(e.seller.wallet_balance, 8 * P as u128);
    assert_eq!(e.buyer_position.quantity, 6);
    assert_eq!(e.buyer_position.average_price, 50 * P / 100);
    assert_eq!(e.seller_position.quantity, 4);
    assert_eq!(e.debit_entry.kind, TransactionKind::TradeDebit);
    assert_eq!(e.credit_entry.kind, TransactionKind::TradeCredit);
    assert_eq!(e.debit_entry.balance_after, 7 * P as u128);
    assert_eq!(e.credit_entry.balance_after, 8 * P as u128);
}

#[test]
fn trade_effects_error_cases() {
    let t = sample_trade(1, 2, 50 * P / 100, 6);
    let buyer = account(1, 1 * P as u128);
    let seller = account(2, 0);
    let thin_pos = position(2, 1, 3, 40 * P / 100);
    assert_eq!(
        apply_trade(&t, &buyer, &seller, &None, &thin_pos, 50).err(),
        Some(TradeError::SellerInsufficientShares)
    );
    let fat_pos = position(2, 1, 10, 40 * P / 100);
    assert_eq!(
        apply_trade(&t, &buyer, &seller, &None, &fat_pos, 50).err(),
        Some(TradeError::BuyerInsufficientBalance)
    );
}

#[test]
fn self_trade_leaves_balance_unchanged() {
    let t = sample_trade(7, 7, 40 * P / 100, 5);
    let user = account(7, 10 * P as u128);
    let pos = position(7, 1, 5, 20 * P / 100);
    let e = apply_trade(&t, &user, &user, &Some(pos), &pos, 60).expect("self trade");
    assert_eq!(e.buyer.wallet_balance, 10 * P as u128);
    assert_eq!(e.seller.wallet_balance, 10 * P as u128);
    // Bought 5 then sold 5: back to flat.
    assert_eq!(e.buyer_position.quantity, 5);
    assert_eq!(e.debit_entry.balance_after, 8 * P as u128);
    assert_eq!(e.credit_entry.balance_after, 10 * P as u128);
}

#[test]
fn order_validation_pipeline() {
    let mut event = ended_event();
    event.status = EventStatus::Active;
    event.end_time = 1_000;
    let option = OptionInfo { id: 1, event_id: 5, current_price: P / 2, total_backing: 0, is_winning: None };
    let user = account(1, 2 * P as u128);

    assert!(validate_order(&event, &option, &user, 0, OrderSide::Buy, P / 2, 4, 100).is_ok());
    assert_eq!(
        validate_order(&event, &option, &user, 0, OrderSide::Buy, P / 2, 5, 100).err(),
        Some(PlaceOrderError::InsufficientBalance)
    );
    assert_eq!(
        validate_order(&event, &option, &user, 3, OrderSide::Sell, P / 2, 4, 100).err(),
        Some(PlaceOrderError::InsufficientShares)
    );
    assert!(validate_order(&event, &option, &user, 4, OrderSide::Sell, P / 2, 4, 100).is_ok());
    assert_eq!(
        validate_order(&event, &option, &user, 0, OrderSide::Buy, P / 2, 1, 1_000).err(),
        Some(PlaceOrderError::EventEnded)
    );
    let mut paused = event;
    paused.status = EventStatus::Paused;
    assert_eq!(
        validate_order(&paused, &option, &user, 0, OrderSide::Buy, P / 2, 1, 100).err(),
        Some(PlaceOrderError::EventNotActive)
    );
    let frozen = clob_core::wallet::UserAccount { is_active: false, ..user };
    assert_eq!(
        validate_order(&event, &option, &frozen, 0, OrderSide::Buy, P / 2, 1, 100).err(),
        Some(PlaceOrderError::UserInactive)
    );
    let stray = OptionInfo { id: 9, event_id: 77, current_price: P, total_backing: 0, is_winning: None };
    assert_eq!(
        validate_order(&event, &stray, &user, 0, OrderSide::Buy, P / 2, 1, 100).err(),
        Some(PlaceOrderError::OptionMismatch)
    );
}

#[test]
fn place_bet_respects_limits_and_moves_the_stake() {
    let mut event = ended_event();
    event.status = EventStatus::Active;
    event.end_time = 1_000;
    event.min_bet_amount = P as u128; // 1.00
    event.max_bet_amount = 10 * P as u128; // 10.00
    let option = OptionInfo { id: 1, event_id: 5, current_price: P / 2, total_backing: 7, is_winning: None };
    let user = account(3, 20 * P as u128);
    let req = clob_core::bet::PlaceBetRequest {
        event_id: 5,
        option_id: 1,
        quantity: 4,
        price_per_share: P / 2,
    };

    let p = clob_core::bet::place_bet(&event, &option, &user, &req, 100).expect("bet placed");
    assert_eq!(p.bet.total_amount, 2 * P as u128);
    assert_eq!(p.bet.status, clob_core::bet::BetStatus::Active);
    assert_eq!(p.user.wallet_balance, 18 * P as u128);
    assert_eq!(p.event.total_volume, 2 * P as u128);
    assert_eq!(p.option.total_backing, 7 + 2 * P as u128);

    // One share at 0.50 sits under the 1.00 minimum.
    let small = clob_core::bet::PlaceBetRequest { quantity: 1, ..req };
    assert_eq!(
        clob_core::bet::place_bet(&event, &option, &user, &small, 100).err(),
        Some(clob_core::bet::PlaceBetError::BelowMinimumBet)
    );
    // Thirty shares at 0.50 breach the 10.00 maximum.
    let big = clob_core::bet::PlaceBetRequest { quantity: 30, ..req };
    assert_eq!(
        clob_core::bet::place_bet(&event, &option, &user, &big, 100).err(),
        Some(clob_core::bet::PlaceBetError::AboveMaximumBet)
    );
    let poor = account(4, P as u128);
    assert_eq!(
        clob_core::bet::place_bet(&event, &option, &poor, &req, 100).err(),
        Some(clob_core::bet::PlaceBetError::InsufficientBalance)
    );
    assert_eq!(
        clob_core::bet::place_bet(&event, &option, &user, &req, 1_000).err(),
        Some(clob_core::bet::PlaceBetError::EventEnded)
    );
}

#[test]
fn end_to_end_trade_then_settle() {
    // One buyer, one seller with seeded shares; they trade, the event settles.
    let mut book = OrderBookEngine::new(5, 1);
    let seed = Order {
        id: 1,
        user_id: 2,
        event_id: 5,
        option_id: 1,
        side: OrderSide::Sell,
        order_type: OrderType::Limit,
        time_in_force: TimeInForce::GTC,
        price: 40 * P / 100,
        quantity: 10,
        filled_quantity: 0,
        status: OrderStatus::Pending,
        created_at: 1,
        updated_at: 1,
    };
    book.add_order_directly(seed);

    let mut buy = Order { id: 2, user_id: 1, side: OrderSide::Buy, ..seed };
    let trades = book.submit_order(&mut buy, 2).unwrap();
    assert_eq!(trades.len(), 1);

    let buyer = account(1, 10 * P as u128);
    let seller = account(2, 0);
    let seller_pos = position(2, 1, 10, 0);
    let e = apply_trade(&trades[0], &buyer, &seller, &None, &seller_pos, 2).unwrap();

    let s = settle_event(
        &ended_event(),
        &two_options(),
        &vec![e.buyer_position],
        1,
        99,
        999,
    )
    .unwrap();
    // Ten winning shares pay out 10.00.
    assert_eq!(s.total_payouts, 10 * P as u128);
    let (winner, entry) =
        clob_core::wallet::event_payout(&e.buyer, s.payouts[0].total_payout, 999);
    assert_eq!(winner.wallet_balance, e.buyer.wallet_balance + 10 * P as u128);
    assert_eq!(entry.kind, TransactionKind::EventPayout);
}
