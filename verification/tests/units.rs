//! Unit tests: wallet accounting, percentage arithmetic, validation
//! errors, the audit log, and concrete checks of the engine's laws.

use backtest::candle::Candle;
use backtest::engine::Backtest;
use backtest::errors::Error;
use backtest::money::{add_percent, sub_percent};
use backtest::order::{Order, OrderSide, OrderType};
use backtest::position::PositionSide;
use backtest::samples::get_long_data;
use backtest::wallet::Wallet;

#[test]
fn percent_arithmetic_exact_values() {
    assert_eq!(add_percent(1000, 20), 1200);
    assert_eq!(add_percent(1000, 10), 1100);
    assert_eq!(sub_percent(1400, 10), 1260);
    assert_eq!(sub_percent(1399, 10), 1260); // 139.9 truncates to a 139 cut
    assert_eq!(sub_percent(1000, 10), 900);
    assert_eq!(add_percent(0, 50), 0);
    assert_eq!(sub_percent(100, 200), 0); // floors at zero
}

#[test]
fn wallet_lock_sub_unlock() {
    let mut w = Wallet::new(1000);
    assert_eq!(w.free_balance(), Some(1000));
    assert!(w.lock(400));
    assert_eq!(w.free_balance(), Some(600));
    assert!(!w.lock(601)); // more than the free amount
    assert!(w.sub(600));
    assert_eq!(w.free_balance(), Some(0));
    assert!(!w.sub(1)); // nothing free is left
    w.unlock(1000); // clamps at zero locked
    assert_eq!(w.free_balance(), Some(400));
    w.add(100);
    assert_eq!(w.free_balance(), Some(500));
    w.reset();
    assert_eq!(w.free_balance(), Some(1000));
}

#[test]
fn construction_rejects_empty_data() {
    let result = Backtest::new(Vec::new(), 10000);
    assert!(matches!(result, Err(Error::CandleDataEmpty)));
}

#[test]
fn iteration_past_the_end_fails() {
    let data = vec![Candle::from((0, 0, 0, 1100, 0))];
    let mut bt = Backtest::new(data, 10000).unwrap();
    assert!(bt.next().is_ok());
    assert!(matches!(bt.next(), Err(Error::CandleNotFound)));
}

#[test]
fn place_order_validation_errors() {
    let data = get_long_data();
    let mut bt = Backtest::new(data, 10000).unwrap();

    // An exit-only type cannot enter.
    let bad_entry = Order::from((OrderType::TakeProfitAndStopLoss(1000, 900), 1, OrderSide::Buy));
    assert!(matches!(bt.place_order(bad_entry), Err(Error::MismatchedOrderType)));

    // An entry-only type cannot exit.
    let bad_exit = Order::from((
        OrderType::Market(1000),
        OrderType::Limit(1200),
        1,
        OrderSide::Buy,
    ));
    assert!(matches!(bt.place_order(bad_exit), Err(Error::MismatchedOrderType)));

    // A trailing stop needs a positive anchor and percent.
    let zero_pct = Order::from((
        OrderType::Market(1000),
        OrderType::TrailingStop(1000, 0),
        1,
        OrderSide::Buy,
    ));
    assert!(matches!(bt.place_order(zero_pct), Err(Error::NegZeroTrailingStop)));
    let zero_anchor = Order::from((
        OrderType::Market(1000),
        OrderType::TrailingStop(0, 10),
        1,
        OrderSide::Buy,
    ));
    assert!(matches!(bt.place_order(zero_anchor), Err(Error::NegZeroTrailingStop)));

    // A cost beyond the free balance is refused and reported.
    let too_big = Order::from((OrderType::Market(1000), 11, OrderSide::Buy));
    match bt.place_order(too_big) {
        Err(Error::InsufficientFunds(required, available)) => {
            assert_eq!(required, 11000);
            assert_eq!(available, 10000);
        },
        _ => panic!("expected InsufficientFunds"),
    }
    assert!(bt.orders().is_empty());
    assert_eq!(bt.free_balance().unwrap(), 10000);
}

#[test]
fn delete_and_close_report_missing_targets() {
    let data = get_long_data();
    let mut bt = Backtest::new(data, 10000).unwrap();
    let order = Order::from((OrderType::Market(1000), 1, OrderSide::Buy));
    assert!(matches!(bt.delete_order(&order), Err(Error::OrderNotFound)));

    bt.open_position(order).unwrap();
    let mut position = bt.positions().first().unwrap().clone();
    position.entry_price = 999; // no open position looks like this
    assert!(matches!(bt.close_position(&position, 1000), Err(Error::PositionNotFound)));
}

#[test]
fn placing_an_order_reserves_exactly_its_cost() {
    // A successful placement moves exactly the order cost out of the free
    // balance and leaves the total worth unchanged.
    let data = get_long_data();
    let mut bt = Backtest::new(data, 10000).unwrap();
    let candle = bt.next().unwrap();
    let free_before = bt.free_balance().unwrap();
    let total_before = bt.total_balance(candle.close());

    let order = Order::from((OrderType::Limit(1150), 3, OrderSide::Buy));
    bt.place_order(order).unwrap();

    assert_eq!(bt.free_balance().unwrap(), free_before - 1150 * 3);
    assert_eq!(bt.total_balance(candle.close()), total_before);
    assert_eq!(bt.current_balance(), 10000);
}

#[test]
fn trailing_stop_level_never_loosens() {
    // The stored stop level ratchets up with the highs of a rising market
    // and stays put when the market falls back.
    let data = vec![
        Candle::from((1000, 1010, 995, 1000, 10)),
        Candle::from((1090, 1200, 1085, 1150, 10)),
        Candle::from((1150, 1160, 1100, 1120, 10)),
    ];
    let mut bt = Backtest::new(data, 10000).unwrap();
    let candle = bt.next().unwrap();
    let order = Order::from((
        OrderType::Market(1000),
        OrderType::TrailingStop(1000, 10),
        1,
        OrderSide::Buy,
    ));
    bt.place_order(order).unwrap();
    bt.execute_orders(&candle).unwrap();

    let level_at = |bt: &Backtest| -> u64 {
        match bt.positions().first().unwrap().exit_rule() {
            Some(OrderType::TrailingStop(level, _)) => *level,
            _ => panic!("expected a trailing stop"),
        }
    };
    assert_eq!(level_at(&bt), 900); // anchor 1000 less 10%

    bt.execute_positions(&candle).unwrap();
    assert_eq!(level_at(&bt), 909); // ratchets towards high 1010

    let candle = bt.next().unwrap();
    bt.execute_positions(&candle).unwrap();
    assert_eq!(level_at(&bt), 1080); // ratchets towards high 1200

    let candle = bt.next().unwrap();
    bt.execute_positions(&candle).unwrap();
    assert_eq!(level_at(&bt), 1080); // high 1160 would loosen; level holds
}

#[test]
fn take_profit_wins_over_stop_loss_in_one_candle() {
    // One candle satisfies both thresholds; the close uses the take-profit
    // price.
    let data = vec![
        Candle::from((1000, 1000, 1000, 1000, 10)),
        Candle::from((1000, 1200, 900, 1000, 10)),
    ];
    let mut bt = Backtest::new(data, 10000).unwrap();
    let candle = bt.next().unwrap();
    let order = Order::from((
        OrderType::Market(1000),
        OrderType::TakeProfitAndStopLoss(1100, 990),
        1,
        OrderSide::Buy,
    ));
    bt.place_order(order).unwrap();
    bt.execute_orders(&candle).unwrap();
    assert_eq!(bt.current_balance(), 9000);

    let candle = bt.next().unwrap();
    bt.execute_positions(&candle).unwrap();
    assert!(bt.positions().is_empty());
    // Exit at 1100, not at the stop-loss 990: 9000 + 1000 + 100.
    assert_eq!(bt.current_balance(), 10100);
    let record = bt.events().first().unwrap();
    assert_eq!(record.closed.unwrap().exit_price, 1100);
}

#[test]
fn reset_restores_construction_state() {
    let data = get_long_data();
    let mut bt = Backtest::new(data, 10000).unwrap();
    let candle = bt.next().unwrap();
    let keep = Order::from((OrderType::Limit(1), 1, OrderSide::Buy));
    bt.place_order(keep).unwrap();
    let fill = Order::from((OrderType::Market(1000), 1, OrderSide::Buy));
    bt.place_order(fill).unwrap();
    bt.execute_orders(&candle).unwrap();
    assert!(!bt.orders().is_empty());
    assert!(!bt.positions().is_empty());
    assert_ne!(bt.current_balance(), 10000);

    bt.reset();

    assert_eq!(bt.current_balance(), 10000);
    assert_eq!(bt.free_balance().unwrap(), 10000);
    assert!(bt.orders().is_empty());
    assert!(bt.positions().is_empty());
    // The audit log survives a reset.
    assert_eq!(bt.events().len(), 1);
    // The engine is back at the first candle.
    assert_eq!(bt.next().unwrap().close(), 1000);
}

#[test]
fn audit_log_records_open_and_close() {
    let data = get_long_data();
    let mut bt = Backtest::new(data, 10000).unwrap();
    let candle = bt.next().unwrap();
    let order = Order::from((OrderType::Market(1000), 2, OrderSide::Buy));
    bt.place_order(order).unwrap();
    bt.execute_orders(&candle).unwrap();

    let record = bt.events().first().unwrap().clone();
    assert_eq!(record.open_tick, 0);
    assert_eq!(record.entry_price, 1000);
    assert!(matches!(record.side, PositionSide::Long));
    assert!(record.closed.is_none());

    bt.next().unwrap();
    let position = bt.positions().first().unwrap().clone();
    bt.close_position(&position, 1100).unwrap();

    let record = bt.events().first().unwrap();
    assert_eq!(record.closed.unwrap().tick, 1);
    assert_eq!(record.closed.unwrap().exit_price, 1100);
    assert!(bt.events().len() == 1);
}

#[test]
fn close_all_positions_liquidates_everything() {
    let data = get_long_data();
    let mut bt = Backtest::new(data, 10000).unwrap();
    bt.next().unwrap();
    bt.open_position(Order::from((OrderType::Market(1000), 1, OrderSide::Buy))).unwrap();
    bt.open_position(Order::from((OrderType::Market(1100), 2, OrderSide::Sell))).unwrap();
    assert_eq!(bt.current_balance(), 10000 - 1000 - 2200);

    let closed = bt.close_all_positions(1050).unwrap();
    assert_eq!(closed, 2);
    assert!(bt.positions().is_empty());
    // Long: 1000 + 50 returned; short: 2200 + 100 returned.
    assert_eq!(bt.current_balance(), 6800 + 1050 + 2300);
}

#[test]
fn deep_short_loss_is_rejected_and_reported() {
    // A short position whose loss exceeds the whole balance cannot close:
    // the engine reports the balance the close would have produced and
    // leaves everything as it was.
    let data = vec![Candle::from((1000, 1000, 1000, 1000, 10))];
    let mut bt = Backtest::new(data, 100).unwrap();
    bt.next().unwrap();
    bt.open_position(Order::from((OrderType::Market(100), 1, OrderSide::Sell))).unwrap();
    assert_eq!(bt.current_balance(), 0);

    let position = bt.positions().first().unwrap().clone();
    match bt.close_position(&position, 250) {
        // Credit is 100 + (100 - 250) = -50 against a balance of 0.
        Err(Error::NegZeroBalance(value)) => assert_eq!(value, -50),
        _ => panic!("expected NegZeroBalance"),
    }
    assert!(!bt.positions().is_empty());
    assert_eq!(bt.current_balance(), 0);
}

#[test]
fn losses_can_push_free_balance_negative() {
    // A realized loss can leave the balance below the locked funds; the
    // free balance then reports the imbalance instead of a value.
    let data = vec![Candle::from((1000, 1000, 1000, 1000, 10))];
    let mut bt = Backtest::new(data, 1000).unwrap();
    bt.next().unwrap();
    // Reserve most of the balance against a pending order.
    bt.place_order(Order::from((OrderType::Limit(900), 1, OrderSide::Buy))).unwrap();
    // Open a short with the remaining free 100 and close it at a loss.
    bt.open_position(Order::from((OrderType::Market(100), 1, OrderSide::Sell))).unwrap();
    let position = bt.positions().first().unwrap().clone();
    let profit = bt.close_position(&position, 250).unwrap();
    assert_eq!(profit, -150);
    // Balance 900 - 50 = 850 sits below the locked 900.
    assert_eq!(bt.current_balance(), 850);
    match bt.free_balance() {
        Err(Error::NegFreeBalance(balance, locked)) => {
            assert_eq!(balance, 850);
            assert_eq!(locked, 900);
        },
        _ => panic!("expected NegFreeBalance"),
    }
}

#[test]
fn wallet_add_saturates_at_the_representable_top() {
    let mut w = Wallet::new(u64::MAX - 5);
    w.add(100);
    assert_eq!(w.balance, u64::MAX);
    assert_eq!(w.locked, 0);
}

#[test]
fn total_balance_can_go_negative_on_unrealized_losses() {
    let data = vec![Candle::from((1000, 1000, 1000, 1000, 10))];
    let mut bt = Backtest::new(data, 1000).unwrap();
    bt.next().unwrap();
    bt.open_position(Order::from((OrderType::Market(1000), 1, OrderSide::Buy))).unwrap();
    assert_eq!(bt.current_balance(), 0);
    // Marked at 100, the long position is 900 under water.
    assert_eq!(bt.total_balance(100), -900);
}

#[test]
fn order_construction_validates_rule_shapes() {
    let ok = Order::new(
        OrderType::Market(1000),
        Some(OrderType::TrailingStop(1000, 10)),
        1,
        OrderSide::Buy,
    )
    .unwrap();
    assert_eq!(ok.entry_price(), 1000);
    assert!(matches!(
        Order::new(OrderType::TakeProfitAndStopLoss(1000, 900), None, 1, OrderSide::Buy),
        Err(Error::MismatchedOrderType)
    ));
    assert!(matches!(
        Order::new(OrderType::Market(1000), Some(OrderType::Limit(1200)), 1, OrderSide::Buy),
        Err(Error::MismatchedOrderType)
    ));
    assert!(matches!(
        Order::new(OrderType::Market(1000), Some(OrderType::TrailingStop(0, 10)), 1, OrderSide::Buy),
        Err(Error::NegZeroTrailingStop)
    ));
    assert!(matches!(
        Order::new(OrderType::Market(1000), Some(OrderType::TrailingStop(1000, 0)), 1, OrderSide::Buy),
        Err(Error::NegZeroTrailingStop)
    ));
}
