//! Full order-to-exit scenarios: placing and cancelling, take-profit,
//! stop-loss and trailing stops, long and short. Prices are fixed-point
//! with one unit per tenth.

use backtest::candle::Candle;
use backtest::engine::Backtest;
use backtest::money::add_percent;
use backtest::order::{Order, OrderSide, OrderType};
use backtest::samples::{get_data, get_long_data, get_short_data};

#[test]
fn scenario_place_and_delete_order() {
    let data = get_data();
    let balance = 10000;
    let mut bt = Backtest::new(data, balance).unwrap();

    let candle = bt.next().unwrap();
    let price = candle.close(); // 1100

    let order = Order::from((OrderType::Market(price), 1, OrderSide::Buy));
    bt.place_order(order.clone()).unwrap(); // lock amount 1100

    assert!(!bt.orders().is_empty());
    assert_eq!(bt.current_balance(), 10000);
    assert_eq!(bt.total_balance(price), 10000);
    assert_eq!(bt.free_balance().unwrap(), 8900);

    bt.delete_order(&order).unwrap(); // unlock amount 1100

    assert!(bt.orders().is_empty());
    assert_eq!(bt.current_balance(), 10000);
    assert_eq!(bt.total_balance(price), 10000);
    assert_eq!(bt.free_balance().unwrap(), 10000);
}

#[test]
fn scenario_open_long_position_and_take_profit() {
    let data = get_long_data();
    let balance = 10000;
    let mut bt = Backtest::new(data, balance).unwrap();

    let candle = bt.next().unwrap();
    let price = candle.close(); // 1000

    let take_profit = OrderType::TakeProfitAndStopLoss(add_percent(price, 20), 0);
    let order = Order::from((OrderType::Market(price), take_profit, 1, OrderSide::Buy));
    bt.place_order(order).unwrap();

    assert!(!bt.orders().is_empty());
    assert!(bt.positions().is_empty());
    assert_eq!(bt.current_balance(), 10000);
    assert_eq!(bt.total_balance(price), 10000);
    assert_eq!(bt.free_balance().unwrap(), 9000);

    bt.execute_orders(&candle).unwrap();

    assert!(bt.orders().is_empty());
    assert!(!bt.positions().is_empty());
    assert_eq!(bt.current_balance(), 9000);
    assert_eq!(bt.total_balance(price), 9000);
    assert_eq!(bt.free_balance().unwrap(), 9000);

    bt.execute_positions(&candle).unwrap();
    assert!(!bt.positions().is_empty());

    // next tick
    let candle = bt.next().unwrap();
    bt.execute_positions(&candle).unwrap(); // close = 1100, unrealized +100

    assert!(!bt.positions().is_empty());
    assert_eq!(bt.current_balance(), 9000);
    assert_eq!(bt.total_balance(candle.close()), 9100); // balance + p&l
    assert_eq!(bt.free_balance().unwrap(), 9000);

    // next tick
    let candle = bt.next().unwrap();
    bt.execute_positions(&candle).unwrap(); // close = 1200, take profit matched

    assert!(bt.positions().is_empty());
    assert_eq!(bt.current_balance(), 10200);
    assert_eq!(bt.total_balance(candle.close()), 10200);
    assert_eq!(bt.free_balance().unwrap(), 10200);
}

#[test]
fn scenario_open_long_position_and_stop_loss() {
    let data = get_short_data();
    let balance = 10000;
    let mut bt = Backtest::new(data, balance).unwrap();

    let candle = bt.next().unwrap();
    let price = candle.close(); // 1400

    let stop_loss = OrderType::TakeProfitAndStopLoss(0, price - 200);
    let order = Order::from((OrderType::Market(price), stop_loss, 1, OrderSide::Buy));
    bt.place_order(order).unwrap();

    assert!(!bt.orders().is_empty());
    assert!(bt.positions().is_empty());
    assert_eq!(bt.current_balance(), 10000);
    assert_eq!(bt.total_balance(price), 10000);
    assert_eq!(bt.free_balance().unwrap(), 8600);

    bt.execute_orders(&candle).unwrap();

    assert!(bt.orders().is_empty());
    assert!(!bt.positions().is_empty());
    assert_eq!(bt.current_balance(), 8600);
    assert_eq!(bt.total_balance(price), 8600);
    assert_eq!(bt.free_balance().unwrap(), 8600);

    bt.execute_positions(&candle).unwrap();
    assert!(!bt.positions().is_empty());

    // next tick
    let candle = bt.next().unwrap();
    bt.execute_positions(&candle).unwrap(); // close = 1300, unrealized -100

    assert!(!bt.positions().is_empty());
    assert_eq!(bt.current_balance(), 8600);
    assert_eq!(bt.total_balance(candle.close()), 8500); // balance + p&l
    assert_eq!(bt.free_balance().unwrap(), 8600);

    // next tick
    let candle = bt.next().unwrap();
    bt.execute_positions(&candle).unwrap(); // close = 1200, stop loss matched

    assert!(bt.positions().is_empty());
    assert_eq!(bt.current_balance(), 9800);
    assert_eq!(bt.total_balance(candle.close()), 9800);
    assert_eq!(bt.free_balance().unwrap(), 9800);
}

#[test]
fn scenario_open_short_position_and_take_profit() {
    let data = get_short_data();
    let balance = 10000;
    let mut bt = Backtest::new(data, balance).unwrap();

    let candle = bt.next().unwrap();
    let price = candle.close(); // 1400

    let take_profit = OrderType::TakeProfitAndStopLoss(price - 200, 0);
    let order = Order::from((OrderType::Market(price), take_profit, 1, OrderSide::Sell));
    bt.place_order(order).unwrap();

    assert!(!bt.orders().is_empty());
    assert!(bt.positions().is_empty());
    assert_eq!(bt.current_balance(), 10000);
    assert_eq!(bt.total_balance(price), 10000);
    assert_eq!(bt.free_balance().unwrap(), 8600);

    bt.execute_orders(&candle).unwrap();

    assert!(bt.orders().is_empty());
    assert!(!bt.positions().is_empty());
    assert_eq!(bt.current_balance(), 8600);
    assert_eq!(bt.total_balance(price), 8600);
    assert_eq!(bt.free_balance().unwrap(), 8600);

    bt.execute_positions(&candle).unwrap();
    assert!(!bt.positions().is_empty());

    // next tick
    let candle = bt.next().unwrap();
    bt.execute_positions(&candle).unwrap(); // close = 1300, unrealized +100

    assert!(!bt.positions().is_empty());
    assert_eq!(bt.current_balance(), 8600);
    assert_eq!(bt.total_balance(candle.close()), 8700); // balance + p&l
    assert_eq!(bt.free_balance().unwrap(), 8600);

    // next tick
    let candle = bt.next().unwrap();
    bt.execute_positions(&candle).unwrap(); // close = 1200, take profit matched

    assert!(bt.positions().is_empty());
    assert_eq!(bt.current_balance(), 10200);
    assert_eq!(bt.total_balance(candle.close()), 10200);
    assert_eq!(bt.free_balance().unwrap(), 10200);
}

#[test]
fn scenario_open_short_position_and_stop_loss() {
    let data = get_long_data();
    let balance = 10000;
    let mut bt = Backtest::new(data, balance).unwrap();

    let candle = bt.next().unwrap();
    let price = candle.close(); // 1000

    let stop_loss = OrderType::TakeProfitAndStopLoss(0, add_percent(price, 20));
    let order = Order::from((OrderType::Market(price), stop_loss, 1, OrderSide::Sell));
    bt.place_order(order).unwrap();

    assert!(!bt.orders().is_empty());
    assert!(bt.positions().is_empty());
    assert_eq!(bt.current_balance(), 10000);
    assert_eq!(bt.total_balance(price), 10000);
    assert_eq!(bt.free_balance().unwrap(), 9000);

    bt.execute_orders(&candle).unwrap();

    assert!(bt.orders().is_empty());
    assert!(!bt.positions().is_empty());
    assert_eq!(bt.current_balance(), 9000);
    assert_eq!(bt.total_balance(price), 9000);
    assert_eq!(bt.free_balance().unwrap(), 9000);

    bt.execute_positions(&candle).unwrap();
    assert!(!bt.positions().is_empty());

    // next tick
    let candle = bt.next().unwrap();
    bt.execute_positions(&candle).unwrap(); // close = 1100, unrealized -100

    assert!(!bt.positions().is_empty());
    assert_eq!(bt.current_balance(), 9000);
    assert_eq!(bt.total_balance(candle.close()), 8900); // balance + p&l
    assert_eq!(bt.free_balance().unwrap(), 9000);

    // next tick
    let candle = bt.next().unwrap();
    bt.execute_positions(&candle).unwrap(); // close = 1200, stop loss matched

    assert!(bt.positions().is_empty());
    assert_eq!(bt.current_balance(), 9800);
    assert_eq!(bt.total_balance(candle.close()), 9800);
    assert_eq!(bt.free_balance().unwrap(), 9800);
}

#[test]
fn scenario_open_long_position_with_trailing_stop_profit() {
    // enter at 1000 with a 10% trailing stop
    // the stop starts at 900 and ratchets with each candle's high before
    // the close test; the second candle ratchets it to 990 and its own low
    // 990 reaches it, so the position exits at 990
    let data = vec![
        Candle::from((990, 1010, 980, 1000, 10)),
        Candle::from((1000, 1100, 990, 1080, 10)),
        Candle::from((1080, 1400, 1080, 1350, 10)),
        Candle::from((1350, 1399, 1260, 1300, 10)),
    ];

    let balance = 10000;
    let mut bt = Backtest::new(data, balance).unwrap();

    let candle = bt.next().unwrap();
    let price = candle.close(); // 1000

    let trailing_stop = OrderType::TrailingStop(price, 10);
    let order = Order::from((OrderType::Market(price), trailing_stop, 1, OrderSide::Buy));
    bt.place_order(order).unwrap();
    bt.execute_orders(&candle).unwrap();

    assert!(!bt.positions().is_empty());
    assert_eq!(bt.current_balance(), 9000);
    assert_eq!(bt.total_balance(candle.close()), 9000);
    assert_eq!(bt.free_balance().unwrap(), 9000);

    bt.execute_positions(&candle).unwrap();
    assert!(!bt.positions().is_empty());

    // next tick: the stop ratchets to 990 and low 990 reaches it
    let candle = bt.next().unwrap();
    bt.execute_positions(&candle).unwrap();

    assert!(bt.positions().is_empty());
    assert_eq!(bt.current_balance(), 9990);
    assert_eq!(bt.total_balance(candle.close()), 9990);
    assert_eq!(bt.free_balance().unwrap(), 9990);

    // next tick: nothing is left to evaluate
    let candle = bt.next().unwrap();
    bt.execute_positions(&candle).unwrap();
    assert!(bt.positions().is_empty());
    assert_eq!(bt.current_balance(), 9990);
    assert_eq!(bt.total_balance(candle.close()), 9990);
    assert_eq!(bt.free_balance().unwrap(), 9990);

    // next tick
    let candle = bt.next().unwrap();
    bt.execute_positions(&candle).unwrap();
    assert!(bt.positions().is_empty());
    assert_eq!(bt.current_balance(), 9990);
    assert_eq!(bt.total_balance(candle.close()), 9990);
    assert_eq!(bt.free_balance().unwrap(), 9990);
}

#[test]
fn trailing_stop_ratchets_to_high_and_closes_at_the_ratcheted_level() {
    // enter at 1000 with a 10% trailing stop
    // a high of 1400 ratchets the stop to 1260; the next candle's low 1260
    // reaches it, so the position exits at 1260 for a balance of 10260
    let data = vec![
        Candle::from((990, 1010, 980, 1000, 10)),
        Candle::from((1000, 1100, 1000, 1080, 10)),
        Candle::from((1080, 1400, 1270, 1350, 10)),
        Candle::from((1350, 1399, 1260, 1300, 10)),
    ];

    let balance = 10000;
    let mut bt = Backtest::new(data, balance).unwrap();

    let candle = bt.next().unwrap();
    let price = candle.close(); // 1000

    let trailing_stop = OrderType::TrailingStop(price, 10);
    let order = Order::from((OrderType::Market(price), trailing_stop, 1, OrderSide::Buy));
    bt.place_order(order).unwrap();
    bt.execute_orders(&candle).unwrap();

    assert!(!bt.positions().is_empty());
    assert_eq!(bt.current_balance(), 9000);

    bt.execute_positions(&candle).unwrap();
    assert!(!bt.positions().is_empty());

    // next tick: the stop ratchets to 990, under the low 1000
    let candle = bt.next().unwrap();
    bt.execute_positions(&candle).unwrap();
    assert!(!bt.positions().is_empty());
    assert_eq!(bt.total_balance(candle.close()), 9080);

    // next tick: the stop ratchets to 1260, under the low 1270
    let candle = bt.next().unwrap();
    bt.execute_positions(&candle).unwrap();
    assert!(!bt.positions().is_empty());
    assert_eq!(bt.total_balance(candle.close()), 9350);

    // next tick: low 1260 reaches the stop
    let candle = bt.next().unwrap();
    bt.execute_positions(&candle).unwrap();
    assert!(bt.positions().is_empty());
    assert_eq!(bt.current_balance(), 10260);
    assert_eq!(bt.total_balance(candle.close()), 10260);
    assert_eq!(bt.free_balance().unwrap(), 10260);
}

#[test]
fn scenario_open_long_position_with_trailing_stop_loss() {
    // enter at 1000
    // the high is 1000 and the trailing stop is set to 10%
    // exit at 900
    let data = vec![
        Candle::from((990, 1000, 980, 1000, 10)),
        Candle::from((1000, 1000, 900, 1000, 10)),
    ];

    let balance = 10000;
    let mut bt = Backtest::new(data, balance).unwrap();

    let candle = bt.next().unwrap();
    let price = candle.close(); // 1000

    let trailing_stop = OrderType::TrailingStop(price, 10);
    let order = Order::from((OrderType::Market(price), trailing_stop, 1, OrderSide::Buy));
    bt.place_order(order).unwrap();
    bt.execute_orders(&candle).unwrap();

    assert!(!bt.positions().is_empty());
    assert_eq!(bt.current_balance(), 9000);
    assert_eq!(bt.total_balance(candle.close()), 9000);
    assert_eq!(bt.free_balance().unwrap(), 9000);

    bt.execute_positions(&candle).unwrap();
    assert!(!bt.positions().is_empty());

    // next tick
    let candle = bt.next().unwrap();
    bt.execute_positions(&candle).unwrap();

    assert!(bt.positions().is_empty());
    assert_eq!(bt.current_balance(), 9900);
    assert_eq!(bt.total_balance(candle.close()), 9900);
    assert_eq!(bt.free_balance().unwrap(), 9900);
}
