//! Opening and closing positions directly, long and short, winning and
//! losing. Prices are fixed-point with one unit per tenth.

use backtest::engine::Backtest;
use backtest::order::{Order, OrderSide, OrderType};
use backtest::sample_series::get_data;

#[test]
fn long_position() {
    let data = get_data();
    let balance = 10000;
    let mut bt = Backtest::new(data, balance).unwrap();

    let candle = bt.next().unwrap();
    let price = candle.close();

    let order: Order = (OrderType::Market(price), 1, OrderSide::Buy).into();
    let result = bt.open_position(order);
    assert!(result.is_ok());
    assert!(!bt.positions().is_empty());
    assert_eq!(bt.current_balance(), 10000 - (1100 * 1)); // 8900

    let candle = bt.next().unwrap();
    let price = candle.close();

    let position = bt.positions().first().unwrap().clone();
    let result = bt.close_position(&position, price);
    assert!(result.is_ok());
    let profit = result.unwrap();
    assert!(bt.positions().is_empty());
    assert_eq!(profit, (1200 - 1100) * 1); // 100
    assert_eq!(bt.current_balance(), 10100); // 8900 + 1100 + 100
}

#[test]
fn short_position() {
    let data = get_data();
    let balance = 10000;
    let mut bt = Backtest::new(data, balance).unwrap();

    bt.next().unwrap();
    let candle = bt.next().unwrap();
    let price = candle.close();

    let order: Order = (OrderType::Market(price), 1, OrderSide::Sell).into();
    let result = bt.open_position(order);
    assert!(result.is_ok());
    assert!(!bt.positions().is_empty());
    assert_eq!(bt.current_balance(), 10000 - (1200 * 1)); // 8800

    let candle = bt.next().unwrap();
    let price = candle.close();

    let position = bt.positions().first().unwrap().clone();
    let result = bt.close_position(&position, price);
    assert!(result.is_ok());
    let profit = result.unwrap();
    assert!(bt.positions().is_empty());
    assert_eq!(profit, (1200 - 1100) * 1); // 100
    assert_eq!(bt.current_balance(), 10100); // 8800 + 1200 + 100
}

#[test]
fn failed_long_position() {
    let data = get_data();
    let balance = 10000;
    let mut bt = Backtest::new(data, balance).unwrap();

    bt.next().unwrap();
    let candle = bt.next().unwrap();
    let price = candle.close();

    let order: Order = (OrderType::Market(price), 1, OrderSide::Buy).into();
    let result = bt.open_position(order);
    assert!(result.is_ok());
    assert!(!bt.positions().is_empty());
    assert_eq!(bt.current_balance(), 10000 - (1200 * 1)); // 8800

    let candle = bt.next().unwrap();
    let price = candle.close();

    let position = bt.positions().first().unwrap().clone();
    let result = bt.close_position(&position, price);
    assert!(result.is_ok());
    let profit = result.unwrap();
    assert!(bt.positions().is_empty());
    assert_eq!(profit, (1100 - 1200) * 1); // -100
    assert_eq!(bt.current_balance(), 9900); // 8800 + 1200 - 100
}

#[test]
fn failed_short_position() {
    let data = get_data();
    let balance = 10000;
    let mut bt = Backtest::new(data, balance).unwrap();

    let candle = bt.next().unwrap();
    let price = candle.close();

    let order: Order = (OrderType::Market(price), 1, OrderSide::Sell).into();
    let result = bt.open_position(order);
    assert!(result.is_ok());
    assert!(!bt.positions().is_empty());
    assert_eq!(bt.current_balance(), 10000 - (1100 * 1)); // 8900

    let candle = bt.next().unwrap();
    let price = candle.close();

    let position = bt.positions().first().unwrap().clone();
    let result = bt.close_position(&position, price);
    assert!(result.is_ok());
    let profit = result.unwrap();
    assert!(bt.positions().is_empty());
    assert_eq!(profit, (1100 - 1200) * 1); // -100
    assert_eq!(bt.current_balance(), 9900); // 8900 + 1100 - 100
}
