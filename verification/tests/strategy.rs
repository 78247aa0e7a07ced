//! Driving a whole run through a strategy.

use backtest::candle::Candle;
use backtest::engine::{Backtest, Command, Strategy};
use backtest::errors::Error;
use backtest::order::{Order, OrderSide, OrderType};
use backtest::samples::get_long_data;

/// Buys one unit at the first candle's close with a 20% take-profit, then
/// stays quiet.
struct BuyOnce {
    done: bool,
}

impl Strategy for BuyOnce {
    fn on_candle(&mut self, _engine: &Backtest, candle: &Candle) -> Vec<Command> {
        if self.done {
            return Vec::new();
        }
        self.done = true;
        let price = candle.close();
        let take_profit = OrderType::TakeProfitAndStopLoss(backtest::money::add_percent(price, 20), 0);
        let order = Order::from((OrderType::Market(price), take_profit, 1, OrderSide::Buy));
        vec![Command::Place(order)]
    }
}

/// Issues one invalid command per tick.
struct Confused;

impl Strategy for Confused {
    fn on_candle(&mut self, _engine: &Backtest, _candle: &Candle) -> Vec<Command> {
        let bad = Order::from((OrderType::TakeProfitAndStopLoss(1000, 900), 1, OrderSide::Buy));
        let unknown = Order::from((OrderType::Market(1000), 1, OrderSide::Sell));
        vec![Command::Place(bad), Command::Cancel(unknown)]
    }
}

/// Issues nothing, ever.
struct Idle;

impl Strategy for Idle {
    fn on_candle(&mut self, _engine: &Backtest, _candle: &Candle) -> Vec<Command> {
        Vec::new()
    }
}

#[test]
fn run_executes_strategy_to_completion() {
    let data = get_long_data();
    let mut bt = Backtest::new(data, 10000).unwrap();
    let mut strategy = BuyOnce { done: false };

    bt.run(&mut strategy).unwrap();

    // The buy filled at 1000 on the first tick and the 1200 take-profit
    // matched on the third candle (high 1290).
    assert!(bt.orders().is_empty());
    assert!(bt.positions().is_empty());
    assert_eq!(bt.current_balance(), 10200);
    let record = bt.events().first().unwrap();
    assert_eq!(record.open_tick, 0);
    assert_eq!(record.closed.unwrap().exit_price, 1200);
    assert_eq!(record.closed.unwrap().tick, 2);
}

#[test]
fn run_aborts_without_free_balance() {
    let data = get_long_data();
    let mut bt = Backtest::new(data, 0).unwrap();
    let mut strategy = Idle;

    let result = bt.run(&mut strategy);
    assert!(matches!(result, Err(Error::InsufficientFunds(0, 0))));
}

#[test]
fn run_ignores_rejected_commands() {
    let data = get_long_data();
    let mut bt = Backtest::new(data, 10000).unwrap();

    let mut strategy = Confused;
    bt.run(&mut strategy).unwrap();
    assert!(bt.orders().is_empty());
    assert!(bt.positions().is_empty());
    assert_eq!(bt.current_balance(), 10000);
}
