//! A backtesting engine for trading strategies.
//!
//! The engine replays a fixed sequence of price candles, matches pending
//! orders against each candle's price range to open positions, evaluates
//! exit rules (take-profit, stop-loss, trailing stop) to close them, and
//! keeps wallet balance and locked funds consistent across all of it.
//!
//! All prices and amounts are fixed-point integers: the library never
//! interprets the scale, so a caller may treat one unit as a cent, a tenth,
//! or any other denomination, as long as it is used consistently.

pub mod candle;
pub mod engine;
pub mod errors;
pub mod laws;
pub mod money;
pub mod order;
pub mod position;
pub mod sample_series;
pub mod samples;
pub mod wallet;

pub use candle::Candle;
pub use engine::{Backtest, Command, Strategy};
pub use errors::Error;
pub use money::{add_percent, sub_percent, PCT_MAX, PRICE_MAX, QTY_MAX, TRAIL_MAX};
pub use order::{Order, OrderSide, OrderType};
pub use position::{CloseRecord, Position, PositionEvent, PositionSide};
pub use wallet::Wallet;
