//! The failure taxonomy shared by every fallible operation of the engine.

use vstd::prelude::*;

verus! {

/// Everything that can go wrong while placing orders, closing positions or
/// driving a backtest run. Operations that fail with one of these values
/// leave the engine unchanged.
#[derive(Debug)]
pub enum Error {
    /// Backtesting requires at least one candle.
    CandleDataEmpty,
    /// Iteration asked for a candle past the end of the data.
    CandleNotFound,
    /// A balance update would have driven the balance negative; the field
    /// holds the balance that the update would have produced.
    NegZeroBalance(i128),
    /// Not enough free funds: required amount, then available amount.
    InsufficientFunds(u64, u64),
    /// Locked funds exceed the balance: balance, then locked amount.
    NegFreeBalance(u64, u64),
    /// The order to cancel is not in the pending list.
    OrderNotFound,
    /// The position to close is not in the open list.
    PositionNotFound,
    /// A generic error with a custom message.
    Msg(String),
    /// Take-profit and stop-loss levels must not be negative. Levels in
    /// this crate are unsigned, so a negative one cannot be represented
    /// and this variant is never produced; it is kept so the taxonomy is
    /// complete for callers that store or match on it.
    NegTakeProfitAndStopLoss,
    /// A trailing stop needs a positive anchor price and a positive percent.
    NegZeroTrailingStop,
    /// A market or limit type is needed to enter, and a take-profit/stop-loss
    /// or trailing-stop type to exit; the caller supplied the wrong kind.
    MismatchedOrderType,
}

} // verus!
