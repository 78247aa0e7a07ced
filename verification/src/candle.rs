//! A single OHLCV price bar.

use vstd::prelude::*;

use crate::money::PRICE_MAX;

verus! {

/// One candle of market data: open, high, low, close, volume and an
/// optional bid. Immutable once constructed; the engine accepts whatever
/// values it is given and never checks that `low <= open, close <= high`.
#[derive(Clone, Copy, PartialEq, Eq, Structural, Debug)]
pub struct Candle {
    pub open: u64,
    pub high: u64,
    pub low: u64,
    pub close: u64,
    pub volume: u64,
    pub bid: Option<u64>,
}

impl Candle {
    /// All fields are inside the range the engine's arithmetic supports.
    pub open spec fn bounded(self) -> bool {
        &&& self.open <= PRICE_MAX
        &&& self.high <= PRICE_MAX
        &&& self.low <= PRICE_MAX
        &&& self.close <= PRICE_MAX
        &&& match self.bid {
            Some(b) => b <= PRICE_MAX,
            None => true,
        }
    }

    /// Builds a candle with every field given explicitly.
    pub fn new(open: u64, high: u64, low: u64, close: u64, volume: u64, bid: Option<u64>) -> (r:
        Candle)
        ensures
            r == (Candle { open, high, low, close, volume, bid }),
    {
        Candle { open, high, low, close, volume, bid }
    }

    pub open spec fn spec_open(self) -> u64 {
        self.open
    }

    pub open spec fn spec_high(self) -> u64 {
        self.high
    }

    pub open spec fn spec_low(self) -> u64 {
        self.low
    }

    pub open spec fn spec_close(self) -> u64 {
        self.close
    }

    pub fn open(&self) -> (r: u64)
        ensures
            r == self.spec_open(),
    {
        self.open
    }

    pub fn high(&self) -> (r: u64)
        ensures
            r == self.spec_high(),
    {
        self.high
    }

    pub fn low(&self) -> (r: u64)
        ensures
            r == self.spec_low(),
    {
        self.low
    }

    pub fn close(&self) -> (r: u64)
        ensures
            r == self.spec_close(),
    {
        self.close
    }

    pub fn volume(&self) -> (r: u64)
        ensures
            r == self.volume,
    {
        self.volume
    }

    pub fn bid(&self) -> (r: Option<u64>)
        ensures
            r == self.bid,
    {
        self.bid
    }
}

impl From<(u64, u64, u64, u64, u64)> for Candle {
    /// Builds a candle from `(open, high, low, close, volume)`, with no bid.
    fn from(t: (u64, u64, u64, u64, u64)) -> (r: Candle) {
        Candle { open: t.0, high: t.1, low: t.2, close: t.3, volume: t.4, bid: None }
    }
}

impl vstd::std_specs::convert::FromSpecImpl<(u64, u64, u64, u64, u64)> for Candle {
    open spec fn obeys_from_spec() -> bool {
        true
    }

    open spec fn from_spec(t: (u64, u64, u64, u64, u64)) -> Candle {
        Candle { open: t.0, high: t.1, low: t.2, close: t.3, volume: t.4, bid: None }
    }
}

} // verus!
