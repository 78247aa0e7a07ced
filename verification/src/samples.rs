//! Small candle series for exercising the engine, in fixed-point units
//! (one price unit is a tenth).

use vstd::prelude::*;

use crate::candle::Candle;

verus! {

/// A single candle closing at 1100 units, with an empty price range.
pub fn get_data() -> (r: Vec<Candle>)
    ensures
        r@.len() == 1,
        r@[0] == (Candle { open: 0, high: 0, low: 0, close: 1100, volume: 0, bid: None }),
        forall|i: int| 0 <= i < r@.len() ==> (#[trigger] r@[i]).bounded(),
{
    let mut v: Vec<Candle> = Vec::new();
    v.push(Candle::new(0, 0, 0, 1100, 0, None));
    v
}

/// Three candles trending upward, from a close of 1000 to one of 1200.
pub fn get_long_data() -> (r: Vec<Candle>)
    ensures
        r@.len() == 3,
        r@[0] == (Candle { open: 900, high: 1100, low: 800, close: 1000, volume: 10, bid: None }),
        r@[1] == (Candle { open: 1000, high: 1190, low: 900, close: 1100, volume: 10, bid: None }),
        r@[2] == (Candle { open: 1100, high: 1290, low: 1000, close: 1200, volume: 10, bid: None }),
        forall|i: int| 0 <= i < r@.len() ==> (#[trigger] r@[i]).bounded(),
{
    let mut v: Vec<Candle> = Vec::new();
    v.push(Candle::new(900, 1100, 800, 1000, 10, None));
    v.push(Candle::new(1000, 1190, 900, 1100, 10, None));
    v.push(Candle::new(1100, 1290, 1000, 1200, 10, None));
    v
}

/// Three candles trending downward, from a close of 1400 to one of 1200.
pub fn get_short_data() -> (r: Vec<Candle>)
    ensures
        r@.len() == 3,
        r@[0] == (Candle { open: 1500, high: 1600, low: 1310, close: 1400, volume: 10, bid: None }),
        r@[1] == (Candle { open: 1400, high: 1500, low: 1210, close: 1300, volume: 10, bid: None }),
        r@[2] == (Candle { open: 1300, high: 1400, low: 1110, close: 1200, volume: 10, bid: None }),
        forall|i: int| 0 <= i < r@.len() ==> (#[trigger] r@[i]).bounded(),
{
    let mut v: Vec<Candle> = Vec::new();
    v.push(Candle::new(1500, 1600, 1310, 1400, 10, None));
    v.push(Candle::new(1400, 1500, 1210, 1300, 10, None));
    v.push(Candle::new(1300, 1400, 1110, 1200, 10, None));
    v
}

} // verus!
