//! A slightly longer sample candle series, in fixed-point units (one price
//! unit is a tenth).

use vstd::prelude::*;

use crate::candle::Candle;

verus! {

/// Three candles that rise from a close of 1100 to 1200 and fall back.
pub fn get_data() -> (r: Vec<Candle>)
    ensures
        r@.len() == 3,
        r@[0] == (Candle { open: 1000, high: 1110, low: 990, close: 1100, volume: 10, bid: None }),
        r@[1] == (Candle { open: 1100, high: 1120, low: 1000, close: 1200, volume: 10, bid: None }),
        r@[2] == (Candle { open: 1200, high: 1210, low: 1000, close: 1100, volume: 10, bid: None }),
        forall|i: int| 0 <= i < r@.len() ==> (#[trigger] r@[i]).bounded(),
{
    let mut v: Vec<Candle> = Vec::new();
    v.push(Candle::new(1000, 1110, 990, 1100, 10, None));
    v.push(Candle::new(1100, 1120, 1000, 1200, 10, None));
    v.push(Candle::new(1200, 1210, 1000, 1100, 10, None));
    v
}

} // verus!
