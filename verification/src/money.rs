//! Fixed-point amounts and percentage arithmetic.
//!
//! Prices, balances and costs are unsigned fixed-point integers; quantities
//! are plain counts; percentages are whole percent values (`10` means 10%).
//! The bounds below keep every product the engine forms inside `u64`/`i128`
//! range, so all arithmetic is proved free of overflow.

use vstd::prelude::*;

verus! {

/// Largest price accepted anywhere (candle fields, order prices, exit levels).
pub const PRICE_MAX: u64 = 100_000_000_000;

/// Largest quantity an order may carry.
pub const QTY_MAX: u64 = 100_000;

/// Largest whole-percent value accepted for a trailing stop.
pub const PCT_MAX: u64 = 10_000;

/// Largest value a trailing-stop level can reach: a short trail starts at
/// `add_percent(anchor, pct)` and only moves down afterwards.
pub const TRAIL_MAX: u64 = PRICE_MAX + PRICE_MAX * PCT_MAX / 100;

/// `price` increased by `pct` percent, truncating the fractional part.
pub open spec fn add_percent_spec(price: u64, pct: u64) -> int {
    price + price * pct / 100
}

/// `price` decreased by `pct` percent, truncating the fractional part and
/// never going below zero (a percentage above 100 floors at zero).
pub open spec fn sub_percent_spec(price: u64, pct: u64) -> int {
    if price * pct / 100 >= price {
        0
    } else {
        price - price * pct / 100
    }
}

proof fn lemma_pct_product_bound(price: u64, pct: u64)
    requires
        price <= PRICE_MAX,
        pct <= PCT_MAX,
    ensures
        price * pct <= PRICE_MAX * PCT_MAX,
{
    assert(price * pct <= PRICE_MAX * PCT_MAX) by (nonlinear_arith)
        requires
            price <= PRICE_MAX,
            pct <= PCT_MAX,
    ;
}

/// Raises `price` by `pct` percent.
pub fn add_percent(price: u64, pct: u64) -> (r: u64)
    requires
        price <= PRICE_MAX,
        pct <= PCT_MAX,
    ensures
        r == add_percent_spec(price, pct),
        r <= TRAIL_MAX,
{
    proof {
        lemma_pct_product_bound(price, pct);
        assert(price * pct / 100 <= PRICE_MAX * PCT_MAX / 100) by (nonlinear_arith)
            requires
                price * pct <= PRICE_MAX * PCT_MAX,
        ;
    }
    price + price * pct / 100
}

/// Lowers `price` by `pct` percent, flooring at zero.
pub fn sub_percent(price: u64, pct: u64) -> (r: u64)
    requires
        price <= PRICE_MAX,
        pct <= PCT_MAX,
    ensures
        r == sub_percent_spec(price, pct),
        r <= price,
{
    proof {
        lemma_pct_product_bound(price, pct);
    }
    let cut = price * pct / 100;
    if cut >= price {
        0
    } else {
        price - cut
    }
}

} // verus!
