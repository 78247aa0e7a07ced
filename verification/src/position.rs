//! Open positions and their audit records.

use vstd::prelude::*;

use crate::money::{add_percent_spec, sub_percent_spec, PCT_MAX, PRICE_MAX, QTY_MAX, TRAIL_MAX};
use crate::order::{Order, OrderSide, OrderType};

verus! {

/// The direction of an open exposure: `Buy` orders open `Long` positions,
/// `Sell` orders open `Short` ones.
#[derive(Clone, Copy, PartialEq, Eq, Structural, Debug)]
pub enum PositionSide {
    Long,
    Short,
}

/// An open exposure created by filling an order. The identifier comes from
/// a counter owned by the engine, so it is unique over the engine's life.
/// The exit rule is carried over from the originating order, except that a
/// trailing stop's anchor is turned into the initial stop level; that level
/// is the position's only mutable part, ratcheting as the market moves in
/// the position's favor.
#[derive(Clone, Copy, PartialEq, Eq, Structural, Debug)]
pub struct Position {
    pub id: u64,
    pub side: PositionSide,
    pub entry_price: u64,
    pub quantity: u64,
    pub exit_type: Option<OrderType>,
}

/// The tick and price at which a position closed.
#[derive(Clone, Copy, PartialEq, Eq, Structural, Debug)]
pub struct CloseRecord {
    pub tick: usize,
    pub exit_price: u64,
}

/// One audit record per position: opened once, marked closed in place when
/// the position closes, and never removed from the engine's log.
#[derive(Clone, Copy, PartialEq, Eq, Structural, Debug)]
pub struct PositionEvent {
    pub id: u64,
    pub open_tick: usize,
    pub side: PositionSide,
    pub entry_price: u64,
    /// The close tick and exit price, once the position has closed.
    pub closed: Option<CloseRecord>,
}

/// The side a filled order's position takes.
pub open spec fn side_of_order(side: OrderSide) -> PositionSide {
    match side {
        OrderSide::Buy => PositionSide::Long,
        OrderSide::Sell => PositionSide::Short,
    }
}

/// The initial trailing-stop level derived from an order's anchor price:
/// `pct` percent below the anchor for a long, above it for a short.
pub open spec fn initial_trail(side: PositionSide, anchor: u64, pct: u64) -> int {
    match side {
        PositionSide::Long => sub_percent_spec(anchor, pct),
        PositionSide::Short => add_percent_spec(anchor, pct),
    }
}

/// The position a valid order turns into when it fills, under identifier
/// `id`.
pub open spec fn position_of_order(order: Order, id: u64) -> Position {
    let side = side_of_order(order.side);
    let exit = match order.exit_type {
        Some(OrderType::TrailingStop(anchor, pct)) => Some(
            OrderType::TrailingStop(initial_trail(side, anchor, pct) as u64, pct),
        ),
        other => other,
    };
    Position {
        id,
        side,
        entry_price: order.entry_type.entry_price_spec(),
        quantity: order.quantity,
        exit_type: exit,
    }
}

impl Position {
    /// The shape the engine keeps: bounded entry price and quantity, and an
    /// exit rule that is absent, a take-profit/stop-loss, or a trailing
    /// stop whose level stays under `TRAIL_MAX`.
    pub open spec fn wf(self) -> bool {
        &&& self.entry_price <= PRICE_MAX
        &&& 1 <= self.quantity <= QTY_MAX
        &&& match self.exit_type {
            None => true,
            Some(OrderType::TakeProfitAndStopLoss(tp, sl)) => tp <= PRICE_MAX && sl <= PRICE_MAX,
            Some(OrderType::TrailingStop(level, pct)) => level <= TRAIL_MAX && 1 <= pct <= PCT_MAX,
            Some(_) => false,
        }
    }

    pub open spec fn cost_spec(self) -> int {
        self.entry_price * self.quantity
    }

    /// The realized profit of closing this position at `exit_price`:
    /// `(exit - entry) * quantity` for a long, `(entry - exit) * quantity`
    /// for a short. Negative when the position loses.
    pub open spec fn profit_spec(self, exit_price: u64) -> int {
        match self.side {
            PositionSide::Long => (exit_price - self.entry_price) * self.quantity,
            PositionSide::Short => (self.entry_price - exit_price) * self.quantity,
        }
    }

    /// The amount a close returns to the wallet: the committed cost plus
    /// the realized profit.
    pub open spec fn credit_spec(self, exit_price: u64) -> int {
        self.cost_spec() + self.profit_spec(exit_price)
    }

    /// The entry price of the position.
    pub fn entry_price(&self) -> (r: u64)
        ensures
            r == self.entry_price,
    {
        self.entry_price
    }

    /// The exit rule of the position, if any.
    pub fn exit_rule(&self) -> (r: &Option<OrderType>)
        ensures
            r == self.exit_type,
    {
        &self.exit_type
    }

    /// The funds committed when the position opened: entry price times
    /// quantity.
    pub fn cost(&self) -> (r: u64)
        requires
            self.wf(),
        ensures
            r == self.cost_spec(),
            r <= PRICE_MAX * QTY_MAX,
    {
        proof {
            assert(self.entry_price * self.quantity <= PRICE_MAX * QTY_MAX) by (nonlinear_arith)
                requires
                    self.entry_price <= PRICE_MAX,
                    self.quantity <= QTY_MAX,
            ;
        }
        self.entry_price * self.quantity
    }

    /// The exit rule after a trailing-stop update to `new_price`: the level
    /// only moves in the position's favor — up for `Long`, down for
    /// `Short` — and every other rule is left alone.
    pub open spec fn with_trailingstop(self, new_price: u64) -> Position {
        match self.exit_type {
            Some(OrderType::TrailingStop(current, pct)) => {
                let moved = match self.side {
                    PositionSide::Long => new_price > current,
                    PositionSide::Short => new_price < current,
                };
                if moved {
                    Position {
                        exit_type: Some(OrderType::TrailingStop(new_price, pct)),
                        ..self
                    }
                } else {
                    self
                }
            },
            _ => self,
        }
    }

    /// Moves the trailing-stop level to `new_price` when that tightens the
    /// rule; a stop never loosens, and positions without a trailing stop
    /// are unchanged.
    pub fn set_trailingstop(&mut self, new_price: u64)
        ensures
            *final(self) == old(self).with_trailingstop(new_price),
    {
        if let Some(OrderType::TrailingStop(current, pct)) = self.exit_type {
            let moved = match self.side {
                PositionSide::Long => new_price > current,
                PositionSide::Short => new_price < current,
            };
            if moved {
                self.exit_type = Some(OrderType::TrailingStop(new_price, pct));
            }
        }
    }
}

/// Builds the position a valid order opens when it fills, under
/// identifier `id`: the order's side, entry price, quantity and exit rule
/// carry over, and a trailing stop's anchor becomes the initial stop
/// level.
pub fn open_from_order(order: &Order, id: u64) -> (r: Position)
    requires
        order.valid(),
    ensures
        r == position_of_order(*order, id),
        r.wf(),
{
    proof {
        lemma_position_of_order_wf(*order, id);
    }
    let side = match order.side {
        OrderSide::Buy => PositionSide::Long,
        OrderSide::Sell => PositionSide::Short,
    };
    let exit = match order.exit_type {
        Some(OrderType::TrailingStop(anchor, pct)) => {
            let level = match side {
                PositionSide::Long => crate::money::sub_percent(anchor, pct),
                PositionSide::Short => crate::money::add_percent(anchor, pct),
            };
            Some(OrderType::TrailingStop(level, pct))
        },
        other => other,
    };
    Position { id, side, entry_price: order.entry_price(), quantity: order.quantity, exit_type: exit }
}

/// Bounds carried from a valid order to the position it opens.
pub proof fn lemma_position_of_order_wf(order: Order, id: u64)
    requires
        order.valid(),
    ensures
        position_of_order(order, id).wf(),
        position_of_order(order, id).cost_spec() == order.cost_spec(),
{
    if let Some(OrderType::TrailingStop(anchor, pct)) = order.exit_type {
        assert(anchor * pct <= PRICE_MAX * PCT_MAX) by (nonlinear_arith)
            requires
                anchor <= PRICE_MAX,
                pct <= PCT_MAX,
        ;
        assert(anchor * pct / 100 <= PRICE_MAX * PCT_MAX / 100) by (nonlinear_arith)
            requires
                anchor * pct <= PRICE_MAX * PCT_MAX,
        ;
    }
}

} // verus!
